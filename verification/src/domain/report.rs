//! Issues found while reading a table, grouped by kind.

use vstd::prelude::*;

use crate::text::text_eq;
use crate::utils::views;

verus! {

/// The kind of an issue.
#[derive(Debug, Clone, Eq, PartialEq, Hash)]
pub enum ReportError {
    FailedToParse,
    MergedCells,
    EmptyCell,
    CustomRule(String),
    UnexpectedError,
}

/// The mathematical value of a `ReportError`.
pub enum ErrorKind {
    FailedToParse,
    MergedCells,
    EmptyCell,
    CustomRule(Seq<char>),
    UnexpectedError,
}

impl View for ReportError {
    type V = ErrorKind;

    open spec fn view(&self) -> ErrorKind {
        match self {
            ReportError::FailedToParse => ErrorKind::FailedToParse,
            ReportError::MergedCells => ErrorKind::MergedCells,
            ReportError::EmptyCell => ErrorKind::EmptyCell,
            ReportError::CustomRule(s) => ErrorKind::CustomRule(s@),
            ReportError::UnexpectedError => ErrorKind::UnexpectedError,
        }
    }
}

impl ReportError {
    /// True when both are the same kind (with the same rule text for custom rules).
    pub fn same_as(&self, other: &ReportError) -> (r: bool)
        ensures
            r == (self@ == other@),
    {
        match (self, other) {
            (ReportError::FailedToParse, ReportError::FailedToParse) => true,
            (ReportError::MergedCells, ReportError::MergedCells) => true,
            (ReportError::EmptyCell, ReportError::EmptyCell) => true,
            (ReportError::UnexpectedError, ReportError::UnexpectedError) => true,
            (ReportError::CustomRule(a), ReportError::CustomRule(b)) => text_eq(
                a.as_str(),
                b.as_str(),
            ),
            _ => false,
        }
    }

    /// A copy of this kind.
    pub fn copy(&self) -> (r: ReportError)
        ensures
            r@ == self@,
    {
        match self {
            ReportError::FailedToParse => ReportError::FailedToParse,
            ReportError::MergedCells => ReportError::MergedCells,
            ReportError::EmptyCell => ReportError::EmptyCell,
            ReportError::CustomRule(s) => ReportError::CustomRule(s.clone()),
            ReportError::UnexpectedError => ReportError::UnexpectedError,
        }
    }
}

/// Where an issue is (first and last cell, as row and column) and what it is about.
#[derive(Debug, PartialEq)]
pub struct ReportInfo {
    pub start: (usize, usize),
    pub end: (usize, usize),
    pub val: String,
    pub context: String,
}

/// The mathematical value of a `ReportInfo`.
pub struct InfoView {
    pub start: (usize, usize),
    pub end: (usize, usize),
    pub val: Seq<char>,
    pub context: Seq<char>,
}

impl View for ReportInfo {
    type V = InfoView;

    open spec fn view(&self) -> InfoView {
        InfoView { start: self.start, end: self.end, val: self.val@, context: self.context@ }
    }
}

impl ReportInfo {
    pub fn new(start: (usize, usize), end: (usize, usize), val: String, context: String) -> (r:
        Self)
        ensures
            r@ == (InfoView { start, end, val: val@, context: context@ }),
    {
        Self { start, end, val, context }
    }
}

impl Clone for ReportInfo {
    fn clone(&self) -> (r: Self)
        ensures
            r@ == self@,
    {
        ReportInfo {
            start: self.start,
            end: self.end,
            val: self.val.clone(),
            context: self.context.clone(),
        }
    }
}

/// The value of one group of the log: its kind and its issues in the order they were added.
pub open spec fn group_view(g: (ReportError, Vec<ReportInfo>)) -> (ErrorKind, Seq<InfoView>) {
    (g.0@, views(g.1@))
}

/// The map from kind to issues that a list of groups with distinct kinds describes.
pub open spec fn groups_map(gs: Seq<(ErrorKind, Seq<InfoView>)>) -> Map<ErrorKind, Seq<InfoView>>
    decreases gs.len(),
{
    if gs.len() == 0 {
        Map::empty()
    } else {
        groups_map(gs.drop_last()).insert(gs.last().0, gs.last().1)
    }
}

/// No two groups have the same kind.
pub open spec fn kinds_distinct(gs: Seq<(ErrorKind, Seq<InfoView>)>) -> bool {
    forall|a: int, b: int| 0 <= a < b < gs.len() ==> gs[a].0 != gs[b].0
}

proof fn lemma_groups_map_facts(gs: Seq<(ErrorKind, Seq<InfoView>)>)
    requires
        kinds_distinct(gs),
    ensures
        groups_map(gs).dom().finite(),
        groups_map(gs).dom().len() == gs.len(),
        forall|k: ErrorKind|
            #![trigger groups_map(gs).contains_key(k)]
            groups_map(gs).contains_key(k) <==> exists|i: int| 0 <= i < gs.len() && gs[i].0 == k,
        forall|i: int| 0 <= i < gs.len() ==> #[trigger] groups_map(gs)[gs[i].0] == gs[i].1,
    decreases gs.len(),
{
    if gs.len() > 0 {
        let p = gs.drop_last();
        assert forall|a: int, b: int| 0 <= a < b < p.len() implies p[a].0 != p[b].0 by {
            assert(p[a] == gs[a] && p[b] == gs[b]);
        }
        lemma_groups_map_facts(p);
        let last = gs.last();
        assert(!groups_map(p).contains_key(last.0)) by {
            if groups_map(p).contains_key(last.0) {
                let i = choose|i: int| 0 <= i < p.len() && p[i].0 == last.0;
                assert(gs[i].0 == gs[gs.len() - 1].0);
            }
        }
        assert(groups_map(gs).dom() =~= groups_map(p).dom().insert(last.0));
        assert forall|k: ErrorKind| groups_map(gs).contains_key(k) implies exists|i: int|
            0 <= i < gs.len() && gs[i].0 == k by {
            if k != last.0 {
                let i = choose|i: int| 0 <= i < p.len() && p[i].0 == k;
                assert(gs[i] == p[i]);
            } else {
                assert(gs[gs.len() - 1].0 == k);
            }
        }
        assert forall|k: ErrorKind|
            (exists|i: int| 0 <= i < gs.len() && gs[i].0 == k) implies groups_map(
            gs,
        ).contains_key(k) by {
            let i = choose|i: int| 0 <= i < gs.len() && gs[i].0 == k;
            if i < gs.len() - 1 {
                assert(p[i] == gs[i]);
            }
        }
        assert forall|i: int| 0 <= i < gs.len() implies #[trigger] groups_map(gs)[gs[i].0]
            == gs[i].1 by {
            if i < gs.len() - 1 {
                assert(p[i] == gs[i]);
                assert(gs[i].0 != last.0);
            }
        }
    }
}

proof fn lemma_groups_map_update(
    gs: Seq<(ErrorKind, Seq<InfoView>)>,
    i: int,
    v: Seq<InfoView>,
)
    requires
        kinds_distinct(gs),
        0 <= i < gs.len(),
    ensures
        groups_map(gs.update(i, (gs[i].0, v))) == groups_map(gs).insert(gs[i].0, v),
    decreases gs.len(),
{
    let g2 = gs.update(i, (gs[i].0, v));
    let p = gs.drop_last();
    if i == gs.len() - 1 {
        assert(g2.drop_last() =~= p);
        assert(groups_map(g2) =~= groups_map(gs).insert(gs[i].0, v));
    } else {
        assert forall|a: int, b: int| 0 <= a < b < p.len() implies p[a].0 != p[b].0 by {
            assert(p[a] == gs[a] && p[b] == gs[b]);
        }
        assert(p[i] == gs[i]);
        lemma_groups_map_update(p, i, v);
        assert(g2.drop_last() =~= p.update(i, (gs[i].0, v)));
        assert(gs.last().0 != gs[i].0);
        assert(groups_map(g2) =~= groups_map(gs).insert(gs[i].0, v));
    }
}

/// The issues found so far, grouped by kind; each kind occurs once and keeps its issues in the
/// order they were added.
#[derive(Debug)]
pub struct IssueLog {
    groups: Vec<(ReportError, Vec<ReportInfo>)>,
}

impl IssueLog {
    #[verifier::type_invariant]
    closed spec fn inv(self) -> bool {
        kinds_distinct(self.groups@.map_values(|g: (ReportError, Vec<ReportInfo>)| group_view(g)))
    }

    /// The groups, in the order their kinds were first added.
    pub closed spec fn group_seq(self) -> Seq<(ErrorKind, Seq<InfoView>)> {
        self.groups@.map_values(|g: (ReportError, Vec<ReportInfo>)| group_view(g))
    }

    /// The kinds recorded, in the order in which each was first recorded.
    pub closed spec fn kind_order(self) -> Seq<ErrorKind> {
        self.group_seq().map_values(|g: (ErrorKind, Seq<InfoView>)| g.0)
    }
}

/// The order of kinds after recording each of `issues` in turn: a kind not yet present is
/// appended.
pub open spec fn order_with(order: Seq<ErrorKind>, issues: Seq<(ErrorKind, InfoView)>) -> Seq<
    ErrorKind,
>
    decreases issues.len(),
{
    if issues.len() == 0 {
        order
    } else {
        let p = order_with(order, issues.drop_last());
        if p.contains(issues.last().0) {
            p
        } else {
            p.push(issues.last().0)
        }
    }
}

impl View for IssueLog {
    type V = Map<ErrorKind, Seq<InfoView>>;

    closed spec fn view(&self) -> Map<ErrorKind, Seq<InfoView>> {
        groups_map(self.group_seq())
    }
}

/// The issues recorded for `k`, or none.
pub open spec fn issues_of(m: Map<ErrorKind, Seq<InfoView>>, k: ErrorKind) -> Seq<InfoView> {
    if m.contains_key(k) {
        m[k]
    } else {
        Seq::empty()
    }
}

impl Default for IssueLog {
    fn default() -> (r: Self)
        ensures
            r@ == Map::<ErrorKind, Seq<InfoView>>::empty(),
    {
        IssueLog::new()
    }
}

/// After an issue of kind `k` is recorded, the issues of kind `k` are those before followed by
/// the new one, and those of every other kind are unchanged.
pub proof fn lemma_read_after_add(
    m: Map<ErrorKind, Seq<InfoView>>,
    k: ErrorKind,
    info: InfoView,
    other: ErrorKind,
)
    ensures
        issues_of(m.insert(k, issues_of(m, k).push(info)), k) == issues_of(m, k).push(info),
        other != k ==> issues_of(m.insert(k, issues_of(m, k).push(info)), other) == issues_of(
            m,
            other,
        ),
{
}

/// An issue report as a pair of values.
pub open spec fn report_view(r: (ReportError, ReportInfo)) -> (ErrorKind, InfoView) {
    (r.0@, r.1@)
}

/// A list of issue reports as values.
pub open spec fn reports_view(rs: Seq<(ReportError, ReportInfo)>) -> Seq<(ErrorKind, InfoView)> {
    rs.map_values(|x: (ReportError, ReportInfo)| report_view(x))
}

/// The log `m` after recording each of `issues` in turn.
pub open spec fn with_issues(
    m: Map<ErrorKind, Seq<InfoView>>,
    issues: Seq<(ErrorKind, InfoView)>,
) -> Map<ErrorKind, Seq<InfoView>>
    decreases issues.len(),
{
    if issues.len() == 0 {
        m
    } else {
        let p = with_issues(m, issues.drop_last());
        p.insert(issues.last().0, issues_of(p, issues.last().0).push(issues.last().1))
    }
}

/// Recording one list of issues and then another is recording the two lists, one after the
/// other, at once.
pub proof fn lemma_with_issues_append(
    m: Map<ErrorKind, Seq<InfoView>>,
    a: Seq<(ErrorKind, InfoView)>,
    b: Seq<(ErrorKind, InfoView)>,
)
    ensures
        with_issues(with_issues(m, a), b) == with_issues(m, a + b),
    decreases b.len(),
{
    if b.len() == 0 {
        assert(a + b =~= a);
    } else {
        lemma_with_issues_append(m, a, b.drop_last());
        assert((a + b).drop_last() =~= a + b.drop_last());
        assert((a + b).last() == b.last());
    }
}

impl IssueLog {
    /// A log with no issues.
    pub fn new() -> (r: Self)
        ensures
            r@ == Map::<ErrorKind, Seq<InfoView>>::empty(),
    {
        let r = IssueLog { groups: Vec::new() };
        proof {
            assert(r.group_seq() =~= Seq::<(ErrorKind, Seq<InfoView>)>::empty());
        }
        r
    }

    /// Records an issue of kind `error_type`, after those already recorded for that kind.
    pub fn add_issue(&mut self, error_type: ReportError, error_info: ReportInfo)
        ensures
            final(self)@ == old(self)@.insert(
                error_type@,
                issues_of(old(self)@, error_type@).push(error_info@),
            ),
            final(self).kind_order() == (if old(self).kind_order().contains(error_type@) {
                old(self).kind_order()
            } else {
                old(self).kind_order().push(error_type@)
            }),
    {
        proof {
            use_type_invariant(&*self);
        }
        let ghost before = self@;
        let mut groups: Vec<(ReportError, Vec<ReportInfo>)> = Vec::new();
        std::mem::swap(&mut groups, &mut self.groups);
        let ghost gs = groups@.map_values(|g: (ReportError, Vec<ReportInfo>)| group_view(g));
        proof {
            lemma_groups_map_facts(gs);
        }
        let n = groups.len();
        let mut i: usize = 0;
        while i < n
            invariant
                n == groups@.len(),
                i <= n,
                gs == groups@.map_values(|g: (ReportError, Vec<ReportInfo>)| group_view(g)),
                kinds_distinct(gs),
                before == groups_map(gs),
                before == old(self)@,
                gs.map_values(|g: (ErrorKind, Seq<InfoView>)| g.0) == old(self).kind_order(),
                forall|k: int| 0 <= k < i ==> #[trigger] groups@[k].0@ != error_type@,
            decreases n - i,
        {
            if groups[i].0.same_as(&error_type) {
                let mut taken: (ReportError, Vec<ReportInfo>) = (error_type.copy(), Vec::new());
                groups.set_and_swap(i, &mut taken);
                let ghost old_infos = views(taken.1@);
                taken.1.push(error_info);
                proof {
                    lemma_groups_map_facts(gs);
                    assert(gs[i as int].0 == error_type@);
                    assert(views(taken.1@) =~= old_infos.push(error_info@));
                    assert(old_infos == gs[i as int].1);
                }
                groups.set_and_swap(i, &mut taken);
                proof {
                    let new_v = old_infos.push(error_info@);
                    assert(groups@.map_values(|g: (ReportError, Vec<ReportInfo>)| group_view(g))
                        =~= gs.update(i as int, (gs[i as int].0, new_v)));
                    lemma_groups_map_update(gs, i as int, new_v);
                    assert(issues_of(before, error_type@) == gs[i as int].1);
                    let ks = gs.map_values(|g: (ErrorKind, Seq<InfoView>)| g.0);
                    assert(ks[i as int] == error_type@);
                    assert(gs.update(i as int, (gs[i as int].0, new_v)).map_values(
                        |g: (ErrorKind, Seq<InfoView>)| g.0,
                    ) =~= ks);
                }
                self.groups = groups;
                return;
            }
            i = i + 1;
        }
        proof {
            let ks = gs.map_values(|g: (ErrorKind, Seq<InfoView>)| g.0);
            assert(!ks.contains(error_type@)) by {
                if ks.contains(error_type@) {
                    let a = choose|a: int| 0 <= a < ks.len() && ks[a] == error_type@;
                    assert(groups@[a].0@ != error_type@);
                }
            }
            assert(!groups_map(gs).contains_key(error_type@)) by {
                if groups_map(gs).contains_key(error_type@) {
                    let a = choose|a: int| 0 <= a < gs.len() && gs[a].0 == error_type@;
                    assert(groups@[a].0@ != error_type@);
                }
            }
        }
        let ghost info_v = error_info@;
        let mut infos: Vec<ReportInfo> = Vec::new();
        infos.push(error_info);
        groups.push((error_type, infos));
        proof {
            let gs2 = groups@.map_values(|g: (ReportError, Vec<ReportInfo>)| group_view(g));
            assert(views(infos@) =~= seq![info_v]);
            assert(gs2 =~= gs.push((error_type@, seq![info_v])));
            assert(gs2.map_values(|g: (ErrorKind, Seq<InfoView>)| g.0) =~= gs.map_values(
                |g: (ErrorKind, Seq<InfoView>)| g.0,
            ).push(error_type@));
            assert(gs2.drop_last() =~= gs);
            assert(Seq::<InfoView>::empty().push(info_v) =~= seq![info_v]);
            assert forall|a: int, b: int| 0 <= a < b < gs2.len() implies gs2[a].0 != gs2[b].0 by {
                if b == gs2.len() - 1 {
                    assert(groups@[a].0@ != error_type@);
                }
            }
        }
        self.groups = groups;
    }

    /// Records each of `issues` in turn.
    pub fn add_all(&mut self, issues: Vec<(ReportError, ReportInfo)>)
        ensures
            final(self)@ == with_issues(old(self)@, reports_view(issues@)),
            final(self).kind_order() == order_with(old(self).kind_order(), reports_view(issues@)),
    {
        let ghost all = reports_view(issues@);
        let n = issues.len();
        let mut rest = issues;
        let mut k: usize = 0;
        while k < n
            invariant
                k <= n,
                rest@.len() == n - k,
                all.len() == n,
                forall|m: int| 0 <= m < rest@.len() ==> (#[trigger] rest@[m].0@, rest@[m].1@) == all[m + k],
                self@ == with_issues(old(self)@, all.take(k as int)),
                self.kind_order() == order_with(old(self).kind_order(), all.take(k as int)),
            decreases n - k,
        {
            let (e, info) = rest.remove(0);
            proof {
                assert(all.take(k + 1).drop_last() =~= all.take(k as int));
                assert(all.take(k + 1).last() == all[k as int]);
                assert((e@, info@) == all[k as int]);
            }
            self.add_issue(e, info);
            proof {
                assert forall|m: int| 0 <= m < rest@.len() implies (#[trigger] rest@[m].0@, rest@[m].1@)
                    == all[m + k + 1] by {
                }
            }
            k = k + 1;
        }
        proof {
            assert(all.take(n as int) =~= all);
        }
    }

    /// The issues recorded for `error_type`, if any.
    pub fn get(&self, error_type: &ReportError) -> (r: Option<&Vec<ReportInfo>>)
        ensures
            match r {
                Some(v) => self@.contains_key(error_type@) && views(v@) == self@[error_type@],
                None => !self@.contains_key(error_type@),
            },
    {
        proof {
            use_type_invariant(self);
            lemma_groups_map_facts(self.group_seq());
        }
        let n = self.groups.len();
        for i in 0..n
            invariant
                n == self.groups@.len(),
                forall|k: int| 0 <= k < i ==> #[trigger] self.groups@[k].0@ != error_type@,
        {
            if self.groups[i].0.same_as(error_type) {
                proof {
                    use_type_invariant(self);
                    lemma_groups_map_facts(self.group_seq());
                    assert(self.group_seq()[i as int].0 == error_type@);
                }
                return Some(&self.groups[i].1);
            }
        }
        proof {
            use_type_invariant(self);
            lemma_groups_map_facts(self.group_seq());
            if self@.contains_key(error_type@) {
                let k = choose|k: int|
                    0 <= k < self.group_seq().len() && self.group_seq()[k].0 == error_type@;
                assert(self.groups@[k].0@ != error_type@);
            }
        }
        None
    }

    /// The number of kinds with at least one issue.
    pub fn len(&self) -> (r: usize)
        ensures
            r == self@.dom().len(),
    {
        proof {
            use_type_invariant(self);
            lemma_groups_map_facts(self.group_seq());
        }
        self.groups.len()
    }

    /// The kinds recorded, in the order they were first added.
    pub fn kinds(&self) -> (r: Vec<ReportError>)
        ensures
            views(r@) == self.kind_order(),
            views(r@).no_duplicates(),
            r@.len() == self@.dom().len(),
            forall|i: int| 0 <= i < r@.len() ==> self@.contains_key(#[trigger] r@[i]@),
    {
        proof {
            use_type_invariant(self);
            lemma_groups_map_facts(self.group_seq());
        }
        let n = self.groups.len();
        let mut r: Vec<ReportError> = Vec::new();
        for i in 0..n
            invariant
                n == self.groups@.len(),
                r@.len() == i,
                forall|k: int| 0 <= k < i ==> #[trigger] r@[k]@ == self.groups@[k].0@,
        {
            r.push(self.groups[i].0.copy());
        }
        proof {
            assert forall|i: int| 0 <= i < r@.len() implies self@.contains_key(#[trigger] r@[i]@) by {
                assert(self.group_seq()[i].0 == r@[i]@);
            }
            assert(views(r@) =~= self.kind_order());
            assert forall|a: int, b: int|
                0 <= a < views(r@).len() && 0 <= b < views(r@).len() && a != b implies views(r@)[a]
                != views(r@)[b] by {
                assert(views(r@)[a] == self.group_seq()[a].0);
                assert(views(r@)[b] == self.group_seq()[b].0);
            }
        }
        r
    }
}

} // verus!
