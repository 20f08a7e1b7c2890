//! Column headers of a table.

use vstd::prelude::*;

use crate::domain::error::{APIError, BadHeaderInfo};
use crate::text::{is_blank_text, lower_text, to_lowercase, trim_spec};
use crate::utils::{duplicates_spec, get_duplicates, lemma_duplicates_are_repeated, views};

verus! {

/// The validated column headers of a table, in column order.
#[derive(Debug, PartialEq, Clone)]
pub struct Headers(Vec<String>);

impl View for Headers {
    type V = Seq<Seq<char>>;

    closed spec fn view(&self) -> Seq<Seq<char>> {
        views(self.0@)
    }
}

/// The positions of the headers that are empty once trimmed, in ascending order.
pub open spec fn blank_positions(hs: Seq<Seq<char>>) -> Seq<usize>
    decreases hs.len(),
{
    if hs.len() == 0 {
        seq![]
    } else {
        let p = blank_positions(hs.drop_last());
        if trim_spec(hs.last()).len() == 0 {
            p.push((hs.len() - 1) as usize)
        } else {
            p
        }
    }
}

/// Each text lower-cased.
pub open spec fn lowercased(hs: Seq<Seq<char>>) -> Seq<Seq<char>> {
    hs.map_values(|h: Seq<char>| lower_text(h))
}

/// The headers that occur more than once when case is ignored (given lower-cased).
pub open spec fn duplicate_headers(hs: Seq<Seq<char>>) -> Seq<Seq<char>> {
    duplicates_spec(lowercased(hs))
}

/// The headers are acceptable: none is blank and none repeats another, case ignored.
pub open spec fn headers_valid(hs: Seq<Seq<char>>) -> bool {
    blank_positions(hs).len() == 0 && duplicate_headers(hs).len() == 0
}

/// The report lists the blank positions and the repeated headers of `hs`.
pub open spec fn header_report(info: BadHeaderInfo, hs: Seq<Seq<char>>) -> bool {
    &&& info.empty@ == blank_positions(hs)
    &&& views(info.duplicate@) == duplicate_headers(hs)
}

impl Headers {
    /// Accepts the headers when none is blank and no two are equal ignoring case; otherwise
    /// reports the blank positions and the repeated (lower-cased) headers.
    pub fn parse(headers: Vec<String>) -> (r: Result<Self, APIError>)
        ensures
            match r {
                Ok(h) => headers_valid(views(headers@)) && h@ == views(headers@),
                Err(APIError::BadHeaders(info)) => !headers_valid(views(headers@)) && header_report(
                    info,
                    views(headers@),
                ),
                Err(_) => false,
            },
    {
        let ghost hs = views(headers@);
        let n = headers.len();
        let mut empty: Vec<usize> = Vec::new();
        let mut lower: Vec<String> = Vec::new();
        for i in 0..n
            invariant
                n == headers@.len(),
                hs == views(headers@),
                empty@ == blank_positions(hs.take(i as int)),
                views(lower@) == lowercased(hs.take(i as int)),
        {
            proof {
                assert(hs.take(i + 1).drop_last() =~= hs.take(i as int));
                assert(hs.take(i + 1).last() == headers@[i as int]@);
            }
            if is_blank_text(headers[i].as_str()) {
                empty.push(i);
            }
            let l = to_lowercase(headers[i].as_str());
            let ghost before = views(lower@);
            lower.push(l);
            proof {
                assert(views(lower@) =~= before.push(lower_text(hs[i as int])));
                assert(lowercased(hs.take(i + 1)) =~= lowercased(hs.take(i as int)).push(
                    lower_text(hs[i as int]),
                ));
            }
        }
        proof {
            assert(hs.take(n as int) =~= hs);
        }
        let duplicate = get_duplicates(lower.as_slice());
        if empty.len() > 0 || duplicate.len() > 0 {
            proof {
                assert(views(duplicate@).len() == duplicate@.len());
            }
            return Err(APIError::BadHeaders(BadHeaderInfo { empty, duplicate }));
        }
        proof {
            assert(views(duplicate@).len() == duplicate@.len());
        }
        Ok(Headers(headers))
    }

    /// The headers in column order.
    pub fn as_ref(&self) -> (r: &Vec<String>)
        ensures
            views(r@) == self@,
    {
        &self.0
    }

    /// No headers.
    pub fn empty() -> (r: Self)
        ensures
            r@ == Seq::<Seq<char>>::empty(),
    {
        let h = Headers(Vec::new());
        proof {
            assert(views(h.0@) =~= Seq::<Seq<char>>::empty());
        }
        h
    }
}

impl Default for Headers {
    fn default() -> (r: Self)
        ensures
            r@ == Seq::<Seq<char>>::empty(),
    {
        Headers::empty()
    }
}

proof fn lemma_no_blank_positions(hs: Seq<Seq<char>>)
    requires
        blank_positions(hs).len() == 0,
    ensures
        forall|i: int| 0 <= i < hs.len() ==> trim_spec(#[trigger] hs[i]).len() > 0,
    decreases hs.len(),
{
    if hs.len() > 0 {
        lemma_no_blank_positions(hs.drop_last());
        assert forall|i: int| 0 <= i < hs.len() implies trim_spec(#[trigger] hs[i]).len() > 0 by {
            if i < hs.len() - 1 {
                assert(hs[i] == hs.drop_last()[i]);
            }
        }
    }
}

/// Accepted headers are never blank, and no two are equal when case is ignored.
pub proof fn lemma_accepted_headers_distinct(hs: Seq<Seq<char>>)
    requires
        headers_valid(hs),
    ensures
        forall|i: int| 0 <= i < hs.len() ==> trim_spec(#[trigger] hs[i]).len() > 0,
        forall|i: int, j: int|
            0 <= i < j < hs.len() ==> lower_text(#[trigger] hs[i]) != lower_text(#[trigger] hs[j]),
{
    lemma_no_blank_positions(hs);
    assert forall|i: int, j: int| 0 <= i < j < hs.len() implies lower_text(#[trigger] hs[i])
        != lower_text(#[trigger] hs[j]) by {
        let v = lower_text(hs[i]);
        if lower_text(hs[j]) == v {
            assert(lowercased(hs)[i] == v && lowercased(hs)[j] == v);
            lemma_duplicates_are_repeated(lowercased(hs), v);
        }
    }
}

} // verus!
