//! Schema definitions: the declared type of each named column.

use vstd::prelude::*;

use crate::domain::error::{APIError, BadSchemaInfo};
use crate::domain::primitive_types::{prim_type_for, prim_type_of, SchemaInfo};
use crate::domain::headers::{lowercased, Headers};
use crate::text::{lower_text, text_eq, to_lowercase};
use crate::utils::{contains_value, duplicates_spec, get_duplicates, lemma_duplicates_are_repeated, views};

verus! {

/// One entry of a schema definition: a column name and its declared type name.
#[derive(Debug, Default, Clone, PartialEq)]
pub struct FieldSchema {
    name: String,
    field_type: String,
}

impl View for FieldSchema {
    type V = (Seq<char>, Seq<char>);

    closed spec fn view(&self) -> (Seq<char>, Seq<char>) {
        (self.name@, self.field_type@)
    }
}

impl FieldSchema {
    pub fn new(name: String, field_type: String) -> (r: Self)
        ensures
            r@ == (name@, field_type@),
    {
        Self { name, field_type }
    }

    pub fn name(&self) -> (r: &String)
        ensures
            r@ == self@.0,
    {
        &self.name
    }

    pub fn field_type(&self) -> (r: &String)
        ensures
            r@ == self@.1,
    {
        &self.field_type
    }

    /// A copy of this entry.
    pub fn copy(&self) -> (r: Self)
        ensures
            r@ == self@,
    {
        Self { name: self.name.clone(), field_type: self.field_type.clone() }
    }
}

/// A copy of a schema definition.
pub fn copy_definition(fields: &Vec<FieldSchema>) -> (r: Vec<FieldSchema>)
    ensures
        views(r@) == views(fields@),
{
    let mut r: Vec<FieldSchema> = Vec::new();
    let n = fields.len();
    for i in 0..n
        invariant
            n == fields@.len(),
            views(r@) == views(fields@).take(i as int),
    {
        let ghost before = views(r@);
        r.push(fields[i].copy());
        proof {
            assert(views(r@) =~= before.push(fields@[i as int]@));
            assert(views(fields@).take(i + 1) =~= views(fields@).take(i as int).push(
                fields@[i as int]@,
            ));
        }
    }
    proof {
        assert(views(fields@).take(n as int) =~= views(fields@));
    }
    r
}

/// The type names a schema may use, compared after lower-casing.
pub open spec fn is_type_keyword(t: Seq<char>) -> bool {
    ||| t == "string"@
    ||| t == "int"@
    ||| t == "float"@
    ||| t == "bool"@
    ||| t == "datetime"@
}

/// The entries whose type name is not one of the accepted ones, in order.
pub open spec fn incorrect_types(fs: Seq<(Seq<char>, Seq<char>)>) -> Seq<(Seq<char>, Seq<char>)>
    decreases fs.len(),
{
    if fs.len() == 0 {
        seq![]
    } else {
        let p = incorrect_types(fs.drop_last());
        if is_type_keyword(lower_text(fs.last().1)) {
            p
        } else {
            p.push(fs.last())
        }
    }
}

/// The names of the entries, in order.
pub open spec fn field_names(fs: Seq<(Seq<char>, Seq<char>)>) -> Seq<Seq<char>> {
    fs.map_values(|f: (Seq<char>, Seq<char>)| f.0)
}

/// The headers that no entry names, case ignored, in header order.
pub open spec fn missing_fields(hs: Seq<Seq<char>>, fs: Seq<(Seq<char>, Seq<char>)>) -> Seq<
    Seq<char>,
>
    decreases hs.len(),
{
    if hs.len() == 0 {
        seq![]
    } else {
        let p = missing_fields(hs.drop_last(), fs);
        if lowercased(field_names(fs)).contains(lower_text(hs.last())) {
            p
        } else {
            p.push(hs.last())
        }
    }
}

/// A schema definition is accepted for the headers: every type name is known, no name is
/// given twice, and every header is named by some entry (case ignored).
pub open spec fn schema_valid(fs: Seq<(Seq<char>, Seq<char>)>, hs: Seq<Seq<char>>) -> bool {
    &&& incorrect_types(fs).len() == 0
    &&& duplicates_spec(field_names(fs)).len() == 0
    &&& missing_fields(hs, fs).len() == 0
}

/// The type declared for `name` by the first entry with exactly that name.
pub open spec fn schema_lookup(fs: Seq<(Seq<char>, Seq<char>)>, name: Seq<char>) -> Option<
    Seq<char>,
>
    decreases fs.len(),
{
    if fs.len() == 0 {
        None
    } else if fs[0].0 == name {
        Some(fs[0].1)
    } else {
        schema_lookup(fs.drop_first(), name)
    }
}

/// A value of one of the cell types; a float is held as the text its `Display` writes.
#[derive(Debug, Clone, PartialEq)]
pub enum DynValue {
    String(String),
    Int(i64),
    Float(String),
    Bool(bool),
    DateTime(crate::datetime::DateTime),
    Undefined(String),
}

/// The declared type of every column, by column name; no name is declared twice.
#[derive(Debug, PartialEq)]
pub struct Schema(Vec<FieldSchema>);

impl Schema {
    /// No two entries have the same name.
    #[verifier::type_invariant]
    spec fn names_distinct(self) -> bool {
        duplicates_spec(field_names(views(self.0@))).len() == 0
    }
}

impl Clone for Schema {
    fn clone(&self) -> (r: Self)
        ensures
            r@ == self@,
    {
        proof {
            use_type_invariant(self);
        }
        Schema(copy_definition(&self.0))
    }
}

impl View for Schema {
    type V = Seq<(Seq<char>, Seq<char>)>;

    closed spec fn view(&self) -> Seq<(Seq<char>, Seq<char>)> {
        views(self.0@)
    }
}

/// True when the lower-cased type name is one a schema may use.
fn is_type_keyword_text(t: &str) -> (r: bool)
    ensures
        r == is_type_keyword(t@),
{
    text_eq(t, "string") || text_eq(t, "int") || text_eq(t, "float") || text_eq(t, "bool")
        || text_eq(t, "datetime")
}

/// The report lists, for the definition `fs` and headers `hs`, the entries with unknown type
/// names, the names given twice, and the headers no entry names.
pub open spec fn schema_report(info: BadSchemaInfo, fs: Seq<(Seq<char>, Seq<char>)>, hs: Seq<Seq<char>>) -> bool {
    &&& views(info.incorrect_type@) == incorrect_types(fs)
    &&& views(info.duplicate_names@) == duplicates_spec(field_names(fs))
    &&& views(info.missing_fields@) == missing_fields(hs, fs)
}

impl Schema {
    /// Accepts a schema definition for the headers when every type name is one of `string`,
    /// `int`, `float`, `bool`, `datetime` (case ignored), no name is given twice, and every
    /// header is named by some entry (case ignored). Otherwise reports all three lists.
    pub fn parse(schema: Vec<FieldSchema>, headers: &Headers) -> (r: Result<Self, APIError>)
        ensures
            match r {
                Ok(s) => schema_valid(views(schema@), headers@) && s@ == views(schema@),
                Err(APIError::BadSchema(info)) => !schema_valid(views(schema@), headers@)
                    && schema_report(info, views(schema@), headers@),
                Err(_) => false,
            },
    {
        let ghost fs = views(schema@);
        let n = schema.len();
        let mut incorrect_type: Vec<FieldSchema> = Vec::new();
        let mut names: Vec<String> = Vec::new();
        let mut lower_names: Vec<String> = Vec::new();
        for i in 0..n
            invariant
                n == schema@.len(),
                fs == views(schema@),
                views(incorrect_type@) == incorrect_types(fs.take(i as int)),
                views(names@) == field_names(fs.take(i as int)),
                views(lower_names@) == lowercased(field_names(fs.take(i as int))),
        {
            let ghost prefix = fs.take(i as int);
            let ghost next = fs.take(i + 1);
            proof {
                assert(next.drop_last() =~= prefix);
                assert(next.last() == schema@[i as int]@);
                assert(field_names(next) =~= field_names(prefix).push(fs[i as int].0));
                assert(lowercased(field_names(next)) =~= lowercased(field_names(prefix)).push(
                    lower_text(fs[i as int].0),
                ));
            }
            let field = &schema[i];
            let t = to_lowercase(field.field_type.as_str());
            if !is_type_keyword_text(t.as_str()) {
                let ghost before = views(incorrect_type@);
                incorrect_type.push(field.copy());
                proof {
                    assert(views(incorrect_type@) =~= before.push(fs[i as int]));
                }
            }
            let ghost names_before = views(names@);
            names.push(field.name.clone());
            proof {
                assert(views(names@) =~= names_before.push(fs[i as int].0));
            }
            let ghost lower_before = views(lower_names@);
            lower_names.push(to_lowercase(field.name.as_str()));
            proof {
                assert(views(lower_names@) =~= lower_before.push(lower_text(fs[i as int].0)));
            }
        }
        proof {
            assert(fs.take(n as int) =~= fs);
        }
        let duplicate_names = get_duplicates(names.as_slice());

        let hv = headers.as_ref();
        let ghost hs = headers@;
        let m = hv.len();
        let mut missing: Vec<String> = Vec::new();
        for k in 0..m
            invariant
                m == hv@.len(),
                hs == views(hv@),
                views(lower_names@) == lowercased(field_names(fs)),
                views(missing@) == missing_fields(hs.take(k as int), fs),
        {
            proof {
                assert(hs.take(k + 1).drop_last() =~= hs.take(k as int));
                assert(hs.take(k + 1).last() == hv@[k as int]@);
            }
            let lh = to_lowercase(hv[k].as_str());
            if !contains_value(lower_names.as_slice(), &lh) {
                let ghost before = views(missing@);
                missing.push(hv[k].clone());
                proof {
                    assert(views(missing@) =~= before.push(hs[k as int]));
                }
            }
        }
        proof {
            assert(hs.take(m as int) =~= hs);
            assert(views(incorrect_type@).len() == incorrect_type@.len());
            assert(views(duplicate_names@).len() == duplicate_names@.len());
            assert(views(missing@).len() == missing@.len());
        }
        if incorrect_type.len() > 0 || duplicate_names.len() > 0 || missing.len() > 0 {
            return Err(
                APIError::BadSchema(
                    BadSchemaInfo {
                        incorrect_type,
                        duplicate_names,
                        missing_fields: missing,
                    },
                ),
            );
        }
        Ok(Schema(schema))
    }

    /// A schema made of `fields` as they are (any type names, for any columns), which is
    /// refused only when two entries have the same name.
    pub fn from_fields(fields: Vec<FieldSchema>) -> (r: Option<Self>)
        ensures
            r is Some <==> forall|a: int, b: int|
                0 <= a < b < fields@.len() ==> fields@[a]@.0 != fields@[b]@.0,
            r matches Some(s) ==> s@ == views(fields@),
    {
        let ghost fs = views(fields@);
        let n = fields.len();
        let mut names: Vec<String> = Vec::new();
        for i in 0..n
            invariant
                n == fields@.len(),
                fs == views(fields@),
                views(names@) == field_names(fs.take(i as int)),
        {
            let ghost before = views(names@);
            names.push(fields[i].name.clone());
            proof {
                assert(views(names@) =~= before.push(fs[i as int].0));
                assert(field_names(fs.take(i + 1)) =~= field_names(fs.take(i as int)).push(
                    fs[i as int].0,
                ));
            }
        }
        proof {
            assert(fs.take(n as int) =~= fs);
        }
        let duplicates = get_duplicates(names.as_slice());
        proof {
            assert(views(duplicates@).len() == duplicates@.len());
            assert forall|a: int, b: int| 0 <= a < b < fields@.len() && duplicates@.len() == 0
                implies fields@[a]@.0 != fields@[b]@.0 by {
                assert(fs[a] == fields@[a]@ && fs[b] == fields@[b]@);
                let v = fs[a].0;
                if fs[b].0 == v {
                    assert(field_names(fs)[a] == v && field_names(fs)[b] == v);
                    lemma_duplicates_are_repeated(field_names(fs), v);
                }
            }
            if duplicates@.len() > 0 {
                let v = duplicates_spec(field_names(fs))[0];
                lemma_duplicates_are_repeated(field_names(fs), v);
                assert(duplicates_spec(field_names(fs)).contains(v));
                let (a, b) = choose|a: int, b: int|
                    0 <= a < b < field_names(fs).len() && field_names(fs)[a] == v
                        && field_names(fs)[b] == v;
                assert(fs[a] == fields@[a]@ && fs[b] == fields@[b]@);
                assert(fields@[a]@.0 == fields@[b]@.0);
            }
        }
        if duplicates.len() > 0 {
            None
        } else {
            Some(Schema(fields))
        }
    }

    /// The type declared for the column `name`, if the schema names it (exact match).
    pub fn get(&self, name: &str) -> (r: Option<&String>)
        ensures
            match r {
                Some(t) => schema_lookup(self@, name@) == Some(t@),
                None => schema_lookup(self@, name@) is None,
            },
    {
        let n = self.0.len();
        let ghost fs = self@;
        proof {
            assert(fs.skip(0) =~= fs);
        }
        for i in 0..n
            invariant
                n == self.0@.len(),
                fs == views(self.0@),
                schema_lookup(fs, name@) == schema_lookup(fs.skip(i as int), name@),
        {
            proof {
                assert(fs.skip(i as int).drop_first() =~= fs.skip(i + 1));
                assert(fs.skip(i as int)[0] == self.0@[i as int]@);
            }
            if text_eq(self.0[i].name.as_str(), name) {
                return Some(&self.0[i].field_type);
            }
        }
        proof {
            assert(fs.skip(n as int).len() == 0);
        }
        None
    }

    /// The entries of the schema, in definition order; no name is given twice.
    pub fn as_ref(&self) -> (r: &Vec<FieldSchema>)
        ensures
            views(r@) == self@,
            forall|a: int, b: int| 0 <= a < b < self@.len() ==> self@[a].0 != self@[b].0,
    {
        proof {
            use_type_invariant(self);
            let fs = self@;
            assert forall|a: int, b: int| 0 <= a < b < fs.len() implies fs[a].0 != fs[b].0 by {
                let v = fs[a].0;
                if fs[b].0 == v {
                    assert(field_names(fs)[a] == v && field_names(fs)[b] == v);
                    lemma_duplicates_are_repeated(field_names(fs), v);
                }
            }
        }
        &self.0
    }

    /// Each entry as a column name and the kind its type name stands for, in definition order.
    pub fn infos(&self) -> (r: Vec<SchemaInfo>)
        ensures
            r@.len() == self@.len(),
            forall|i: int|
                0 <= i < r@.len() ==> (#[trigger] r@[i]).header_name@ == self@[i].0
                    && r@[i].data_type == prim_type_of(lower_text(self@[i].1)),
    {
        let n = self.0.len();
        let mut r: Vec<SchemaInfo> = Vec::new();
        for i in 0..n
            invariant
                n == self.0@.len(),
                r@.len() == i,
                forall|k: int|
                    0 <= k < i ==> (#[trigger] r@[k]).header_name@ == self@[k].0
                        && r@[k].data_type == prim_type_of(lower_text(self@[k].1)),
        {
            let kind = prim_type_for(self.0[i].field_type.as_str());
            let info = SchemaInfo::new(self.0[i].name.clone(), kind);
            proof {
                assert(self@[i as int] == self.0@[i as int]@);
            }
            r.push(info);
            proof {
                assert(r@[i as int] == info);
            }
        }
        r
    }

    /// The schema with no entries.
    pub fn empty() -> (r: Self)
        ensures
            r@ == Seq::<(Seq<char>, Seq<char>)>::empty(),
    {
        let s = Schema(Vec::new());
        proof {
            assert(views(s.0@) =~= Seq::<(Seq<char>, Seq<char>)>::empty());
        }
        s
    }
}

proof fn lemma_no_missing_fields(hs: Seq<Seq<char>>, fs: Seq<(Seq<char>, Seq<char>)>)
    requires
        missing_fields(hs, fs).len() == 0,
    ensures
        forall|i: int|
            0 <= i < hs.len() ==> lowercased(field_names(fs)).contains(lower_text(#[trigger] hs[i])),
    decreases hs.len(),
{
    if hs.len() > 0 {
        lemma_no_missing_fields(hs.drop_last(), fs);
        assert forall|i: int| 0 <= i < hs.len() implies lowercased(field_names(fs)).contains(
            lower_text(#[trigger] hs[i]),
        ) by {
            if i < hs.len() - 1 {
                assert(hs[i] == hs.drop_last()[i]);
            }
        }
    }
}

impl Default for Schema {
    fn default() -> (r: Self)
        ensures
            r@ == Seq::<(Seq<char>, Seq<char>)>::empty(),
    {
        Schema::empty()
    }
}

/// In an accepted schema every header is named by some entry, case ignored.
pub proof fn lemma_accepted_schema_covers_headers(
    fs: Seq<(Seq<char>, Seq<char>)>,
    hs: Seq<Seq<char>>,
    i: int,
)
    requires
        schema_valid(fs, hs),
        0 <= i < hs.len(),
    ensures
        exists|k: int| 0 <= k < fs.len() && lower_text(fs[k].0) == lower_text(hs[i]),
{
    lemma_no_missing_fields(hs, fs);
    assert(lowercased(field_names(fs)).contains(lower_text(hs[i])));
    let k = choose|k: int|
        0 <= k < lowercased(field_names(fs)).len() && lowercased(field_names(fs))[k] == lower_text(
            hs[i],
        );
    assert(lower_text(fs[k].0) == lower_text(hs[i]));
}

/// In an accepted schema every type name is one of the accepted ones.
pub proof fn lemma_accepted_schema_types(fs: Seq<(Seq<char>, Seq<char>)>, hs: Seq<Seq<char>>, i: int)
    requires
        schema_valid(fs, hs),
        0 <= i < fs.len(),
    ensures
        is_type_keyword(lower_text(fs[i].1)),
{
    lemma_no_incorrect_types(fs);
}

proof fn lemma_no_incorrect_types(fs: Seq<(Seq<char>, Seq<char>)>)
    requires
        incorrect_types(fs).len() == 0,
    ensures
        forall|i: int| 0 <= i < fs.len() ==> is_type_keyword(lower_text(#[trigger] fs[i].1)),
    decreases fs.len(),
{
    if fs.len() > 0 {
        lemma_no_incorrect_types(fs.drop_last());
        assert forall|i: int| 0 <= i < fs.len() implies is_type_keyword(
            lower_text(#[trigger] fs[i].1),
        ) by {
            if i < fs.len() - 1 {
                assert(fs[i] == fs.drop_last()[i]);
            }
        }
    }
}

/// The five type names a schema accepts, lower-cased, written out.
proof fn lemma_keyword_literals(t: Seq<char>)
    ensures
        is_type_keyword(t) <==> (t == "string"@ || t == "int"@ || t == "float"@ || t == "bool"@
            || t == "datetime"@),
{
}

/// In an accepted schema every type name, lower-cased, is `string`, `int`, `float`, `bool`
/// or `datetime`.
pub proof fn lemma_accepted_types_are_the_five(
    fs: Seq<(Seq<char>, Seq<char>)>,
    hs: Seq<Seq<char>>,
    i: int,
)
    requires
        schema_valid(fs, hs),
        0 <= i < fs.len(),
    ensures
        ({
            let t = lower_text(fs[i].1);
            t == "string"@ || t == "int"@ || t == "float"@ || t == "bool"@ || t == "datetime"@
        }),
{
    lemma_no_incorrect_types(fs);
    lemma_keyword_literals(lower_text(fs[i].1));
}

proof fn lemma_incorrect_types_members(fs: Seq<(Seq<char>, Seq<char>)>)
    ensures
        forall|x: (Seq<char>, Seq<char>)| #[trigger]
            incorrect_types(fs).contains(x) ==> fs.contains(x) && !is_type_keyword(lower_text(x.1)),
        forall|i: int|
            0 <= i < fs.len() && !is_type_keyword(lower_text(#[trigger] fs[i].1))
                ==> incorrect_types(fs).contains(fs[i]),
    decreases fs.len(),
{
    if fs.len() > 0 {
        let p = fs.drop_last();
        lemma_incorrect_types_members(p);
        let l = incorrect_types(p);
        assert forall|x: (Seq<char>, Seq<char>)| #[trigger]
            incorrect_types(fs).contains(x) implies fs.contains(x) && !is_type_keyword(
            lower_text(x.1),
        ) by {
            if l.contains(x) {
                let k = choose|k: int| 0 <= k < p.len() && p[k] == x;
                assert(fs[k] == x);
            } else {
                let k = choose|k: int|
                    0 <= k < incorrect_types(fs).len() && incorrect_types(fs)[k] == x;
                assert(incorrect_types(fs) == l.push(fs.last()));
                if k < l.len() {
                    assert(l[k] == x);
                }
                assert(x == fs.last());
                assert(fs[fs.len() - 1] == x);
            }
        }
        assert forall|i: int|
            0 <= i < fs.len() && !is_type_keyword(lower_text(#[trigger] fs[i].1))
                implies incorrect_types(fs).contains(fs[i]) by {
            if i < fs.len() - 1 {
                assert(p[i] == fs[i]);
                assert(l.contains(fs[i]));
                let k = choose|k: int| 0 <= k < l.len() && l[k] == fs[i];
                if !is_type_keyword(lower_text(fs.last().1)) {
                    assert(incorrect_types(fs)[k] == fs[i]);
                }
            } else {
                assert(incorrect_types(fs) == l.push(fs.last()));
                assert(incorrect_types(fs)[l.len() as int] == fs[i]);
            }
        }
    }
}

/// An entry is reported as having an incorrect type exactly when its type name, lower-cased, is
/// none of `string`, `int`, `float`, `bool` and `datetime`.
pub proof fn lemma_incorrect_type_listed(fs: Seq<(Seq<char>, Seq<char>)>, i: int)
    requires
        0 <= i < fs.len(),
    ensures
        incorrect_types(fs).contains(fs[i]) <==> !({
            let t = lower_text(fs[i].1);
            t == "string"@ || t == "int"@ || t == "float"@ || t == "bool"@ || t == "datetime"@
        }),
{
    lemma_incorrect_types_members(fs);
    lemma_keyword_literals(lower_text(fs[i].1));
}

/// In an accepted schema every entry is found by its name, with its declared type.
pub proof fn lemma_accepted_schema_lookup(
    fs: Seq<(Seq<char>, Seq<char>)>,
    hs: Seq<Seq<char>>,
    i: int,
)
    requires
        schema_valid(fs, hs),
        0 <= i < fs.len(),
    ensures
        schema_lookup(fs, fs[i].0) == Some(fs[i].1),
{
    assert forall|a: int, b: int| 0 <= a < b < fs.len() implies fs[a].0 != fs[b].0 by {
        let v = fs[a].0;
        if fs[b].0 == v {
            assert(field_names(fs)[a] == v && field_names(fs)[b] == v);
            lemma_duplicates_are_repeated(field_names(fs), v);
        }
    }
    lemma_lookup_distinct(fs, i);
}

proof fn lemma_lookup_distinct(fs: Seq<(Seq<char>, Seq<char>)>, i: int)
    requires
        0 <= i < fs.len(),
        forall|a: int, b: int| 0 <= a < b < fs.len() ==> fs[a].0 != fs[b].0,
    ensures
        schema_lookup(fs, fs[i].0) == Some(fs[i].1),
    decreases i,
{
    if i > 0 {
        let t = fs.drop_first();
        assert(fs[0].0 != fs[i].0);
        assert forall|a: int, b: int| 0 <= a < b < t.len() implies t[a].0 != t[b].0 by {
            assert(t[a] == fs[a + 1] && t[b] == fs[b + 1]);
        }
        assert(t[i - 1] == fs[i]);
        lemma_lookup_distinct(t, i - 1);
    }
}

} // verus!
