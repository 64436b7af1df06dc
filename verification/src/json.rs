//! JSON documents as the data layer exchanges them: filters sent by the
//! TypeScript API, objects to store, and rows read back.

use vstd::prelude::*;

verus! {

/// A JSON number: a non-negative integer, a negative integer, or a
/// floating-point number held as its decimal text.
#[derive(Debug)]
pub enum JsonNumber {
    PosInt(u64),
    NegInt(i64),
    Float(String),
}

/// A JSON document. The members of an object keep their order.
#[derive(Debug)]
pub enum Json {
    Null,
    Bool(bool),
    Number(JsonNumber),
    String(String),
    Array(Vec<Json>),
    Object(Vec<(String, Json)>),
}

/// The position of the first member named `key`, or -1.
pub open spec fn member_index(m: Seq<(String, Json)>, key: Seq<char>) -> int
    decreases m.len(),
{
    if m.len() == 0 {
        -1
    } else if m.last().0@ == key && member_index(m.drop_last(), key) < 0 {
        m.len() - 1
    } else {
        member_index(m.drop_last(), key)
    }
}

/// The value of the first member named `key`.
pub open spec fn member(m: Seq<(String, Json)>, key: Seq<char>) -> Option<Json> {
    let i = member_index(m, key);
    if 0 <= i < m.len() { Some(m[i].1) } else { None }
}

pub proof fn lemma_member_index(m: Seq<(String, Json)>, key: Seq<char>)
    ensures
        -1 <= member_index(m, key) < m.len(),
        member_index(m, key) >= 0 ==> m[member_index(m, key)].0@ == key,
        forall|j: int| 0 <= j < m.len() && (#[trigger] m[j]).0@ == key ==> member_index(m, key) >= 0 && member_index(m, key) <= j,
    decreases m.len(),
{
    if m.len() > 0 {
        lemma_member_index(m.drop_last(), key);
        assert forall|j: int| 0 <= j < m.len() && (#[trigger] m[j]).0@ == key implies member_index(m, key) >= 0
            && member_index(m, key) <= j by {
            if j < m.len() - 1 {
                assert(m.drop_last()[j] == m[j]);
            }
        }
    }
}

/// The value of the first member named `key` of an object.
pub fn get_member<'a>(m: &'a Vec<(String, Json)>, key: &str) -> (r: Option<&'a Json>)
    ensures
        match member(m@, key@) {
            Some(v) => r matches Some(x) && *x == v,
            None => r is None,
        },
{
    proof {
        lemma_member_index(m@, key@);
    }
    let mut i: usize = 0;
    while i < m.len()
        invariant
            i <= m@.len(),
            forall|j: int| 0 <= j < i ==> (#[trigger] m@[j]).0@ != key@,
            -1 <= member_index(m@, key@) < m@.len(),
            member_index(m@, key@) >= 0 ==> m@[member_index(m@, key@)].0@ == key@,
            forall|j: int| 0 <= j < m@.len() && (#[trigger] m@[j]).0@ == key@ ==> member_index(m@, key@) >= 0 && member_index(m@, key@) <= j,
        decreases m@.len() - i,
    {
        if crate::text::str_eq(m[i].0.as_str(), key) {
            return Some(&m[i].1);
        }
        i = i + 1;
    }
    None
}

impl Json {
    /// Whether the document is `null`.
    pub fn is_null(&self) -> (r: bool)
        ensures
            r == (*self is Null),
    {
        match self {
            Json::Null => true,
            _ => false,
        }
    }
}


/// A JSON number as plain values.
pub enum NumberView {
    PosInt(u64),
    NegInt(i64),
    Float(Seq<char>),
}

/// A JSON document as plain values.
pub enum JsonView {
    Null,
    Bool(bool),
    Number(NumberView),
    String(Seq<char>),
    Array(Seq<JsonView>),
    Object(Seq<(Seq<char>, JsonView)>),
}

impl JsonNumber {
    pub open spec fn view(&self) -> NumberView {
        match self {
            JsonNumber::PosInt(n) => NumberView::PosInt(*n),
            JsonNumber::NegInt(n) => NumberView::NegInt(*n),
            JsonNumber::Float(t) => NumberView::Float(t@),
        }
    }
}

/// The plain value of a JSON document.
pub open spec fn json_view(j: Json) -> JsonView
    decreases j, 0nat,
{
    match j {
        Json::Null => JsonView::Null,
        Json::Bool(b) => JsonView::Bool(b),
        Json::Number(n) => JsonView::Number(n@),
        Json::String(s) => JsonView::String(s@),
        Json::Array(v) => {
            proof {
                broadcast use vstd::std_specs::vec::axiom_vec_decreases_to_view;
                assert(decreases_to!(j => v));
                assert(decreases_to!(v => v@));
            }
            JsonView::Array(items_view(v@))
        },
        Json::Object(m) => {
            proof {
                broadcast use vstd::std_specs::vec::axiom_vec_decreases_to_view;
                assert(decreases_to!(j => m));
                assert(decreases_to!(m => m@));
            }
            JsonView::Object(members_view(m@))
        },
    }
}

/// The plain values of array items.
pub open spec fn items_view(s: Seq<Json>) -> Seq<JsonView>
    decreases s, 0nat,
{
    if s.len() == 0 {
        Seq::empty()
    } else {
        items_view(s.drop_last()).push(json_view(s.last()))
    }
}

/// The plain values of object members.
pub open spec fn members_view(s: Seq<(String, Json)>) -> Seq<(Seq<char>, JsonView)>
    decreases s, 0nat,
{
    if s.len() == 0 {
        Seq::empty()
    } else {
        members_view(s.drop_last()).push((s.last().0@, json_view(s.last().1)))
    }
}

} // verus!
