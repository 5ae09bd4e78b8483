//! The shape of a JSON document, as far as the pipeline reads and writes it.
//!
//! A number is either an integer or a decimal.  A decimal is held in
//! millionths, which is the precision the pipeline keeps of a coordinate.

use vstd::prelude::*;
use crate::text::same_text;

verus! {

/// Millionths in one unit.
pub const MILLIONTHS: i64 = 1_000_000;

/// A JSON value.
#[derive(Debug, PartialEq, Eq)]
pub enum Json {
    Null,
    Bool(bool),
    /// A number written without fraction or exponent.
    Int(i64),
    /// Any other number, in millionths.
    Decimal(i64),
    Str(String),
    Array(Vec<Json>),
    /// The members of an object, in the order of the document.
    Object(Vec<(String, Json)>),
}

/// What a JSON value holds, with its texts as character sequences.
pub ghost enum JsonView {
    Null,
    Bool(bool),
    Int(int),
    Decimal(int),
    Str(Seq<char>),
    Array(Seq<JsonView>),
    Object(Seq<(Seq<char>, JsonView)>),
}

/// What a value holds.
pub open spec fn view_of(j: Json) -> JsonView
    decreases j,
{
    match j {
        Json::Null => JsonView::Null,
        Json::Bool(b) => JsonView::Bool(b),
        Json::Int(n) => JsonView::Int(n as int),
        Json::Decimal(m) => JsonView::Decimal(m as int),
        Json::Str(s) => JsonView::Str(s@),
        Json::Array(items) => JsonView::Array(
            Seq::new(
                items@.len(),
                |i: int|
                    if 0 <= i < items@.len() {
                        view_of(items@[i])
                    } else {
                        JsonView::Null
                    },
            ),
        ),
        Json::Object(members) => JsonView::Object(
            Seq::new(
                members@.len(),
                |i: int|
                    if 0 <= i < members@.len() {
                        (members@[i].0@, view_of(members@[i].1))
                    } else {
                        (Seq::empty(), JsonView::Null)
                    },
            ),
        ),
    }
}

impl View for Json {
    type V = JsonView;

    open spec fn view(&self) -> JsonView {
        view_of(*self)
    }
}

/// The value of the first member named `key`, if there is one.
pub open spec fn member(members: Seq<(String, Json)>, key: Seq<char>) -> Option<Json>
    decreases members.len(),
{
    if members.len() == 0 {
        None
    } else if members[0].0@ == key {
        Some(members[0].1)
    } else {
        member(members.drop_first(), key)
    }
}

proof fn lemma_member_skip(members: Seq<(String, Json)>, key: Seq<char>, i: int)
    requires
        0 <= i <= members.len(),
        forall|k: int| 0 <= k < i ==> members[k].0@ != key,
    ensures
        member(members, key) == member(members.skip(i), key),
    decreases i,
{
    if i == 0 {
        assert(members.skip(0) =~= members);
    } else {
        lemma_member_skip(members, key, i - 1);
        let rest = members.skip(i - 1);
        assert(rest[0] == members[i - 1]);
        assert(rest.drop_first() =~= members.skip(i));
    }
}

impl Json {
    /// The member `key` of an object; nothing for a value that is no object
    /// or has no such member.
    pub open spec fn spec_get(self, key: Seq<char>) -> Option<Json> {
        match self {
            Json::Object(members) => member(members@, key),
            _ => None,
        }
    }

    /// The number in millionths, where it is a number and fits.
    pub open spec fn spec_micro(self) -> Option<i64> {
        match self {
            Json::Int(n) => if i64::MIN <= n * MILLIONTHS <= i64::MAX {
                Some((n * MILLIONTHS) as i64)
            } else {
                None
            },
            Json::Decimal(m) => Some(m),
            _ => None,
        }
    }

    /// The member `key` of an object.
    pub fn get<'a>(&'a self, key: &str) -> (r: Option<&'a Json>)
        ensures
            match r {
                Some(v) => self.spec_get(key@) == Some(*v),
                None => self.spec_get(key@) is None,
            },
    {
        match self {
            Json::Object(members) => {
                let mut i: usize = 0;
                while i < members.len()
                    invariant
                        i <= members.len(),
                        *self == Json::Object(*members),
                        forall|k: int| 0 <= k < i ==> members[k].0@ != key@,
                    decreases members.len() - i,
                {
                    if same_text(members[i].0.as_str(), key) {
                        proof {
                            lemma_member_skip(members@, key@, i as int);
                            let rest = members@.skip(i as int);
                            assert(rest.len() > 0 && rest[0] == members[i as int]);
                            assert(member(rest, key@) == Some(members[i as int].1));
                        }
                        return Some(&members[i].1);
                    }
                    i += 1;
                }
                proof {
                    lemma_member_skip(members@, key@, members.len() as int);
                }
                None
            },
            _ => None,
        }
    }

    /// The text of a string value.
    pub fn as_str<'a>(&'a self) -> (r: Option<&'a str>)
        ensures
            match r {
                Some(s) => self matches Json::Str(t) && t@ == s@,
                None => !(self is Str),
            },
    {
        match self {
            Json::Str(s) => Some(s.as_str()),
            _ => None,
        }
    }

    /// The value of an integer; a decimal has none.
    pub fn as_i64(&self) -> (r: Option<i64>)
        ensures
            r == (match *self {
                Json::Int(n) => Some(n),
                _ => None::<i64>,
            }),
    {
        match self {
            Json::Int(n) => Some(*n),
            _ => None,
        }
    }

    /// The value of a number in millionths; nothing where it does not fit.
    pub fn as_micro(&self) -> (r: Option<i64>)
        ensures
            r == self.spec_micro(),
    {
        match self {
            Json::Int(n) => n.checked_mul(MILLIONTHS),
            Json::Decimal(m) => Some(*m),
            _ => None,
        }
    }

    /// The elements of an array.
    pub fn as_array<'a>(&'a self) -> (r: Option<&'a Vec<Json>>)
        ensures
            match r {
                Some(v) => *self == Json::Array(*v),
                None => !(self is Array),
            },
    {
        match self {
            Json::Array(items) => Some(items),
            _ => None,
        }
    }
}

/// The views of a sequence of values, in the same order.
pub open spec fn value_views(items: Seq<Json>) -> Seq<JsonView> {
    items.map_values(|x: Json| x@)
}

/// The views of a sequence of members, in the same order.
pub open spec fn member_views(members: Seq<(String, Json)>) -> Seq<(Seq<char>, JsonView)> {
    members.map_values(|m: (String, Json)| (m.0@, m.1@))
}

/// A string value.
pub fn text(s: &str) -> (j: Json)
    ensures
        j@ == JsonView::Str(s@),
{
    Json::Str(String::from_str(s))
}

/// The array of the given values.
pub fn array_of(items: Vec<Json>) -> (j: Json)
    ensures
        j@ == JsonView::Array(value_views(items@)),
{
    let j = Json::Array(items);
    proof {
        assert(j@->Array_0 =~= value_views(items@));
    }
    j
}

/// The object of the given members.
pub fn object_of(members: Vec<(String, Json)>) -> (j: Json)
    ensures
        j@ == JsonView::Object(member_views(members@)),
{
    let j = Json::Object(members);
    proof {
        let views = j@->Object_0;
        assert(views.len() == members@.len());
        assert forall|i: int| 0 <= i < views.len() implies views[i] == member_views(members@)[i] by {
            assert(views[i] == (members@[i].0@, members@[i].1@));
        }
        assert(views =~= member_views(members@));
    }
    j
}

/// A member of an object.
pub fn member_of(key: &str, value: Json) -> (m: (String, Json))
    ensures
        m.0@ == key@,
        m.1 == value,
{
    (String::from_str(key), value)
}

} // verus!
