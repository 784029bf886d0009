//! JSON values as plain data, and the readers that take what the engine
//! needs out of them.

use vstd::prelude::*;
use vstd::utf8::encode_utf8;
use crate::text::str_eq;
use crate::wire::{parse_decimal, parse_decimal_spec};

verus! {

/// A JSON value. Numbers that are not whole are held as quantities.
#[derive(Debug)]
pub enum Json {
    Null,
    Bool(bool),
    /// A whole number that is not negative.
    Uint(u64),
    /// A negative whole number.
    Int(i64),
    /// Any other number, in hundred-millionths.
    Decimal(i64),
    Text(String),
    Array(Vec<Json>),
    Object(Vec<JsonMember>),
}

/// One member of a JSON object.
#[derive(Debug)]
pub struct JsonMember {
    pub key: String,
    pub value: Json,
}

/// The first member of a list with a key.
pub open spec fn first_member(members: Seq<JsonMember>, key: Seq<char>) -> Option<Json>
    decreases members.len(),
{
    if members.len() == 0 {
        None
    } else if members[0].key@ == key {
        Some(members[0].value)
    } else {
        first_member(members.drop_first(), key)
    }
}

/// The first member with a key is the one before which no member has it.
pub proof fn lemma_first_member(members: Seq<JsonMember>, key: Seq<char>, i: int)
    requires
        0 <= i <= members.len(),
        forall|j: int| 0 <= j < i ==> (#[trigger] members[j]).key@ != key,
        i < members.len() ==> members[i].key@ == key,
    ensures
        first_member(members, key) == (if i < members.len() {
            Some(members[i].value)
        } else {
            None
        }),
    decreases i,
{
    if i > 0 {
        let rest = members.drop_first();
        assert forall|j: int| 0 <= j < i - 1 implies (#[trigger] rest[j]).key@ != key by {
            assert(rest[j] == members[j + 1]);
        }
        if i < members.len() {
            assert(rest[i - 1] == members[i]);
        }
        lemma_first_member(rest, key, i - 1);
    }
}

impl Json {
    /// The member of an object under a key; none for any other value and
    /// for a key that the object lacks.
    pub open spec fn member(self, key: Seq<char>) -> Option<Json> {
        match self {
            Json::Object(members) => first_member(members@, key),
            _ => None,
        }
    }

    /// The item of an array at a place.
    pub open spec fn item(self, i: int) -> Option<Json> {
        match self {
            Json::Array(items) => if 0 <= i < items@.len() {
                Some(items@[i])
            } else {
                None
            },
            _ => None,
        }
    }

    /// The items of an array.
    pub open spec fn items(self) -> Option<Seq<Json>> {
        match self {
            Json::Array(items) => Some(items@),
            _ => None,
        }
    }

    /// The characters of a text.
    pub open spec fn text(self) -> Option<Seq<char>> {
        match self {
            Json::Text(t) => Some(t@),
            _ => None,
        }
    }

    /// A whole number that is not negative.
    pub open spec fn uint(self) -> Option<u64> {
        match self {
            Json::Uint(n) => Some(n),
            _ => None,
        }
    }

    pub open spec fn boolean(self) -> Option<bool> {
        match self {
            Json::Bool(b) => Some(b),
            _ => None,
        }
    }

    /// A number as a quantity, held at the ends of the `i64` range.
    pub open spec fn number(self) -> Option<int> {
        match self {
            Json::Uint(n) => Some(
                if n * 100_000_000 > i64::MAX {
                    i64::MAX as int
                } else {
                    n * 100_000_000
                },
            ),
            Json::Int(n) => Some(
                if n * 100_000_000 < i64::MIN {
                    i64::MIN as int
                } else if n * 100_000_000 > i64::MAX {
                    i64::MAX as int
                } else {
                    n * 100_000_000
                },
            ),
            Json::Decimal(d) => Some(d as int),
            _ => None,
        }
    }

    /// A quantity given as a number or as a decimal text.
    pub open spec fn amount(self) -> Option<int> {
        match self {
            Json::Text(t) => parse_decimal_spec(encode_utf8(t@)),
            _ => self.number(),
        }
    }

    /// The member of an object under a key.
    pub fn get(&self, key: &str) -> (r: Option<&Json>)
        ensures
            match self.member(key@) {
                Some(v) => r == Some(&v),
                None => r is None,
            },
    {
        match self {
            Json::Object(members) => {
                let mut i: usize = 0;
                while i < members.len() && !str_eq(members[i].key.as_str(), key)
                    invariant
                        i <= members@.len(),
                        forall|j: int| 0 <= j < i ==> (#[trigger] members@[j]).key@ != key@,
                    decreases members@.len() - i,
                {
                    i += 1;
                }
                proof {
                    lemma_first_member(members@, key@, i as int);
                }
                if i < members.len() {
                    Some(&members[i].value)
                } else {
                    None
                }
            },
            _ => None,
        }
    }

    /// The item of an array at a place.
    pub fn at(&self, i: usize) -> (r: Option<&Json>)
        ensures
            match self.item(i as int) {
                Some(v) => r == Some(&v),
                None => r is None,
            },
    {
        match self {
            Json::Array(items) => if i < items.len() {
                Some(&items[i])
            } else {
                None
            },
            _ => None,
        }
    }

    /// The items of an array.
    pub fn as_array(&self) -> (r: Option<&Vec<Json>>)
        ensures
            match self.items() {
                Some(s) => r matches Some(v) && v@ == s,
                None => r is None,
            },
    {
        match self {
            Json::Array(items) => Some(items),
            _ => None,
        }
    }

    /// The text of a text value.
    pub fn as_str(&self) -> (r: Option<&str>)
        ensures
            match self.text() {
                Some(t) => r matches Some(s) && s@ == t,
                None => r is None,
            },
    {
        match self {
            Json::Text(t) => Some(t.as_str()),
            _ => None,
        }
    }

    /// A whole number that is not negative.
    pub fn as_u64(&self) -> (r: Option<u64>)
        ensures
            r == self.uint(),
    {
        match self {
            Json::Uint(n) => Some(*n),
            _ => None,
        }
    }

    /// A boolean.
    pub fn as_bool(&self) -> (r: Option<bool>)
        ensures
            r == self.boolean(),
    {
        match self {
            Json::Bool(b) => Some(*b),
            _ => None,
        }
    }

    /// A quantity given as a number or as a decimal text.
    pub fn as_amount(&self) -> (r: Option<i64>)
        ensures
            match self.amount() {
                Some(v) => r == Some(v as i64),
                None => r is None,
            },
    {
        match self {
            Json::Text(t) => parse_decimal(t.as_str()),
            Json::Uint(n) => Some(
                if *n > (i64::MAX / 100_000_000) as u64 {
                    i64::MAX
                } else {
                    (*n * 100_000_000) as i64
                },
            ),
            Json::Int(n) => Some(
                if *n < i64::MIN / 100_000_000 {
                    i64::MIN
                } else if *n > i64::MAX / 100_000_000 {
                    i64::MAX
                } else {
                    *n * 100_000_000
                },
            ),
            Json::Decimal(d) => Some(*d),
            _ => None,
        }
    }
}

/// The member of an optional object under a key.
pub open spec fn member_of(v: Option<Json>, key: Seq<char>) -> Option<Json> {
    match v {
        Some(j) => j.member(key),
        None => None,
    }
}

/// The text of an optional value.
pub open spec fn text_of(v: Option<Json>) -> Option<Seq<char>> {
    match v {
        Some(j) => j.text(),
        None => None,
    }
}

/// The whole number of an optional value.
pub open spec fn uint_of(v: Option<Json>) -> Option<u64> {
    match v {
        Some(j) => j.uint(),
        None => None,
    }
}

/// The text under a key of an object.
pub fn text_at<'a>(v: &'a Json, key: &str) -> (r: Option<&'a str>)
    ensures
        match text_of(v.member(key@)) {
            Some(t) => r matches Some(s) && s@ == t,
            None => r is None,
        },
{
    match v.get(key) {
        Some(j) => j.as_str(),
        None => None,
    }
}

/// The whole number under a key of an object.
pub fn uint_at(v: &Json, key: &str) -> (r: Option<u64>)
    ensures
        r == uint_of(v.member(key@)),
{
    match v.get(key) {
        Some(j) => j.as_u64(),
        None => None,
    }
}

/// The number of an optional value, as a quantity.
pub open spec fn number_of(v: Option<Json>) -> Option<int> {
    match v {
        Some(j) => j.number(),
        None => None,
    }
}

/// The quantity of an optional value, given as a number or a decimal text.
pub open spec fn amount_of_json(v: Option<Json>) -> Option<int> {
    match v {
        Some(j) => j.amount(),
        None => None,
    }
}

/// The quantity that the text of an optional value writes.
pub open spec fn decimal_text_of(v: Option<Json>) -> Option<int> {
    match text_of(v) {
        Some(t) => parse_decimal_spec(encode_utf8(t)),
        None => None,
    }
}

/// The number under a key of an object, as a quantity.
pub fn number_at(v: &Json, key: &str) -> (r: Option<i64>)
    ensures
        match number_of(v.member(key@)) {
            Some(n) => r == Some(n as i64),
            None => r is None,
        },
{
    match v.get(key) {
        Some(j) => match j {
            Json::Text(_) => None,
            _ => j.as_amount(),
        },
        None => None,
    }
}

/// The quantity under a key of an object, given as a number or a text.
pub fn amount_at(v: &Json, key: &str) -> (r: Option<i64>)
    ensures
        match amount_of_json(v.member(key@)) {
            Some(n) => r == Some(n as i64),
            None => r is None,
        },
{
    match v.get(key) {
        Some(j) => j.as_amount(),
        None => None,
    }
}

/// The quantity that the text under a key of an object writes.
pub fn decimal_text_at(v: &Json, key: &str) -> (r: Option<i64>)
    ensures
        match decimal_text_of(v.member(key@)) {
            Some(n) => r == Some(n as i64),
            None => r is None,
        },
{
    match text_at(v, key) {
        Some(t) => parse_decimal(t),
        None => None,
    }
}

} // verus!
