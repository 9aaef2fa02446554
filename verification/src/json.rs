//! JSON values, as far as the quota decoder reads them.

use vstd::prelude::*;

use crate::double::{one, rounded, Double};
use crate::text::same;

verus! {

/// A JSON number: a whole number that is not negative, one that is, or a number
/// with a fraction or an exponent.
#[derive(Clone, Copy, Debug)]
pub enum JsonNumber {
    PosInt(u64),
    NegInt(i64),
    Float(Double),
}

/// A JSON value. The members of an object stand in the order of the document.
#[derive(Debug)]
pub enum Json {
    Null,
    Bool(bool),
    Number(JsonNumber),
    Text(String),
    Array(Vec<Json>),
    Object(Vec<(String, Json)>),
}

/// The value of the first member with this key.
pub open spec fn first_member(members: Seq<(String, Json)>, key: Seq<char>) -> Option<Json>
    decreases members.len(),
{
    if members.len() == 0 {
        None
    } else if members[0].0@ == key {
        Some(members[0].1)
    } else {
        first_member(members.skip(1), key)
    }
}

impl JsonNumber {
    /// The number as a whole number, where it is one that 64 bits with a sign
    /// hold.
    pub open spec fn whole(self) -> Option<i64> {
        match self {
            JsonNumber::PosInt(n) => if n <= i64::MAX {
                Some(n as i64)
            } else {
                None
            },
            JsonNumber::NegInt(n) => Some(n),
            JsonNumber::Float(_) => None,
        }
    }

    /// The number as a binary64 number.
    pub open spec fn double(self) -> Double {
        match self {
            JsonNumber::PosInt(n) => Double::of(rounded(n * one())),
            JsonNumber::NegInt(n) => Double::of(rounded(n * one())),
            JsonNumber::Float(d) => d,
        }
    }
}

impl Json {
    /// The value of the member with this key, where this is an object with such
    /// a member.
    pub open spec fn member(self, key: Seq<char>) -> Option<Json> {
        match self {
            Json::Object(members) => first_member(members@, key),
            _ => None,
        }
    }

    /// The truth value, where this is one.
    pub open spec fn truth(self) -> Option<bool> {
        match self {
            Json::Bool(b) => Some(b),
            _ => None,
        }
    }

    /// The whole number, where this is one.
    pub open spec fn whole(self) -> Option<i64> {
        match self {
            Json::Number(n) => n.whole(),
            _ => None,
        }
    }

    /// The number, where this is one.
    pub open spec fn double(self) -> Option<Double> {
        match self {
            Json::Number(n) => Some(n.double()),
            _ => None,
        }
    }

    /// The text, where this is one.
    pub open spec fn text(self) -> Option<Seq<char>> {
        match self {
            Json::Text(s) => Some(s@),
            _ => None,
        }
    }

    /// The items, where this is an array; none otherwise.
    pub open spec fn items(self) -> Seq<Json> {
        match self {
            Json::Array(items) => items@,
            _ => Seq::empty(),
        }
    }

    /// The truth value of a member.
    pub open spec fn member_truth(self, key: Seq<char>) -> Option<bool> {
        match self.member(key) {
            Some(value) => value.truth(),
            None => None,
        }
    }

    /// The whole number of a member.
    pub open spec fn member_whole(self, key: Seq<char>) -> Option<i64> {
        match self.member(key) {
            Some(value) => value.whole(),
            None => None,
        }
    }

    /// The number of a member.
    pub open spec fn member_double(self, key: Seq<char>) -> Option<Double> {
        match self.member(key) {
            Some(value) => value.double(),
            None => None,
        }
    }

    /// The text of a member.
    pub open spec fn member_text(self, key: Seq<char>) -> Option<Seq<char>> {
        match self.member(key) {
            Some(value) => value.text(),
            None => None,
        }
    }

    /// The value of the member with this key, if there is one.
    pub fn get(&self, key: &str) -> (r: Option<&Json>)
        ensures
            r is Some <==> self.member(key@) is Some,
            r matches Some(value) ==> self.member(key@) == Some(*value),
            r matches Some(value) ==> *self is Object && exists|i: int|
                0 <= i < self->Object_0@.len() && (#[trigger] self->Object_0@[i]).0@ == key@
                    && self->Object_0@[i].1 == *value && forall|j: int|
                    0 <= j < i ==> (#[trigger] self->Object_0@[j]).0@ != key@,
            r is None && *self is Object ==> forall|i: int|
                0 <= i < self->Object_0@.len() ==> (#[trigger] self->Object_0@[i]).0@ != key@,
    {
        match self {
            Json::Object(members) => {
                let mut i: usize = 0;
                proof {
                    assert(members@.skip(0) =~= members@);
                }
                while i < members.len()
                    invariant
                        i <= members@.len(),
                        *self == Json::Object(*members),
                        first_member(members@, key@) == first_member(members@.skip(i as int), key@),
                        forall|j: int| 0 <= j < i ==> (#[trigger] members@[j]).0@ != key@,
                    decreases members@.len() - i,
                {
                    proof {
                        assert(members@.skip(i as int)[0] == members@[i as int]);
                        assert(members@.skip(i as int).skip(1) =~= members@.skip(i + 1));
                    }
                    if same(members[i].0.as_str(), key) {
                        return Some(&members[i].1);
                    }
                    i = i + 1;
                }
                None
            },
            _ => None,
        }
    }

    /// The truth value of a member, if it is one.
    pub fn get_bool(&self, key: &str) -> (r: Option<bool>)
        ensures
            r == self.member_truth(key@),
            match self.member(key@) {
                Some(Json::Bool(b)) => r == Some(b),
                _ => r is None,
            },
    {
        match self.get(key) {
            Some(Json::Bool(b)) => Some(*b),
            _ => None,
        }
    }

    /// The whole number of a member, if it is one that fits.
    pub fn get_i64(&self, key: &str) -> (r: Option<i64>)
        ensures
            r == self.member_whole(key@),
            match self.member(key@) {
                Some(Json::Number(JsonNumber::PosInt(n))) => (r is Some <==> n
                    <= 0x7fff_ffff_ffff_ffff) && (r is Some ==> r->0 == n),
                Some(Json::Number(JsonNumber::NegInt(n))) => r == Some(n),
                _ => r is None,
            },
    {
        match self.get(key) {
            Some(Json::Number(JsonNumber::PosInt(n))) => if *n <= 0x7fff_ffff_ffff_ffff {
                Some(*n as i64)
            } else {
                None
            },
            Some(Json::Number(JsonNumber::NegInt(n))) => Some(*n),
            _ => None,
        }
    }

    /// The number of a member, if it is one.
    pub fn get_double(&self, key: &str) -> (r: Option<Double>)
        ensures
            r == self.member_double(key@),
            match self.member(key@) {
                Some(Json::Number(JsonNumber::PosInt(n))) => r is Some && r->0@ == rounded(
                    n * one(),
                ),
                Some(Json::Number(JsonNumber::NegInt(n))) => r is Some && r->0@ == rounded(
                    n * one(),
                ),
                Some(Json::Number(JsonNumber::Float(d))) => r == Some(d),
                _ => r is None,
            },
    {
        match self.get(key) {
            Some(Json::Number(JsonNumber::PosInt(n))) => Some(Double::from_u64(*n)),
            Some(Json::Number(JsonNumber::NegInt(n))) => Some(Double::from_i64(*n)),
            Some(Json::Number(JsonNumber::Float(d))) => Some(*d),
            _ => None,
        }
    }

    /// The text of a member, if it is one.
    pub fn get_str(&self, key: &str) -> (r: Option<&str>)
        ensures
            r is Some <==> self.member_text(key@) is Some,
            r matches Some(s) ==> self.member_text(key@) == Some(s@),
            match self.member(key@) {
                Some(Json::Text(s)) => r is Some && r->0@ == s@,
                _ => r is None,
            },
    {
        match self.get(key) {
            Some(Json::Text(s)) => Some(s.as_str()),
            _ => None,
        }
    }

    /// The items of a member, if it is an array.
    pub fn get_array(&self, key: &str) -> (r: Option<&Vec<Json>>)
        ensures
            r matches Some(items) ==> self.member(key@) == Some(Json::Array(*items)),
            r is None ==> self.member(key@) is None || self.member(key@)->0 !is Array,
    {
        match self.get(key) {
            Some(Json::Array(items)) => Some(items),
            _ => None,
        }
    }
}

/// A member is found under its key, the first one where there are several; under
/// any other key there is none.
pub proof fn law_members_are_found(members: Vec<(String, Json)>, i: int)
    requires
        0 <= i < members@.len(),
        forall|j: int| 0 <= j < i ==> (#[trigger] members@[j]).0@ != members@[i].0@,
    ensures
        Json::Object(members).member(members@[i].0@) == Some(members@[i].1),
        forall|key: Seq<char>|
            (forall|j: int| 0 <= j < members@.len() ==> (#[trigger] members@[j]).0@ != key)
                ==> #[trigger] Json::Object(members).member(key) is None,
{
    lemma_first_member(members@, members@[i].0@, i);
    assert forall|key: Seq<char>|
        (forall|j: int| 0 <= j < members@.len() ==> (#[trigger] members@[j]).0@ != key) implies (
    #[trigger] Json::Object(members).member(key)) is None by {
        lemma_first_member(members@, key, members@.len() as int);
    }
}

proof fn lemma_first_member(members: Seq<(String, Json)>, key: Seq<char>, i: int)
    requires
        0 <= i <= members.len(),
        i < members.len() ==> members[i].0@ == key,
        forall|j: int| 0 <= j < i ==> (#[trigger] members[j]).0@ != key,
    ensures
        first_member(members, key) == (if i < members.len() {
            Some(members[i].1)
        } else {
            None
        }),
    decreases members.len(),
{
    if members.len() > 0 && i > 0 {
        let rest = members.skip(1);
        assert forall|j: int| 0 <= j < i - 1 implies (#[trigger] rest[j]).0@ != key by {
            assert(rest[j] == members[j + 1]);
        }
        lemma_first_member(rest, key, i - 1);
    }
}

} // verus!
