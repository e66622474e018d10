use vstd::prelude::*;
use crate::text::str_eq;

verus! {

/// A JSON number, in the three forms a JSON reader tells apart.
pub enum JsonNumber {
    /// A non-negative integer that fits in 64 bits.
    PosInt(u64),
    /// A negative integer that fits in 64 bits.
    NegInt(i64),
    /// Any other number, as decimal text that a float parser accepts.
    Float(String),
}

/// A JSON document. Object members keep the order in which they appear.
pub enum Json {
    Null,
    Bool(bool),
    Number(JsonNumber),
    Str(String),
    Array(Vec<Json>),
    Object(Vec<(String, Json)>),
}

/// The value of the first member named `key`, if any.
pub open spec fn member_value(members: Seq<(String, Json)>, key: Seq<char>) -> Option<Json>
    decreases members.len(),
{
    if members.len() == 0 {
        None
    } else if members[0].0@ == key {
        Some(members[0].1)
    } else {
        member_value(members.drop_first(), key)
    }
}

/// Member lookup: `None` for a missing member and for anything but an object.
pub open spec fn get_spec(j: Json, key: Seq<char>) -> Option<Json> {
    match j {
        Json::Object(members) => member_value(members@, key),
        _ => None,
    }
}

/// The text of a string value.
pub open spec fn as_str_spec(j: Json) -> Option<Seq<char>> {
    match j {
        Json::Str(s) => Some(s@),
        _ => None,
    }
}

/// The text of a string value found under `key`.
pub open spec fn str_member(j: Json, key: Seq<char>) -> Option<Seq<char>> {
    match get_spec(j, key) {
        Some(v) => as_str_spec(v),
        None => None,
    }
}

/// `Some` of what `r` points to, spelled as a value.
pub open spec fn deref_opt(r: Option<&Json>) -> Option<Json> {
    match r {
        Some(v) => Some(*v),
        None => None,
    }
}

proof fn lemma_member_value_skip(members: Seq<(String, Json)>, i: int, key: Seq<char>)
    requires
        0 <= i < members.len(),
        members[i].0@ != key,
    ensures
        member_value(members.subrange(i, members.len() as int), key)
            == member_value(members.subrange(i + 1, members.len() as int), key),
{
    assert(members.subrange(i, members.len() as int).drop_first()
        =~= members.subrange(i + 1, members.len() as int));
}

impl Json {
    /// The value of member `key` of an object.
    pub fn get(&self, key: &str) -> (r: Option<&Json>)
        ensures
            deref_opt(r) == get_spec(*self, key@),
    {
        match self {
            Json::Object(members) => {
                let n = members.len();
                let mut i: usize = 0;
                assert(members@ =~= members@.subrange(0, n as int));
                while i < n
                    invariant
                        n == members@.len(),
                        i <= n,
                        get_spec(*self, key@) == member_value(members@, key@),
                        member_value(members@, key@)
                            == member_value(members@.subrange(i as int, n as int), key@),
                    decreases n - i,
                {
                    if str_eq(members[i].0.as_str(), key) {
                        assert(members@.subrange(i as int, n as int)[0] == members@[i as int]);
                        return Some(&members[i].1);
                    }
                    proof {
                        lemma_member_value_skip(members@, i as int, key@);
                    }
                    i = i + 1;
                }
                None
            },
            _ => None,
        }
    }

    /// The text of a string value.
    pub fn as_str(&self) -> (r: Option<&String>)
        ensures
            match r {
                Some(s) => as_str_spec(*self) == Some(s@),
                None => as_str_spec(*self) is None,
            },
    {
        match self {
            Json::Str(s) => Some(s),
            _ => None,
        }
    }

    /// The elements of an array value.
    pub fn as_array(&self) -> (r: Option<&Vec<Json>>)
        ensures
            match r {
                Some(a) => *self == Json::Array(*a),
                None => !(*self is Array),
            },
    {
        match self {
            Json::Array(a) => Some(a),
            _ => None,
        }
    }
}

} // verus!
