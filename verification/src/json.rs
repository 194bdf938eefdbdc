//! A JSON document model: what the session-reading logic reads of a
//! parsed JSON line.
use vstd::prelude::*;

verus! {

/// A parsed JSON value. Object members keep the order in which the parser
/// produced them.
#[derive(Debug)]
pub enum Json {
    Null,
    Bool(bool),
    /// A number that fits in `i64`.
    Int(i64),
    /// Any other number, kept as its text.
    Number(String),
    Str(String),
    Array(Vec<Json>),
    Object(Vec<(String, Json)>),
}

/// The value of the first member named `key`.
pub open spec fn find_member(members: Seq<(String, Json)>, key: Seq<char>) -> Option<Json>
    decreases members.len(),
{
    if members.len() == 0 {
        None
    } else if members[0].0@ == key {
        Some(members[0].1)
    } else {
        find_member(members.drop_first(), key)
    }
}

/// The member `key` of `j` when `j` is an object that has one.
pub open spec fn member(j: Json, key: Seq<char>) -> Option<Json> {
    match j {
        Json::Object(members) => find_member(members@, key),
        _ => None,
    }
}

/// The member `key` of `j`, when `j` is present.
pub open spec fn member_of(j: Option<Json>, key: Seq<char>) -> Option<Json> {
    match j {
        Some(v) => member(v, key),
        None => None,
    }
}

/// The text of `j` when it is a JSON string.
pub open spec fn text_of(j: Option<Json>) -> Option<Seq<char>> {
    match j {
        Some(Json::Str(s)) => Some(s@),
        _ => None,
    }
}

/// The integer value of `j` when it is a JSON number that fits in `i64`.
pub open spec fn int_of(j: Option<Json>) -> Option<i64> {
    match j {
        Some(Json::Int(i)) => Some(i),
        _ => None,
    }
}

impl Json {
    /// The member named `key`, when `self` is an object that has one.
    pub fn get(&self, key: &str) -> (r: Option<&Json>)
        ensures
            match r {
                Some(v) => member(*self, key@) == Some(*v),
                None => member(*self, key@) is None,
            },
    {
        match self {
            Json::Object(members) => {
                let mut i: usize = 0;
                assert(members@.skip(0) =~= members@);
                while i < members.len()
                    invariant
                        i <= members@.len(),
                        member(*self, key@) == find_member(members@, key@),
                        find_member(members@, key@) == find_member(members@.skip(i as int), key@),
                    decreases members.len() - i,
                {
                    let ghost rest = members@.skip(i as int);
                    assert(rest[0] == members@[i as int]);
                    if members[i].0.as_str().eq(key) {
                        assert(rest.len() > 0 && rest[0].0@ == key@);
                        assert(find_member(rest, key@) == Some(rest[0].1));
                        return Some(&members[i].1);
                    }
                    assert(rest.drop_first() =~= members@.skip(i + 1));
                    i = i + 1;
                }
                None
            },
            _ => None,
        }
    }

    /// The text of `self` when it is a JSON string.
    pub fn as_str(&self) -> (r: Option<&str>)
        ensures
            match r {
                Some(s) => text_of(Some(*self)) == Some(s@),
                None => text_of(Some(*self)) is None,
            },
    {
        match self {
            Json::Str(s) => Some(s.as_str()),
            _ => None,
        }
    }

    /// The value of `self` when it is a number that fits in `i64`.
    pub fn as_i64(&self) -> (r: Option<i64>)
        ensures
            r == int_of(Some(*self)),
    {
        match self {
            Json::Int(i) => Some(*i),
            _ => None,
        }
    }
}

/// The text of `j` when it is present and a JSON string.
pub fn opt_str<'a>(j: Option<&'a Json>) -> (r: Option<&'a str>)
    ensures
        match r {
            Some(s) => text_of(
                match j {
                    Some(v) => Some(*v),
                    None => None,
                },
            ) == Some(s@),
            None => text_of(
                match j {
                    Some(v) => Some(*v),
                    None => None,
                },
            ) is None,
        },
{
    match j {
        Some(v) => v.as_str(),
        None => None,
    }
}

} // verus!
