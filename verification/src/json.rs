//! A JSON document as the library reads it: the shape `system_profiler
//! -json` prints, with numbers kept only as far as they are whole and
//! non-negative. Parsing the text is the caller's work; the readers here
//! walk the tree.

use vstd::prelude::*;

verus! {

pub enum Json {
    Null,
    Bool(bool),
    /// A number, as `as_u64` sees it: `None` when it is negative or not whole.
    Number(Option<u64>),
    Str(String),
    Array(Vec<Json>),
    /// An object's members in the order the document map yields them; its
    /// keys are distinct.
    Object(Vec<(String, Json)>),
}

/// The index of the first member named `key`.
pub open spec fn member_index(members: Seq<(String, Json)>, key: Seq<char>) -> Option<int> {
    if exists|i: int| 0 <= i < members.len() && (#[trigger] members[i]).0@ == key {
        let i = choose|i: int|
            0 <= i < members.len() && (#[trigger] members[i]).0@ == key && forall|j: int|
                0 <= j < i ==> (#[trigger] members[j]).0@ != key;
        Some(i)
    } else {
        None
    }
}

/// `Value::get` with a string key: a member of an object, if there is one.
pub open spec fn get(j: Json, key: Seq<char>) -> Option<Json> {
    match j {
        Json::Object(members) => match member_index(members@, key) {
            Some(i) => Some(members@[i].1),
            None => None,
        },
        _ => None,
    }
}

pub open spec fn as_str(j: Json) -> Option<Seq<char>> {
    match j {
        Json::Str(s) => Some(s@),
        _ => None,
    }
}

pub open spec fn as_u64(j: Json) -> Option<u64> {
    match j {
        Json::Number(n) => n,
        _ => None,
    }
}

proof fn lemma_first_member_exists(members: Seq<(String, Json)>, key: Seq<char>, k: int)
    requires
        0 <= k < members.len(),
        members[k].0@ == key,
    ensures
        exists|i: int|
            0 <= i < members.len() && (#[trigger] members[i]).0@ == key && forall|j: int|
                0 <= j < i ==> (#[trigger] members[j]).0@ != key,
    decreases k,
{
    if exists|j: int| 0 <= j < k && (#[trigger] members[j]).0@ == key {
        let j = choose|j: int| 0 <= j < k && (#[trigger] members[j]).0@ == key;
        lemma_first_member_exists(members, key, j);
    }
}

impl Json {
    /// The member named `key`, when this is an object that has one.
    pub fn get(&self, key: &str) -> (r: Option<&Json>)
        ensures
            r matches Some(v) ==> get(*self, key@) == Some(*v),
            r is None ==> get(*self, key@) is None,
    {
        match self {
            Json::Object(members) => {
                let mut i: usize = 0;
                while i < members.len()
                    invariant
                        *self == Json::Object(*members),
                        i <= members.len(),
                        forall|j: int| 0 <= j < i ==> (#[trigger] members@[j]).0@ != key@,
                    decreases members.len() - i,
                {
                    if crate::text::str_eq(members[i].0.as_str(), key) {
                        proof {
                            lemma_first_member_exists(members@, key@, i as int);
                            assert(members@[i as int].0@ == key@);
                            let c = member_index(members@, key@)->0;
                            assert(c == i) by {
                                if c > i {
                                    assert(members@[i as int].0@ == key@);
                                }
                            }
                        }
                        return Some(&members[i].1);
                    }
                    i += 1;
                }
                None
            },
            _ => None,
        }
    }

    pub fn as_str(&self) -> (r: Option<&str>)
        ensures
            r matches Some(s) ==> as_str(*self) == Some(s@),
            r is None ==> as_str(*self) is None,
    {
        match self {
            Json::Str(s) => Some(s.as_str()),
            _ => None,
        }
    }

    pub fn as_u64(&self) -> (r: Option<u64>)
        ensures
            r == as_u64(*self),
    {
        match self {
            Json::Number(n) => *n,
            _ => None,
        }
    }

    pub fn as_array(&self) -> (r: Option<&Vec<Json>>)
        ensures
            r matches Some(v) ==> *self == Json::Array(*v),
            r is None ==> !(*self is Array),
    {
        match self {
            Json::Array(v) => Some(v),
            _ => None,
        }
    }

    pub fn as_object(&self) -> (r: Option<&Vec<(String, Json)>>)
        ensures
            r matches Some(v) ==> *self == Json::Object(*v),
            r is None ==> !(*self is Object),
    {
        match self {
            Json::Object(v) => Some(v),
            _ => None,
        }
    }
}

} // verus!
