//! A plain-value model of JSON documents, parsed by `serde_json`.
use vstd::prelude::*;

verus! {

/// A JSON value.  Numbers are kept in the text form `serde_json` prints
/// them in; object members keep the order `serde_json` iterates them in.
pub enum Json {
    Null,
    Bool(bool),
    Number(String),
    Str(String),
    Array(Vec<Json>),
    Object(Vec<(String, Json)>),
}

/// The document `serde_json::from_str::<serde_json::Value>` reads from
/// `text`, or `None` when `text` is not a JSON document.
pub uninterp spec fn json_parse(text: Seq<char>) -> Option<Json>;

#[verifier::external_type_specification]
#[verifier::external_body]
pub struct ExJsonValue(serde_json::Value);

/// Converts a `serde_json::Value` into the library's `Json`, variant by
/// variant; numbers become their `Display` text.
#[verifier::external_body]
fn json_of(v: &serde_json::Value) -> Json {
    match v {
        serde_json::Value::Null => Json::Null,
        serde_json::Value::Bool(b) => Json::Bool(*b),
        serde_json::Value::Number(n) => Json::Number(n.to_string()),
        serde_json::Value::String(s) => Json::Str(s.clone()),
        serde_json::Value::Array(a) => Json::Array(a.iter().map(json_of).collect()),
        serde_json::Value::Object(o) => Json::Object(o.iter().map(|(k, x)| (k.clone(), json_of(x))).collect()),
    }
}

/// `serde_json::from_str::<serde_json::Value>(text)`, as a `Json` value.
#[verifier::external_body]
pub(crate) fn parse_json(text: &str) -> (r: Option<Json>)
    ensures
        r == json_parse(text@),
{
    match serde_json::from_str::<serde_json::Value>(text) {
        Ok(v) => Some(json_of(&v)),
        Err(_) => None,
    }
}

/// Index of the first member named `key`.
pub open spec fn first_member(members: Seq<(String, Json)>, key: Seq<char>) -> Option<int>
    decreases members.len(),
{
    if members.len() == 0 {
        None
    } else if members[0].0@ == key {
        Some(0)
    } else {
        match first_member(members.drop_first(), key) {
            Some(k) => Some(k + 1),
            None => None,
        }
    }
}

/// The value of the first member named `key` of an object; `None` for a
/// missing member or a value that is not an object.
pub open spec fn json_get(j: Json, key: Seq<char>) -> Option<Json> {
    match j {
        Json::Object(members) => match first_member(members@, key) {
            Some(i) => Some(members@[i].1),
            None => None,
        },
        _ => None,
    }
}

proof fn lemma_first_member(members: Seq<(String, Json)>, key: Seq<char>, n: int)
    requires
        0 <= n <= members.len(),
        forall|k: int| 0 <= k < n ==> (#[trigger] members[k]).0@ != key,
    ensures
        n < members.len() && members[n].0@ == key ==> first_member(members, key) == Some(n),
        n == members.len() ==> first_member(members, key) is None,
    decreases n,
{
    if n > 0 {
        assert(members[0].0@ != key);
        assert forall|k: int| 0 <= k < n - 1 implies (#[trigger] members.drop_first()[k]).0@ != key by {
            assert(members.drop_first()[k] == members[k + 1]);
        }
        lemma_first_member(members.drop_first(), key, n - 1);
    }
}

impl Json {
    /// The value of the first member named `key`, when `self` is an object.
    pub fn get(&self, key: &str) -> (r: Option<&Json>)
        ensures
            match r {
                Some(v) => json_get(*self, key@) == Some(*v),
                None => json_get(*self, key@) is None,
            },
    {
        match self {
            Json::Object(members) => {
                let mut i: usize = 0;
                while i < members.len()
                    invariant
                        i <= members@.len(),
                        *self == Json::Object(*members),
                        forall|k: int| 0 <= k < i ==> (#[trigger] members@[k]).0@ != key@,
                    decreases members.len() - i,
                {
                    if crate::text::str_eq(members[i].0.as_str(), key) {
                        proof {
                            lemma_first_member(members@, key@, i as int);
                            assert(json_get(*self, key@) == Some(members@[i as int].1));
                        }
                        return Some(&members[i].1);
                    }
                    i += 1;
                }
                proof {
                    lemma_first_member(members@, key@, i as int);
                }
                None
            },
            _ => None,
        }
    }
}

} // verus!
