//! The shapes of what the Vault HTTP API answers.

use vstd::prelude::*;

verus! {

/// A JSON value as `serde_json` holds it. The library hands it on and never
/// looks inside.
#[verifier::external_type_specification]
#[verifier::external_body]
pub struct ExJsonValue(serde_json::Value);

/// What the store says of a client that has logged in.
#[derive(Debug)]
pub struct AuthInfo {
    pub client_token: String,
    pub accessor: String,
    pub policies: Vec<String>,
    pub token_policies: Vec<String>,
    pub metadata: serde_json::Value,
    pub lease_duration: Option<i64>,
    pub renewable: bool,
    pub entity_id: String,
    pub token_type: String,
    pub orphan: bool,
}

/// What the store records about one version of a secret.
#[derive(Debug)]
pub struct KvMetadata {
    pub created_time: String,
    pub deletion_time: Option<String>,
    pub destroyed: bool,
    pub version: i64,
}

/// A secret of the key/value store: its pairs of key and value, in the order
/// in which the caller handed them over, and what the store records about it.
/// A lookup takes the first pair of a key.
#[derive(Debug)]
pub struct KvData {
    pub data: Vec<(String, String)>,
    pub metadata: KvMetadata,
}

/// The names that the store lists below a path.
#[derive(Debug)]
pub struct KvKeys {
    pub keys: Vec<String>,
}

/// The complaints with which the store rejects a request.
#[derive(Debug)]
pub struct VaultError {
    pub errors: Vec<String>,
}

/// What [`lookup_value`] owes: the value of the first of `pairs` whose key
/// is `key`.
pub open spec fn value_of(pairs: Seq<(String, String)>, key: Seq<char>) -> Option<Seq<char>>
    decreases pairs.len(),
{
    if pairs.len() == 0 {
        None
    } else if pairs[0].0@ == key {
        Some(pairs[0].1@)
    } else {
        value_of(pairs.drop_first(), key)
    }
}

/// The value that `pairs` hold under `key`.
pub fn lookup_value<'a>(pairs: &'a Vec<(String, String)>, key: &str) -> (value: Option<&'a String>)
    ensures
        match value {
            Some(v) => value_of(pairs@, key@) == Some(v@),
            None => value_of(pairs@, key@) is None,
        },
{
    let wanted = crate::text::chars_of(key);
    let mut i: usize = 0;
    assert(pairs@.skip(0) =~= pairs@);
    while i < pairs.len()
        invariant
            i <= pairs.len(),
            wanted@ == key@,
            value_of(pairs@, key@) == value_of(pairs@.skip(i as int), key@),
        decreases pairs.len() - i,
    {
        proof {
            assert(pairs@.skip(i as int).drop_first() =~= pairs@.skip(i + 1));
        }
        if crate::text::spells(pairs[i].0.as_str(), &wanted) {
            return Some(&pairs[i].1);
        }
        i += 1;
    }
    None
}

} // verus!
