//! Reading secrets out of the store: which secrets lie below a path, and
//! what one key of a secret holds.

use vstd::prelude::*;
use crate::vault::api::{lookup_value, value_of};
use crate::vault::error::VaultClientError;
use crate::vault_path::{SecretMapping, VaultPath, join_path, place_below};

verus! {

/// One mapping for each name that the store lists below `path`: the secret
/// of that name, filled from the path of the same name directly below
/// `path`. `listed` is what the store answered when asked to list `path`;
/// its failure is handed on.
pub fn secrets_in_path(
    listed: Result<Vec<String>, VaultClientError>,
    path: &VaultPath,
) -> (found: Result<Vec<SecretMapping>, VaultClientError>)
    ensures
        match (listed, found) {
            (Ok(keys), Ok(mappings)) => {
                &&& mappings@.len() == keys@.len()
                &&& forall|i: int|
                    0 <= i < keys@.len() ==> (#[trigger] mappings@[i])@ == place_below(
                        path@,
                        keys@[i]@,
                    )
            },
            (Err(asked), Err(handed)) => asked == handed,
            _ => false,
        },
{
    let keys = listed?;
    let mut mappings: Vec<SecretMapping> = Vec::new();
    for k in it: keys
        invariant
            it.seq() == keys@,
            mappings@.len() == it.index(),
            forall|i: int|
                0 <= i < mappings@.len() ==> (#[trigger] mappings@[i])@ == place_below(
                    path@,
                    keys@[i]@,
                ),
    {
        let below = join_path(path, k.as_str());
        mappings.push(SecretMapping::new(k, below));
    }
    Ok(mappings)
}

/// What the secret holds under `secret_name`. `fetched` is what the store
/// answered when asked for the secret; its failure is handed on.
pub fn single_secret(fetched: Result<Vec<(String, String)>, VaultClientError>, secret_name: &str) -> (
    found: Result<Option<String>, VaultClientError>)
    ensures
        match (fetched, found) {
            (Ok(pairs), Ok(Some(value))) => value_of(pairs@, secret_name@) == Some(value@),
            (Ok(pairs), Ok(None)) => value_of(pairs@, secret_name@) is None,
            (Err(asked), Err(handed)) => asked == handed,
            _ => false,
        },
{
    let keys = fetched?;
    match lookup_value(&keys, secret_name) {
        Some(value) => Ok(Some(value.clone())),
        None => Ok(None),
    }
}

} // verus!
