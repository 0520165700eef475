//! Where a secret lives in the key/value store, and which Kubernetes secret
//! is filled from it.

use vstd::prelude::*;
use crate::text::{
    after_first, before_first, followed_by, contains_char, ends_with_char, has_char, split_at_first,
};

verus! {

/// A location in the key/value store: a secrets engine and a path below it.
#[derive(Debug, Clone)]
pub struct VaultPath {
    pub engine: String,
    pub path: String,
}

/// The model of a [`VaultPath`].
pub struct Location {
    pub engine: Seq<char>,
    pub path: Seq<char>,
}

impl View for VaultPath {
    type V = Location;

    open spec fn view(&self) -> Location {
        Location { engine: self.engine@, path: self.path@ }
    }
}

/// The Kubernetes secret of one name, and the place in the store that fills
/// it.
#[derive(Debug)]
pub struct SecretMapping {
    pub kubernetes_name: String,
    pub vault_path: VaultPath,
}

/// The model of a [`SecretMapping`].
pub struct Assignment {
    pub kubernetes_name: Seq<char>,
    pub vault_path: Location,
}

impl View for SecretMapping {
    type V = Assignment;

    open spec fn view(&self) -> Assignment {
        Assignment { kubernetes_name: self.kubernetes_name@, vault_path: self.vault_path@ }
    }
}

/// The models of `mappings`, one for one.
pub open spec fn assignments_of(mappings: Seq<SecretMapping>) -> Seq<Assignment> {
    mappings.map_values(|m: SecretMapping| m@)
}

/// `key` below `path`: the two with exactly one separator between them where
/// `path` ends with one or with none.
pub open spec fn joined(path: Seq<char>, key: Seq<char>) -> Seq<char> {
    if path.len() > 0 && path.last() == '/' {
        path + key
    } else {
        path + seq!['/'] + key
    }
}

/// The place of the secret `name` directly below `base`.
pub open spec fn place_below(base: Location, name: Seq<char>) -> Assignment {
    Assignment {
        kubernetes_name: name,
        vault_path: Location { engine: base.engine, path: joined(base.path, name) },
    }
}

/// The location that the text `engine:path` names: the engine before the
/// first colon, the path behind it.
pub open spec fn location_in(text: Seq<char>) -> Location {
    Location { engine: before_first(text, ':'), path: after_first(text, ':') }
}

/// The mapping that the text `name=engine:path` names: the Kubernetes name
/// before the first `=`, the location behind it.
pub open spec fn assignment_in(text: Seq<char>) -> Assignment {
    Assignment {
        kubernetes_name: before_first(text, '='),
        vault_path: location_in(after_first(text, '=')),
    }
}

/// Whether `text` names a mapping: it holds a `=`, and a colon behind the
/// first `=`.
pub open spec fn names_mapping(text: Seq<char>) -> bool {
    has_char(text, '=') && has_char(after_first(text, '='), ':')
}

/// The complaint about a location without a colon.
pub open spec fn path_complaint(text: Seq<char>) -> Seq<char> {
    "Invalid vault path: "@ + text
        + ".  Path should have the pattern 'engine:path/to/secret'"@
}

/// The complaint about a mapping without a `=`.
pub open spec fn mapping_complaint(text: Seq<char>) -> Seq<char> {
    "Invalid mapping (missing =): "@ + text
}

/// The location `key` below `path`, in the same engine.
pub fn join_path(path: &VaultPath, key: &str) -> (below: VaultPath)
    ensures
        below@ == (Location { engine: path.engine@, path: joined(path.path@, key@) }),
{
    let joined = if ends_with_char(path.path.as_str(), '/') {
        followed_by(path.path.as_str(), key)
    } else {
        let with_separator = followed_by(path.path.as_str(), "/");
        proof {
            reveal_strlit("/");
            assert("/"@ =~= seq!['/']);
        }
        followed_by(with_separator.as_str(), key)
    };
    VaultPath { engine: path.engine.clone(), path: joined }
}

impl SecretMapping {
    /// The mapping of the Kubernetes secret `kubernetes_name` to `vault_path`.
    pub fn new(kubernetes_name: String, vault_path: VaultPath) -> (mapping: SecretMapping)
        ensures
            mapping.kubernetes_name == kubernetes_name,
            mapping.vault_path == vault_path,
    {
        SecretMapping { kubernetes_name, vault_path }
    }

    /// One mapping for each of `secret_names`, in their order: the secret of
    /// that name, filled from the path of the same name directly below
    /// `vault_path`.
    pub fn from_secret_names_and_vault_path(
        secret_names: Vec<String>,
        vault_path: VaultPath,
    ) -> (mappings: Vec<SecretMapping>)
        ensures
            mappings@.len() == secret_names@.len(),
            forall|i: int|
                0 <= i < mappings@.len() ==> (#[trigger] mappings@[i])@ == place_below(
                    vault_path@,
                    secret_names@[i]@,
                ),
    {
        let mut mappings: Vec<SecretMapping> = Vec::new();
        for n in it: secret_names
            invariant
                it.seq() == secret_names@,
                mappings@.len() == it.index(),
                forall|i: int|
                    0 <= i < mappings@.len() ==> (#[trigger] mappings@[i])@ == place_below(
                        vault_path@,
                        secret_names@[i]@,
                    ),
        {
            let path = join_path(&vault_path, n.as_str());
            mappings.push(SecretMapping::new(n, path));
        }
        mappings
    }
}

/// Accepts `m` where it can name a location: where it holds a colon.
pub fn validate_vault_path(m: &str) -> (checked: Result<(), String>)
    ensures
        match checked {
            Ok(_) => has_char(m@, ':'),
            Err(complaint) => !has_char(m@, ':') && complaint@ == path_complaint(m@),
        },
{
    if !contains_char(m, ':') {
        let start = followed_by("Invalid vault path: ", m);
        return Err(
            followed_by(start.as_str(), ".  Path should have the pattern 'engine:path/to/secret'"),
        );
    }
    Ok(())
}

/// Accepts `m` where it can name a mapping: where it holds a `=`, and a
/// colon behind the first `=`.
pub fn validate_mapping(m: String) -> (checked: Result<(), String>)
    ensures
        match checked {
            Ok(_) => names_mapping(m@),
            Err(complaint) => !names_mapping(m@) && complaint@ == (if has_char(m@, '=') {
                path_complaint(after_first(m@, '='))
            } else {
                mapping_complaint(m@)
            }),
        },
{
    match split_at_first(m.as_str(), '=') {
        Some((_kube_part, vault_part)) => validate_vault_path(vault_part),
        None => Err(followed_by("Invalid mapping (missing =): ", m.as_str())),
    }
}

/// The location that `s` names.
pub fn parse_vault_path(s: &str) -> (path: VaultPath)
    requires
        has_char(s@, ':'),
    ensures
        path@ == location_in(s@),
{
    match split_at_first(s, ':') {
        Some((engine, path)) => VaultPath { engine: engine.to_owned(), path: path.to_owned() },
        None => VaultPath { engine: s.to_owned(), path: String::new() },
    }
}

/// The mappings that `map_strs` name, one for one.
pub fn parse_mappings(map_strs: &Vec<String>) -> (mappings: Vec<SecretMapping>)
    requires
        forall|i: int| 0 <= i < map_strs@.len() ==> names_mapping((#[trigger] map_strs@[i])@),
    ensures
        mappings@.len() == map_strs@.len(),
        forall|i: int|
            0 <= i < mappings@.len() ==> (#[trigger] mappings@[i])@ == assignment_in(
                map_strs@[i]@,
            ),
{
    let mut mappings: Vec<SecretMapping> = Vec::new();
    let mut i: usize = 0;
    while i < map_strs.len()
        invariant
            i <= map_strs.len(),
            forall|k: int| 0 <= k < map_strs@.len() ==> names_mapping((#[trigger] map_strs@[k])@),
            mappings@.len() == i,
            forall|k: int|
                0 <= k < i ==> (#[trigger] mappings@[k])@ == assignment_in(map_strs@[k]@),
        decreases map_strs.len() - i,
    {
        match split_at_first(map_strs[i].as_str(), '=') {
            Some((kube_part, vault_part)) => {
                let vault_path = parse_vault_path(vault_part);
                mappings.push(SecretMapping::new(kube_part.to_owned(), vault_path));
            },
            None => {
                assert(false);
            },
        }
        i += 1;
    }
    mappings
}

} // verus!
