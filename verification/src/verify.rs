//! Checking that the store holds what the manifests ask for.
//!
//! The library never talks to the store. It says which places have to be
//! asked, and judges what the store answered.

use vstd::prelude::*;
use crate::chart::{
    grouped_secret_key_refs, grouped_secret_refs, keys_by_secret, referenced_k8s_secret_names,
    secret_key_refs_of, secret_names_of, secret_refs_of,
};
use crate::groups::{first_seen, grouped, groups_model, texts_of};
use crate::haystack::Corpus;
use crate::sequences::{answered, ask_each};
use crate::text::{chars_of, followed_by, glue, glued, spells};
use crate::vault::api::{lookup_value, value_of};
use crate::vault::error::VaultClientError;
use crate::vault_path::{Assignment, Location, SecretMapping, VaultPath, assignments_of};

verus! {

/// What the store answered when it was asked for the secret at a place.
pub type Answer = Result<Vec<(String, String)>, VaultClientError>;

/// What a check found: the lines that say what was verified, and the
/// complaints.
pub struct Findings {
    pub verified: Seq<Seq<char>>,
    pub messages: Seq<Seq<char>>,
}

impl Findings {
    /// No line and no complaint.
    pub open spec fn none() -> Findings {
        Findings { verified: Seq::empty(), messages: Seq::empty() }
    }

    /// These findings, then those of `more`.
    pub open spec fn and(self, more: Findings) -> Findings {
        Findings {
            verified: self.verified + more.verified,
            messages: self.messages + more.messages,
        }
    }

    /// The complaints where there is any, else the lines.
    pub open spec fn verdict(self) -> Result<Seq<Seq<char>>, Seq<Seq<char>>> {
        if self.messages.len() > 0 {
            Err(self.messages)
        } else {
            Ok(self.verified)
        }
    }
}

/// The texts of a verdict.
pub open spec fn lines_of(
    checked: Result<Vec<String>, Vec<String>>,
) -> Result<Seq<Seq<char>>, Seq<Seq<char>>> {
    match checked {
        Ok(lines) => Ok(texts_of(lines@)),
        Err(lines) => Err(texts_of(lines@)),
    }
}

/// The line for a secret that the store lists below a path.
pub open spec fn listed_line(secret: Seq<char>, engine: Seq<char>, path: Seq<char>) -> Seq<char> {
    glued(seq!["Secret '"@, secret, "' maps to "@, engine, ":"@, path, "/"@, secret])
}

/// The lines for those of `names` that are among `keys`, in the order of
/// `names`.
pub open spec fn listed_lines(
    names: Seq<Seq<char>>,
    keys: Seq<Seq<char>>,
    engine: Seq<char>,
    path: Seq<char>,
) -> Seq<Seq<char>> {
    names.filter_map(
        |name: Seq<char>|
            if keys.contains(name) {
                Some(listed_line(name, engine, path))
            } else {
                None
            },
    )
}

/// What the listing of a path says of `names`: one line for each name that
/// the store lists; the complaint of the client where it could not list.
pub open spec fn paths_verdict(
    names: Seq<Seq<char>>,
    engine: Seq<char>,
    path: Seq<char>,
    listed: Result<Vec<String>, VaultClientError>,
) -> Result<Seq<Seq<char>>, Seq<Seq<char>>> {
    match listed {
        Ok(keys) => Ok(listed_lines(names, texts_of(keys@), engine, path)),
        Err(error) => Err(seq!["Client Error: "@ + error.text()]),
    }
}

fn is_among(name: &str, keys: &Vec<String>) -> (found: bool)
    ensures
        found == texts_of(keys@).contains(name@),
{
    let wanted = chars_of(name);
    let mut i: usize = 0;
    while i < keys.len()
        invariant
            i <= keys.len(),
            wanted@ == name@,
            forall|j: int| 0 <= j < i ==> texts_of(keys@)[j] != name@,
        decreases keys.len() - i,
    {
        if spells(keys[i].as_str(), &wanted) {
            assert(texts_of(keys@)[i as int] == name@);
            return true;
        }
        i += 1;
    }
    false
}

/// Says which of `k8s_secret_names` the store lists directly below `path`
/// of `engine`. `listed` is what the store answered when asked to list that
/// path.
pub fn verify_paths_exist(
    k8s_secret_names: &[String],
    engine: &str,
    path: &str,
    listed: &Result<Vec<String>, VaultClientError>,
) -> (checked: Result<Vec<String>, Vec<String>>)
    ensures
        lines_of(checked) == paths_verdict(texts_of(k8s_secret_names@), engine@, path@, *listed),
{
    match listed {
        Ok(keys) => {
            let ghost names = texts_of(k8s_secret_names@);
            let ghost pick = |name: Seq<char>|
                if texts_of(keys@).contains(name) {
                    Some(listed_line(name, engine@, path@))
                } else {
                    None
                };
            let mut verified_paths: Vec<String> = Vec::new();
            let mut i: usize = 0;
            assert(names.take(0) =~= Seq::<Seq<char>>::empty());
            assert(texts_of(verified_paths@) =~= names.take(0).filter_map(pick));
            while i < k8s_secret_names.len()
                invariant
                    i <= k8s_secret_names.len(),
                    names == texts_of(k8s_secret_names@),
                    pick == |name: Seq<char>|
                        if texts_of(keys@).contains(name) {
                            Some(listed_line(name, engine@, path@))
                        } else {
                            None
                        },
                    texts_of(verified_paths@) == names.take(i as int).filter_map(pick),
                decreases k8s_secret_names.len() - i,
            {
                let secret = k8s_secret_names[i].as_str();
                let ghost before = verified_paths@;
                proof {
                    assert(names.take(i + 1).drop_last() =~= names.take(i as int));
                    assert(names.take(i + 1).last() == secret@);
                }
                if is_among(secret, keys) {
                    let parts = vec!["Secret '", secret, "' maps to ", engine, ":", path, "/", secret];
                    proof {
                        assert(crate::text::pieces(parts@) =~= seq![
                            "Secret '"@,
                            secret@,
                            "' maps to "@,
                            engine@,
                            ":"@,
                            path@,
                            "/"@,
                            secret@,
                        ]);
                    }
                    let line = glue(parts);
                    verified_paths.push(line);
                    assert(texts_of(verified_paths@) =~= texts_of(before).push(line@));
                }
                i += 1;
            }
            assert(names.take(i as int) =~= names);
            Ok(verified_paths)
        },
        Err(e) => {
            let words = e.describe();
            let mut messages: Vec<String> = Vec::new();
            messages.push(followed_by("Client Error: ", words.as_str()));
            assert(texts_of(messages@) =~= seq!["Client Error: "@ + e.text()]);
            Err(messages)
        },
    }
}

/// Says which of the secrets that `corpus` refers to the store lists
/// directly below `path` of `engine`. `listed` is what the store answered
/// when asked to list that path.
pub fn verify_mapping(
    corpus: &Corpus,
    engine: &str,
    path: &str,
    listed: &Result<Vec<String>, VaultClientError>,
) -> (checked: Result<Vec<String>, Vec<String>>)
    ensures
        lines_of(checked) == paths_verdict(
            first_seen(secret_names_of(corpus.mappings())),
            engine@,
            path@,
            *listed,
        ),
{
    let secrets = referenced_k8s_secret_names(corpus);
    verify_paths_exist(secrets.as_slice(), engine, path, listed)
}

/// One thing to verify: that a secret which is referred to as a whole has
/// pairs in the store, or that the keys of a secret which are referred to
/// one by one are among its pairs. `place` is where the secret is mapped to,
/// if it is mapped.
pub enum Check {
    Whole { name: Seq<char>, place: Option<Location> },
    Keys { name: Seq<char>, keys: Seq<Seq<char>>, place: Option<Location> },
}

impl Check {
    /// Where the secret of this check is mapped to.
    pub open spec fn place(self) -> Option<Location> {
        match self {
            Check::Whole { place, .. } => place,
            Check::Keys { place, .. } => place,
        }
    }
}

/// Where the first of `mappings` for the Kubernetes secret `name` points.
pub open spec fn place_of(mappings: Seq<Assignment>, name: Seq<char>) -> Option<Location>
    decreases mappings.len(),
{
    if mappings.len() == 0 {
        None
    } else if mappings[0].kubernetes_name == name {
        Some(mappings[0].vault_path)
    } else {
        place_of(mappings.drop_first(), name)
    }
}

/// The checks for the secrets that are referred to as a whole.
pub open spec fn whole_checks(mappings: Seq<Assignment>, names: Seq<Seq<char>>) -> Seq<Check> {
    names.map_values(|name: Seq<char>| Check::Whole { name, place: place_of(mappings, name) })
}

/// The checks for the secrets that are referred to by key.
pub open spec fn key_checks(
    mappings: Seq<Assignment>,
    by_key: Seq<(Seq<char>, Seq<Seq<char>>)>,
) -> Seq<Check> {
    by_key.map_values(
        |group: (Seq<char>, Seq<Seq<char>>)|
            Check::Keys { name: group.0, keys: group.1, place: place_of(mappings, group.0) },
    )
}

/// Everything that is verified of the secrets that the given mappings of a
/// corpus refer to: first the secrets referred to as a whole, in document
/// order; then the secrets referred to by key, in the order in which they
/// are first referred to.
pub open spec fn checks_of(mappings: Seq<Assignment>, corpus: Corpus) -> Seq<Check> {
    whole_checks(mappings, secret_refs_of(corpus.mappings())) + key_checks(
        mappings,
        grouped(keys_by_secret(secret_key_refs_of(corpus.mappings()))),
    )
}

/// The places that have to be asked for `checks`: one for each check of a
/// mapped secret, in the order of the checks.
pub open spec fn asked(checks: Seq<Check>) -> Seq<Location> {
    checks.filter_map(|check: Check| check.place())
}

/// The complaint that the client could not ask.
pub open spec fn client_complaint(error: VaultClientError) -> Seq<char> {
    "Vault client error: "@ + error.text()
}

/// What is found for one key of a secret, given the pairs of the secret.
pub open spec fn key_findings(
    name: Seq<char>,
    key: Seq<char>,
    place: Location,
    pairs: Seq<(String, String)>,
) -> Findings {
    if value_of(pairs, key) is Some {
        Findings {
            verified: seq![
                glued(seq![name, ":"@, key, " maps to "@, place.engine, ":"@, place.path, "/"@, key]),
            ],
            messages: Seq::empty(),
        }
    } else {
        Findings {
            verified: Seq::empty(),
            messages: seq![
                glued(
                    seq![
                        "Key '"@,
                        key,
                        "' for secret '"@,
                        name,
                        "' not found in "@,
                        place.engine,
                        ":"@,
                        place.path,
                    ],
                ),
            ],
        }
    }
}

/// What is found for the first `count` of `keys`.
pub open spec fn keys_findings(
    name: Seq<char>,
    keys: Seq<Seq<char>>,
    count: nat,
    place: Location,
    pairs: Seq<(String, String)>,
) -> Findings
    decreases count,
{
    if count == 0 || count > keys.len() {
        Findings::none()
    } else {
        keys_findings(name, keys, (count - 1) as nat, place, pairs).and(
            key_findings(name, keys[count - 1], place, pairs),
        )
    }
}

/// What one check finds, given the answer of the store for its place.
///
/// A secret that is referred to as a whole and not mapped is passed over.
/// One that is referred to by key and not mapped is a complaint.
pub open spec fn judge(check: Check, answer: Answer) -> Findings {
    match check {
        Check::Whole { name, place: None } => Findings::none(),
        Check::Whole { name, place: Some(place) } => match answer {
            Ok(pairs) => if pairs@.len() == 0 {
                Findings {
                    verified: Seq::empty(),
                    messages: seq![
                        glued(
                            seq![
                                "No secrets for '"@,
                                name,
                                "' found at "@,
                                place.engine,
                                ":"@,
                                place.path,
                            ],
                        ),
                    ],
                }
            } else {
                Findings {
                    verified: seq![
                        glued(seq![name, " maps to "@, place.engine, ":"@, place.path]),
                    ],
                    messages: Seq::empty(),
                }
            },
            Err(error) => Findings {
                verified: Seq::empty(),
                messages: seq![client_complaint(error)],
            },
        },
        Check::Keys { name, keys, place: None } => Findings {
            verified: Seq::empty(),
            messages: seq!["Couldn't find a vault mapping for kubernetes secret "@ + name],
        },
        Check::Keys { name, keys, place: Some(place) } => match answer {
            Ok(pairs) => keys_findings(name, keys, keys.len(), place, pairs@),
            Err(error) => Findings {
                verified: Seq::empty(),
                messages: seq![client_complaint(error)],
            },
        },
    }
}

/// What the first `count` of `checks` find, given the answers of the store
/// for the places that have to be asked, in their order.
pub open spec fn judged(checks: Seq<Check>, count: nat, answers: Seq<Answer>) -> Findings
    decreases count,
{
    if count == 0 || count > checks.len() {
        Findings::none()
    } else {
        let before = asked(checks.take(count - 1)).len() as int;
        judged(checks, (count - 1) as nat, answers).and(
            judge(checks[count - 1], answers[before]),
        )
    }
}

/// The models of `paths`, one for one.
pub open spec fn locations_of(paths: Seq<VaultPath>) -> Seq<Location> {
    paths.map_values(|p: VaultPath| p@)
}

fn find_mapping<'a>(
    secret_mappings: &'a [SecretMapping],
    name: &str,
) -> (found: Option<&'a SecretMapping>)
    ensures
        match found {
            Some(m) => place_of(assignments_of(secret_mappings@), name@) == Some(m.vault_path@),
            None => place_of(assignments_of(secret_mappings@), name@) is None,
        },
{
    let ghost all = assignments_of(secret_mappings@);
    let wanted = chars_of(name);
    let mut i: usize = 0;
    assert(all.skip(0) =~= all);
    while i < secret_mappings.len()
        invariant
            i <= secret_mappings.len(),
            wanted@ == name@,
            all == assignments_of(secret_mappings@),
            place_of(all, name@) == place_of(all.skip(i as int), name@),
        decreases secret_mappings.len() - i,
    {
        proof {
            assert(all.skip(i as int).drop_first() =~= all.skip(i + 1));
            assert(all.skip(i as int)[0] == secret_mappings@[i as int]@);
        }
        if spells(secret_mappings[i].kubernetes_name.as_str(), &wanted) {
            return Some(&secret_mappings[i]);
        }
        i += 1;
    }
    None
}

proof fn lemma_asked_step(checks: Seq<Check>, count: int)
    requires
        0 <= count < checks.len(),
    ensures
        asked(checks.take(count + 1)) == match checks[count].place() {
            Some(place) => asked(checks.take(count)).push(place),
            None => asked(checks.take(count)),
        },
{
    assert(checks.take(count + 1).drop_last() =~= checks.take(count));
    assert(checks.take(count + 1).last() == checks[count]);
    match checks[count].place() {
        Some(place) => {
            assert(asked(checks.take(count)) + seq![place] =~= asked(checks.take(count)).push(
                place,
            ));
        },
        None => {},
    }
}

/// The places that the store has to be asked for, so that the secrets which
/// `corpus` refers to can be verified against `secret_mappings`: one for
/// each check of a mapped secret, in the order of the checks.
pub fn secret_requests(
    secret_mappings: &[SecretMapping],
    corpus: &Corpus,
) -> (requests: Vec<VaultPath>)
    ensures
        locations_of(requests@) == asked(checks_of(assignments_of(secret_mappings@), *corpus)),
{
    let env_secrets = grouped_secret_key_refs(corpus);
    let secret_refs = grouped_secret_refs(corpus);
    let ghost mappings = assignments_of(secret_mappings@);
    let ghost whole = whole_checks(mappings, texts_of(secret_refs@));
    let ghost by_key = key_checks(mappings, groups_model(env_secrets@, |key: String| key@));
    let ghost checks = whole + by_key;
    let mut requests: Vec<VaultPath> = Vec::new();
    let mut i: usize = 0;
    assert(checks.take(0) =~= Seq::<Check>::empty());
    assert(locations_of(requests@) =~= asked(checks.take(0)));
    while i < secret_refs.len()
        invariant
            i <= secret_refs.len(),
            mappings == assignments_of(secret_mappings@),
            whole == whole_checks(mappings, texts_of(secret_refs@)),
            checks == whole + by_key,
            locations_of(requests@) == asked(checks.take(i as int)),
        decreases secret_refs.len() - i,
    {
        let ghost before = requests@;
        proof {
            lemma_asked_step(checks, i as int);
            assert(checks[i as int] == whole[i as int]);
        }
        if let Some(m) = find_mapping(secret_mappings, secret_refs[i].as_str()) {
            let place = VaultPath {
                engine: m.vault_path.engine.clone(),
                path: m.vault_path.path.clone(),
            };
            requests.push(place);
            assert(locations_of(requests@) =~= locations_of(before).push(place@));
        }
        i += 1;
    }
    let mut j: usize = 0;
    while j < env_secrets.len()
        invariant
            j <= env_secrets.len(),
            mappings == assignments_of(secret_mappings@),
            whole.len() == secret_refs.len(),
            by_key == key_checks(mappings, groups_model(env_secrets@, |key: String| key@)),
            checks == whole + by_key,
            locations_of(requests@) == asked(checks.take(whole.len() + j)),
        decreases env_secrets.len() - j,
    {
        let ghost before = requests@;
        proof {
            lemma_asked_step(checks, whole.len() + j);
            assert(checks[whole.len() + j] == by_key[j as int]);
        }
        if let Some(m) = find_mapping(secret_mappings, env_secrets[j].name.as_str()) {
            let place = VaultPath {
                engine: m.vault_path.engine.clone(),
                path: m.vault_path.path.clone(),
            };
            requests.push(place);
            assert(locations_of(requests@) =~= locations_of(before).push(place@));
        }
        j += 1;
    }
    assert(checks.take(checks.len() as int) =~= checks);
    requests
}

proof fn lemma_pieces(parts: Seq<&str>, texts: Seq<Seq<char>>)
    requires
        parts.len() == texts.len(),
        forall|i: int| 0 <= i < parts.len() ==> (#[trigger] parts[i])@ == texts[i],
    ensures
        crate::text::pieces(parts) == texts,
{
    assert(crate::text::pieces(parts) =~= texts);
}

/// What the `index`-th key of a group finds.
fn judge_key(
    name: &str,
    key: &str,
    place: &VaultPath,
    pairs: &Vec<(String, String)>,
    verified: &mut Vec<String>,
    messages: &mut Vec<String>,
)
    ensures
        texts_of(final(verified)@) == texts_of(old(verified)@) + key_findings(
            name@,
            key@,
            place@,
            pairs@,
        ).verified,
        texts_of(final(messages)@) == texts_of(old(messages)@) + key_findings(
            name@,
            key@,
            place@,
            pairs@,
        ).messages,
{
    let engine = place.engine.as_str();
    let path = place.path.as_str();
    if lookup_value(pairs, key).is_some() {
        let parts = vec![name, ":", key, " maps to ", engine, ":", path, "/", key];
        proof {
            lemma_pieces(
                parts@,
                seq![name@, ":"@, key@, " maps to "@, engine@, ":"@, path@, "/"@, key@],
            );
        }
        let line = glue(parts);
        verified.push(line);
        assert(texts_of(verified@) =~= texts_of(old(verified)@) + seq![line@]);
        assert(texts_of(messages@) =~= texts_of(old(messages)@) + Seq::<Seq<char>>::empty());
    } else {
        let parts = vec![
            "Key '",
            key,
            "' for secret '",
            name,
            "' not found in ",
            engine,
            ":",
            path,
        ];
        proof {
            lemma_pieces(
                parts@,
                seq![
                    "Key '"@,
                    key@,
                    "' for secret '"@,
                    name@,
                    "' not found in "@,
                    engine@,
                    ":"@,
                    path@,
                ],
            );
        }
        let line = glue(parts);
        messages.push(line);
        assert(texts_of(messages@) =~= texts_of(old(messages)@) + seq![line@]);
        assert(texts_of(verified@) =~= texts_of(old(verified)@) + Seq::<Seq<char>>::empty());
    }
}

/// What the client's failure to ask adds to the complaints.
fn complain_of_client(error: &VaultClientError, messages: &mut Vec<String>)
    ensures
        texts_of(final(messages)@) == texts_of(old(messages)@) + seq![client_complaint(*error)],
{
    let words = error.describe();
    let line = followed_by("Vault client error: ", words.as_str());
    messages.push(line);
    assert(texts_of(messages@) =~= texts_of(old(messages)@) + seq![line@]);
}

/// What the check of a secret that is referred to as a whole finds.
fn judge_whole(
    name: &str,
    place: &VaultPath,
    answer: &Answer,
    verified: &mut Vec<String>,
    messages: &mut Vec<String>,
)
    ensures
        texts_of(final(verified)@) == texts_of(old(verified)@) + judge(
            Check::Whole { name: name@, place: Some(place@) },
            *answer,
        ).verified,
        texts_of(final(messages)@) == texts_of(old(messages)@) + judge(
            Check::Whole { name: name@, place: Some(place@) },
            *answer,
        ).messages,
{
    let engine = place.engine.as_str();
    let path = place.path.as_str();
    match answer {
        Ok(mapping) => {
            if mapping.len() == 0 {
                let parts = vec!["No secrets for '", name, "' found at ", engine, ":", path];
                proof {
                    lemma_pieces(
                        parts@,
                        seq!["No secrets for '"@, name@, "' found at "@, engine@, ":"@, path@],
                    );
                }
                let line = glue(parts);
                messages.push(line);
                assert(texts_of(messages@) =~= texts_of(old(messages)@) + seq![line@]);
                assert(texts_of(verified@) =~= texts_of(old(verified)@) + Seq::<
                    Seq<char>,
                >::empty());
            } else {
                let parts = vec![name, " maps to ", engine, ":", path];
                proof {
                    lemma_pieces(parts@, seq![name@, " maps to "@, engine@, ":"@, path@]);
                }
                let line = glue(parts);
                verified.push(line);
                assert(texts_of(verified@) =~= texts_of(old(verified)@) + seq![line@]);
                assert(texts_of(messages@) =~= texts_of(old(messages)@) + Seq::<
                    Seq<char>,
                >::empty());
            }
        },
        Err(e) => {
            complain_of_client(e, messages);
            assert(texts_of(verified@) =~= texts_of(old(verified)@) + Seq::<Seq<char>>::empty());
        },
    }
}

/// What the check of a secret that is referred to by key finds.
fn judge_keys(
    name: &str,
    keys: &Vec<String>,
    place: &VaultPath,
    answer: &Answer,
    verified: &mut Vec<String>,
    messages: &mut Vec<String>,
)
    ensures
        texts_of(final(verified)@) == texts_of(old(verified)@) + judge(
            Check::Keys { name: name@, keys: texts_of(keys@), place: Some(place@) },
            *answer,
        ).verified,
        texts_of(final(messages)@) == texts_of(old(messages)@) + judge(
            Check::Keys { name: name@, keys: texts_of(keys@), place: Some(place@) },
            *answer,
        ).messages,
{
    match answer {
        Ok(mapping) => {
            let ghost all = texts_of(keys@);
            let mut k: usize = 0;
            assert(texts_of(verified@) =~= texts_of(old(verified)@) + Seq::<Seq<char>>::empty());
            assert(texts_of(messages@) =~= texts_of(old(messages)@) + Seq::<Seq<char>>::empty());
            while k < keys.len()
                invariant
                    k <= keys.len(),
                    all == texts_of(keys@),
                    texts_of(verified@) == texts_of(old(verified)@) + keys_findings(
                        name@,
                        all,
                        k as nat,
                        place@,
                        mapping@,
                    ).verified,
                    texts_of(messages@) == texts_of(old(messages)@) + keys_findings(
                        name@,
                        all,
                        k as nat,
                        place@,
                        mapping@,
                    ).messages,
                decreases keys.len() - k,
            {
                let ghost found = keys_findings(name@, all, k as nat, place@, mapping@);
                let ghost one = key_findings(name@, all[k as int], place@, mapping@);
                judge_key(name, keys[k].as_str(), place, mapping, verified, messages);
                proof {
                    assert(texts_of(old(verified)@) + found.verified + one.verified =~= texts_of(
                        old(verified)@,
                    ) + (found.verified + one.verified));
                    assert(texts_of(old(messages)@) + found.messages + one.messages =~= texts_of(
                        old(messages)@,
                    ) + (found.messages + one.messages));
                }
                k += 1;
            }
        },
        Err(e) => {
            complain_of_client(e, messages);
            assert(texts_of(verified@) =~= texts_of(old(verified)@) + Seq::<Seq<char>>::empty());
        },
    }
}

/// Whether the store holds what `corpus` asks of the secrets that
/// `secret_mappings` map. `answers` are the answers of the store for the
/// places of [`secret_requests`], one for one.
///
/// A secret that is referred to as a whole must have at least one pair. Of
/// a secret that is referred to by key, each key must be among its pairs,
/// and the secret must be mapped. Where anything is amiss, all complaints
/// are returned, and else a line for everything that was verified.
pub fn verify_secrets_exist_in_vault(
    secret_mappings: &[SecretMapping],
    corpus: &Corpus,
    answers: &Vec<Answer>,
) -> (checked: Result<Vec<String>, Vec<String>>)
    requires
        answers@.len() == asked(checks_of(assignments_of(secret_mappings@), *corpus)).len(),
    ensures
        lines_of(checked) == judged(
            checks_of(assignments_of(secret_mappings@), *corpus),
            checks_of(assignments_of(secret_mappings@), *corpus).len(),
            answers@,
        ).verdict(),
{
    let env_secrets = grouped_secret_key_refs(corpus);
    let secret_refs = grouped_secret_refs(corpus);
    let ghost mappings = assignments_of(secret_mappings@);
    let ghost whole = whole_checks(mappings, texts_of(secret_refs@));
    let ghost by_key = key_checks(mappings, groups_model(env_secrets@, |key: String| key@));
    let ghost checks = whole + by_key;
    let mut messages: Vec<String> = Vec::new();
    let mut verified_paths: Vec<String> = Vec::new();
    let total = answers.len();
    let mut next: usize = 0;
    let mut i: usize = 0;
    assert(checks.take(0) =~= Seq::<Check>::empty());
    assert(texts_of(verified_paths@) =~= Seq::<Seq<char>>::empty());
    assert(texts_of(messages@) =~= Seq::<Seq<char>>::empty());
    while i < secret_refs.len()
        invariant
            i <= secret_refs.len(),
            mappings == assignments_of(secret_mappings@),
            whole == whole_checks(mappings, texts_of(secret_refs@)),
            checks == whole + by_key,
            total == answers@.len() == asked(checks).len(),
            next == asked(checks.take(i as int)).len(),
            texts_of(verified_paths@) == judged(checks, i as nat, answers@).verified,
            texts_of(messages@) == judged(checks, i as nat, answers@).messages,
        decreases secret_refs.len() - i,
    {
        let secret_name = secret_refs[i].as_str();
        let ghost found = judged(checks, i as nat, answers@);
        proof {
            lemma_asked_step(checks, i as int);
            lemma_asked_len(checks, i + 1);
            assert(checks[i as int] == whole[i as int]);
            assert(found.verified + Seq::<Seq<char>>::empty() =~= found.verified);
            assert(found.messages + Seq::<Seq<char>>::empty() =~= found.messages);
        }
        if let Some(m) = find_mapping(secret_mappings, secret_name) {
            judge_whole(
                secret_name,
                &m.vault_path,
                &answers[next],
                &mut verified_paths,
                &mut messages,
            );
            next += 1;
        }
        i += 1;
    }
    let mut j: usize = 0;
    while j < env_secrets.len()
        invariant
            j <= env_secrets.len(),
            mappings == assignments_of(secret_mappings@),
            whole.len() == secret_refs.len(),
            by_key == key_checks(mappings, groups_model(env_secrets@, |key: String| key@)),
            checks == whole + by_key,
            total == answers@.len() == asked(checks).len(),
            next == asked(checks.take(whole.len() + j)).len(),
            texts_of(verified_paths@) == judged(
                checks,
                (whole.len() + j) as nat,
                answers@,
            ).verified,
            texts_of(messages@) == judged(checks, (whole.len() + j) as nat, answers@).messages,
        decreases env_secrets.len() - j,
    {
        let group = &env_secrets[j];
        let secret_name = group.name.as_str();
        let ghost found = judged(checks, (whole.len() + j) as nat, answers@);
        let ghost before = messages@;
        proof {
            lemma_asked_step(checks, whole.len() + j);
            lemma_asked_len(checks, whole.len() + j + 1);
            assert(checks[whole.len() + j] == by_key[j as int]);
            assert(found.verified + Seq::<Seq<char>>::empty() =~= found.verified);
        }
        if let Some(m) = find_mapping(secret_mappings, secret_name) {
            judge_keys(
                secret_name,
                &group.members,
                &m.vault_path,
                &answers[next],
                &mut verified_paths,
                &mut messages,
            );
            next += 1;
        } else {
            let line = followed_by("Couldn't find a vault mapping for kubernetes secret ", secret_name);
            messages.push(line);
            assert(texts_of(messages@) =~= texts_of(before) + seq![line@]);
        }
        j += 1;
    }
    if messages.len() > 0 {
        Err(messages)
    } else {
        Ok(verified_paths)
    }
}

/// Verifies the secrets that `corpus` refers to against `secret_mappings`,
/// asking `client` for the secret at each place of [`secret_requests`], in
/// their order, and judging the answers as
/// [`verify_secrets_exist_in_vault`] does.
pub fn verify_secrets<F>(
    secret_mappings: &[SecretMapping],
    corpus: &Corpus,
    client: F,
) -> (checked: Result<Vec<String>, Vec<String>>) where F: Fn(&VaultPath) -> Answer
    requires
        forall|place: VaultPath| call_requires(client, (&place,)),
    ensures
        exists|requests: Seq<VaultPath>, answers: Seq<Answer>|
            locations_of(requests) == asked(checks_of(assignments_of(secret_mappings@), *corpus))
                && #[trigger] answered(client, requests, answers) && lines_of(checked) == judged(
                checks_of(assignments_of(secret_mappings@), *corpus),
                checks_of(assignments_of(secret_mappings@), *corpus).len(),
                answers,
            ).verdict(),
{
    let requests = secret_requests(secret_mappings, corpus);
    let answers = ask_each(&client, &requests);
    assert(locations_of(requests@).len() == requests@.len());
    let checked = verify_secrets_exist_in_vault(secret_mappings, corpus, &answers);
    assert(answered(client, requests@, answers@));
    checked
}

/// Says which of the secrets that `corpus` refers to the store lists
/// directly below `vault_path`, asking `client` once to list that path.
pub fn verify_secrets_in_path<F>(
    vault_path: &VaultPath,
    corpus: &Corpus,
    client: F,
) -> (checked: Result<Vec<String>, Vec<String>>) where F: Fn(&VaultPath) -> Result<Vec<String>, VaultClientError>
    requires
        call_requires(client, (vault_path,)),
    ensures
        exists|listed: Result<Vec<String>, VaultClientError>| #[trigger]
            call_ensures(client, (vault_path,), listed) && lines_of(checked) == paths_verdict(
                first_seen(secret_names_of(corpus.mappings())),
                vault_path.engine@,
                vault_path.path@,
                listed,
            ),
{
    let listed = client(vault_path);
    verify_mapping(corpus, vault_path.engine.as_str(), vault_path.path.as_str(), &listed)
}

proof fn lemma_asked_len(checks: Seq<Check>, count: int)
    requires
        0 <= count <= checks.len(),
    ensures
        asked(checks.take(count)).len() <= asked(checks).len(),
    decreases checks.len() - count,
{
    if count < checks.len() {
        lemma_asked_step(checks, count);
        lemma_asked_len(checks, count + 1);
    } else {
        assert(checks.take(count) =~= checks);
    }
}

} // verus!
