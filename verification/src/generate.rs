//! What goes into the manifest of a Kubernetes secret that is filled from
//! the store.

use vstd::prelude::*;
use vstd::utf8::encode_utf8;
use crate::text::{followed_by, starts_with_char};

verus! {

/// The text in which `base64` writes `bytes` in its standard alphabet, with
/// padding.
pub uninterp spec fn base64_text(bytes: Seq<u8>) -> Seq<char>;

/// `base64::encode` of the bytes of `value`. The contract gives the result
/// its name and says nothing else: the same bytes are always written alike.
#[verifier::external_body]
fn base64_encode(value: &str) -> (encoded: String)
    ensures
        encoded@ == base64_text(encode_utf8(value@)),
{
    base64::encode(value)
}

/// What the manifest of one secret is rendered from.
#[derive(Debug)]
pub struct SecretsTemplate {
    pub secret_name: String,
    pub namespace: String,
    pub vault_addr: String,
    pub vault_engine: String,
    pub vault_path: String,
    pub encoded_data: Vec<(String, String)>,
}

/// `pair` with its value written in base64.
pub open spec fn encoded_pair(pair: (String, String)) -> (Seq<char>, Seq<char>) {
    (pair.0@, base64_text(encode_utf8(pair.1@)))
}

/// The texts of `pairs`, one for one.
pub open spec fn pair_texts(pairs: Seq<(String, String)>) -> Seq<(Seq<char>, Seq<char>)> {
    pairs.map_values(|pair: (String, String)| (pair.0@, pair.1@))
}

impl SecretsTemplate {
    /// What the manifest of the secret `secret_name` in `namespace` is
    /// rendered from: where its pairs come from, and the pairs themselves,
    /// each value written in base64, in the order of `data`.
    pub fn new(
        vault_addr: &str,
        secret_name: &str,
        namespace: &str,
        vault_engine: &str,
        vault_path: &str,
        data: Vec<(String, String)>,
    ) -> (template: SecretsTemplate)
        ensures
            template.vault_addr@ == vault_addr@,
            template.secret_name@ == secret_name@,
            template.namespace@ == namespace@,
            template.vault_engine@ == vault_engine@,
            template.vault_path@ == vault_path@,
            pair_texts(template.encoded_data@) == data@.map_values(
                |pair: (String, String)| encoded_pair(pair),
            ),
    {
        let mut encoded_data: Vec<(String, String)> = Vec::new();
        for pair in it: data
            invariant
                it.seq() == data@,
                pair_texts(encoded_data@) == data@.take(it.index() as int).map_values(
                    |pair: (String, String)| encoded_pair(pair),
                ),
        {
            let ghost before = encoded_data@;
            let (k, v) = pair;
            let encoded = base64_encode(v.as_str());
            encoded_data.push((k, encoded));
            assert(pair_texts(encoded_data@) =~= pair_texts(before).push(encoded_pair(pair)));
            assert(data@.take(it.index() + 1).map_values(
                |pair: (String, String)| encoded_pair(pair),
            ) =~= data@.take(it.index() as int).map_values(
                |pair: (String, String)| encoded_pair(pair),
            ).push(encoded_pair(pair)));
        }
        assert(data@.take(data@.len() as int) =~= data@);
        SecretsTemplate {
            vault_addr: vault_addr.to_owned(),
            secret_name: secret_name.to_owned(),
            namespace: namespace.to_owned(),
            vault_engine: vault_engine.to_owned(),
            vault_path: vault_path.to_owned(),
            encoded_data,
        }
    }
}

/// `s`, with a separator put in front where it starts with none.
pub fn with_leading_slash(s: &str) -> (rooted: String)
    ensures
        rooted@ == (if s@.len() > 0 && s@[0] == '/' {
            s@
        } else {
            seq!['/'] + s@
        }),
{
    if starts_with_char(s, '/') {
        s.to_owned()
    } else {
        proof {
            reveal_strlit("/");
            assert("/"@ =~= seq!['/']);
        }
        followed_by("/", s)
    }
}

} // verus!
