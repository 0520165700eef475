//! The addresses that the client asks.

use std::borrow::Cow;
use vstd::prelude::*;
use crate::text::{chars_of, glue, glued, pieces, starts_with_char};
use crate::vault::auth::Backend;
use crate::vault::error::VaultClientError;

verus! {

/// `text` without the separators that it starts with.
pub open spec fn stripped(text: Seq<char>) -> Seq<char>
    decreases text.len(),
{
    if text.len() > 0 && text[0] == '/' {
        stripped(text.drop_first())
    } else {
        text
    }
}

/// `p` without the separators that it starts with. Where it starts with none,
/// `p` itself is handed back.
pub fn strip_leading_slash<'a>(p: &'a str) -> (bare: Cow<'a, str>)
    ensures
        bare@ == stripped(p@),
        bare is Borrowed <==> !(p@.len() > 0 && p@[0] == '/'),
{
    if starts_with_char(p, '/') {
        let chars = chars_of(p);
        let mut at: usize = 0;
        assert(chars@.skip(0) =~= chars@);
        while at < chars.len() && chars[at] == '/'
            invariant
                at <= chars.len(),
                stripped(chars@) == stripped(chars@.skip(at as int)),
            decreases chars.len() - at,
        {
            proof {
                assert(chars@.skip(at as int).drop_first() =~= chars@.skip(at + 1));
            }
            at += 1;
        }
        let rest = p.substring_char(at, chars.len());
        assert(rest@ =~= chars@.skip(at as int));
        Cow::Owned(rest.to_owned())
    } else {
        Cow::Borrowed(p)
    }
}

/// An address as the `url` crate holds it.
#[verifier::external_type_specification]
#[verifier::external_body]
pub struct ExUrl(url::Url);

/// The error with which the `url` crate rejects an address.
#[verifier::external_type_specification]
#[verifier::external_body]
pub struct ExUrlError(url::ParseError);

/// The text of an address: what `url::Url::as_str` returns for it.
pub uninterp spec fn url_text(url: url::Url) -> Seq<char>;

/// The text of the address that `reference` names when it is read against
/// the address with the text `base`, as `url::Url::join` resolves it; `None`
/// where it names none.
pub uninterp spec fn joined_url(base: Seq<char>, reference: Seq<char>) -> Option<Seq<char>>;

/// `url::Url::join`. The contract gives the outcome its name and says
/// nothing else: the same base and reference always resolve alike.
#[verifier::external_body]
fn url_join(base: &url::Url, reference: &str) -> (joined: Result<url::Url, url::ParseError>)
    ensures
        match joined {
            Ok(url) => joined_url(url_text(*base), reference@) == Some(url_text(url)),
            Err(_) => joined_url(url_text(*base), reference@) is None,
        },
{
    base.join(reference)
}

/// `url::Url::as_str`: the text of the address.
#[verifier::external_body]
fn url_as_str(url: &url::Url) -> (text: &str)
    ensures
        text@ == url_text(*url),
{
    url.as_str()
}

/// The `Display` text of a `url::ParseError`. Nothing is claimed of it.
#[verifier::external_body]
fn url_error_text(error: &url::ParseError) -> String {
    error.to_string()
}

/// The text of the address of what the engine `engine` keeps of `kind`
/// (`data` or `metadata`) at `path`, below the address with the text `base`:
/// `path`, without the separators it starts with, read against
/// `/v1/<engine>/<kind>/`, read against `base`.
pub open spec fn endpoint(
    base: Seq<char>,
    engine: Seq<char>,
    kind: Seq<char>,
    path: Seq<char>,
) -> Option<Seq<char>> {
    match joined_url(base, glued(seq!["/v1/"@, engine, "/"@, kind, "/"@])) {
        Some(at_engine) => joined_url(at_engine, stripped(path)),
        None => None,
    }
}

/// The text of `url`.
pub fn address_text(url: &url::Url) -> (text: &str)
    ensures
        text@ == url_text(*url),
{
    url_as_str(url)
}

/// `reference` read against `base`.
pub fn resolve(base: &url::Url, reference: &str) -> (resolved: Result<url::Url, VaultClientError>)
    ensures
        match resolved {
            Ok(url) => joined_url(url_text(*base), reference@) == Some(url_text(url)),
            Err(error) => error is InvalidUrl && joined_url(url_text(*base), reference@) is None,
        },
{
    match url_join(base, reference) {
        Ok(url) => Ok(url),
        Err(error) => Err(VaultClientError::from_url_error(url_error_text(&error))),
    }
}

fn endpoint_url(
    vault_addr: &url::Url,
    engine: &str,
    kind: &str,
    path: &str,
) -> (address: Result<url::Url, VaultClientError>)
    ensures
        match address {
            Ok(url) => endpoint(url_text(*vault_addr), engine@, kind@, path@) == Some(
                url_text(url),
            ),
            Err(error) => error is InvalidUrl && endpoint(
                url_text(*vault_addr),
                engine@,
                kind@,
                path@,
            ) is None,
        },
{
    let parts = vec!["/v1/", engine, "/", kind, "/"];
    assert(pieces(parts@) =~= seq!["/v1/"@, engine@, "/"@, kind@, "/"@]);
    let engine_path = glue(parts);
    let secret_path = strip_leading_slash(path);
    let at_engine = resolve(vault_addr, engine_path.as_str())?;
    match &secret_path {
        Cow::Borrowed(bare) => resolve(&at_engine, bare),
        Cow::Owned(bare) => resolve(&at_engine, bare.as_str()),
    }
}

/// The address of the secret that the engine `engine` keeps at `path`.
pub fn kv_secret_url(
    vault_addr: &url::Url,
    engine: &str,
    path: &str,
) -> (address: Result<url::Url, VaultClientError>)
    ensures
        match address {
            Ok(url) => endpoint(url_text(*vault_addr), engine@, "data"@, path@) == Some(
                url_text(url),
            ),
            Err(error) => error is InvalidUrl && endpoint(
                url_text(*vault_addr),
                engine@,
                "data"@,
                path@,
            ) is None,
        },
{
    endpoint_url(vault_addr, engine, "data", path)
}

/// The address at which the engine `engine` lists what it keeps below
/// `path`.
pub fn kv_keys_url(
    vault_addr: &url::Url,
    engine: &str,
    path: &str,
) -> (address: Result<url::Url, VaultClientError>)
    ensures
        match address {
            Ok(url) => endpoint(url_text(*vault_addr), engine@, "metadata"@, path@) == Some(
                url_text(url),
            ),
            Err(error) => error is InvalidUrl && endpoint(
                url_text(*vault_addr),
                engine@,
                "metadata"@,
                path@,
            ) is None,
        },
{
    endpoint_url(vault_addr, engine, "metadata", path)
}

/// The address at which `backend` logs in.
pub fn login_address(
    vault_addr: &url::Url,
    backend: &Backend,
) -> (address: Result<url::Url, VaultClientError>)
    ensures
        match address {
            Ok(url) => joined_url(url_text(*vault_addr), backend.ty().spec_login_url()) == Some(
                url_text(url),
            ),
            Err(error) => error is InvalidUrl && joined_url(
                url_text(*vault_addr),
                backend.ty().spec_login_url(),
            ) is None,
        },
{
    resolve(vault_addr, backend.login_url())
}

} // verus!
