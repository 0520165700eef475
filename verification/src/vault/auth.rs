//! How the client proves who it is: with a token it was given, or with one
//! that it obtains by logging in.

use vstd::prelude::*;
use crate::vault::api::AuthInfo;
use crate::vault::error::VaultClientError;

verus! {

/// A point in time: the seconds since the start of 1970 in UTC, leap seconds
/// not counted, and the nanoseconds since that second began.
#[derive(Debug, Clone, Copy, PartialEq, Eq, Structural)]
pub struct Instant {
    pub seconds: i64,
    pub nanos: u32,
}

impl Instant {
    /// This instant lies before `other`.
    pub open spec fn spec_before(self, other: Instant) -> bool {
        self.seconds < other.seconds || (self.seconds == other.seconds && self.nanos
            < other.nanos)
    }

    /// Whether this instant lies before `other`.
    pub fn before(&self, other: &Instant) -> (earlier: bool)
        ensures
            earlier == self.spec_before(*other),
    {
        self.seconds < other.seconds || (self.seconds == other.seconds && self.nanos
            < other.nanos)
    }
}

/// The system clock, read by `std::time::SystemTime::now` and turned into a
/// `chrono::DateTime<Utc>` by chrono's `From<SystemTime>`, as seconds and
/// nanoseconds since the start of 1970. The conversion also takes a clock
/// that stands before 1970; it gives up only on a time outside the years
/// that chrono can name, some 262,000 either side of 1970. The clock decides
/// what comes back; the contract
/// states only what holds of every reading: its nanoseconds stay below a
/// full second.
#[verifier::external_body]
fn now_utc() -> (now: Instant)
    ensures
        now.nanos < 1_000_000_000,
{
    let now = chrono::DateTime::<chrono::Utc>::from(std::time::SystemTime::now());
    Instant { seconds: now.timestamp(), nanos: now.timestamp_subsec_nanos() }
}

/// When a lease of `lease_duration` seconds that starts at `now` ends.
/// A lease without a duration, or with one that is not positive, does not
/// end; nor does one that would end beyond the last second that can be
/// counted.
pub open spec fn lease_end(now: Instant, lease_duration: Option<i64>) -> Option<Instant> {
    match lease_duration {
        Some(d) if d > 0 && now.seconds + d <= i64::MAX => Some(
            Instant { seconds: (now.seconds + d) as i64, nanos: now.nanos },
        ),
        _ => None,
    }
}

/// A client token, and when it runs out.
#[derive(Debug)]
pub struct Credentials {
    pub expires: Option<Instant>,
    pub client_token: String,
}

impl Credentials {
    /// The credentials that the store granted at `now` by `auth_info`.
    pub fn granted_at(auth_info: AuthInfo, now: Instant) -> (creds: Credentials)
        ensures
            creds.expires == lease_end(now, auth_info.lease_duration),
            creds.client_token == auth_info.client_token,
    {
        let expires = match auth_info.lease_duration {
            Some(d) if d > 0 => match now.seconds.checked_add(d) {
                Some(seconds) => Some(Instant { seconds, nanos: now.nanos }),
                None => None,
            },
            _ => None,
        };
        Credentials { expires, client_token: auth_info.client_token }
    }

    /// The credentials that the store has just granted by `auth_info`: the
    /// lease starts when this is called.
    pub fn from_auth_info(auth_info: AuthInfo) -> (creds: Credentials)
        ensures
            creds.client_token == auth_info.client_token,
            exists|now: Instant|
                now.nanos < 1_000_000_000 && creds.expires == #[trigger] lease_end(
                    now,
                    auth_info.lease_duration,
                ),
    {
        Credentials::granted_at(auth_info, now_utc())
    }
}

/// What is sent to log in.
#[derive(Debug)]
pub enum LoginPayload {
    GitHub(GitHubToken),
    AppRole(AppRoleToken),
}

/// The way in which the client authenticates.
pub enum BackendType {
    /// A client token, obtained by other means. It cannot be renewed.
    ClientToken(String),
    /// A GitHub token, to log in with.
    GitHub(String),
    /// A role and its secret, to log in with.
    AppRole { role_id: String, secret_id: String },
}

/// What is sent to log in with a GitHub token.
#[derive(Debug)]
pub struct GitHubToken {
    pub token: String,
}

impl GitHubToken {
    /// The payload that carries `token`.
    pub fn new(token: String) -> (payload: GitHubToken)
        ensures
            payload.token == token,
    {
        GitHubToken { token }
    }
}

/// What is sent to log in with an app role.
#[derive(Debug)]
pub struct AppRoleToken {
    pub role_id: String,
    pub secret_id: String,
}

impl AppRoleToken {
    /// The payload that carries a role and its secret.
    pub fn new(role_id: String, secret_id: String) -> (payload: AppRoleToken)
        ensures
            payload.role_id == role_id,
            payload.secret_id == secret_id,
    {
        AppRoleToken { role_id, secret_id }
    }
}

impl BackendType {
    /// The path of the login endpoint; empty where there is nothing to log
    /// in to.
    pub open spec fn spec_login_url(&self) -> Seq<char> {
        match self {
            BackendType::ClientToken(_) => ""@,
            BackendType::GitHub(_) => "/v1/auth/github/login"@,
            BackendType::AppRole { .. } => "/v1/auth/approle/login"@,
        }
    }

    /// The path of the endpoint at which this backend logs in.
    pub fn login_url(&self) -> (url: &str)
        ensures
            url@ == self.spec_login_url(),
    {
        match self {
            BackendType::ClientToken(_) => "",
            BackendType::GitHub(_) => "/v1/auth/github/login",
            BackendType::AppRole { .. } => "/v1/auth/approle/login",
        }
    }

    /// `payload` is what this backend sends to log in: its GitHub token, or
    /// its role and secret. A backend that holds a client token has nothing
    /// to send, and says so.
    pub open spec fn sends(self, payload: Result<LoginPayload, VaultClientError>) -> bool {
        match self {
            BackendType::ClientToken(_) => payload matches Err(
                VaultClientError::InvalidPayload(cause),
            ) && cause@ == "Can't log in with a client token"@,
            BackendType::GitHub(token) => payload matches Ok(LoginPayload::GitHub(sent))
                && sent.token@ == token@,
            BackendType::AppRole { role_id, secret_id } => payload matches Ok(
                LoginPayload::AppRole(sent),
            ) && sent.role_id@ == role_id@ && sent.secret_id@ == secret_id@,
        }
    }

    /// What this backend sends to log in.
    pub fn login_payload(&self) -> (payload: Result<LoginPayload, VaultClientError>)
        ensures
            self.sends(payload),
    {
        match self {
            BackendType::ClientToken(_) => Err(
                VaultClientError::InvalidPayload("Can't log in with a client token".to_owned()),
            ),
            BackendType::GitHub(t) => Ok(LoginPayload::GitHub(GitHubToken::new(t.clone()))),
            BackendType::AppRole { role_id, secret_id } => Ok(
                LoginPayload::AppRole(AppRoleToken::new(role_id.clone(), secret_id.clone())),
            ),
        }
    }

    /// Whether the token of this backend runs out: one that was obtained by
    /// logging in does, one that was given does not.
    pub fn can_expire(&self) -> (expires: bool)
        ensures
            expires == !(self is ClientToken),
    {
        match self {
            BackendType::ClientToken(_) => false,
            BackendType::GitHub(_) => true,
            BackendType::AppRole { .. } => true,
        }
    }
}

/// A way to authenticate, and the credentials that it has obtained so far.
pub struct Backend {
    ty: BackendType,
    creds: Option<Credentials>,
}

impl Backend {
    /// The way in which this backend authenticates.
    pub closed spec fn ty(self) -> BackendType {
        self.ty
    }

    /// The credentials that this backend holds.
    pub closed spec fn creds(self) -> Option<Credentials> {
        self.creds
    }

    /// The backend holds no credentials, or credentials that can run out
    /// and have run out before `now`. Credentials that can run out and do
    /// not say when count as run out.
    pub open spec fn spec_expired_at(self, now: Instant) -> bool {
        match self.creds() {
            None => true,
            Some(creds) => !(self.ty() is ClientToken) && match creds.expires {
                Some(end) => end.spec_before(now),
                None => true,
            },
        }
    }

    /// The way to authenticate that is taken where several are on offer: a
    /// client token before a GitHub token, a GitHub token before an app
    /// role. An app role needs both its role and its secret.
    pub open spec fn chosen(
        client_token: Option<String>,
        github_token: Option<String>,
        role_id: Option<String>,
        secret_id: Option<String>,
    ) -> Option<BackendType> {
        match (client_token, github_token, role_id, secret_id) {
            (Some(token), _, _, _) => Some(BackendType::ClientToken(token)),
            (None, Some(token), _, _) => Some(BackendType::GitHub(token)),
            (None, None, Some(role_id), Some(secret_id)) => Some(
                BackendType::AppRole { role_id, secret_id },
            ),
            _ => None,
        }
    }

    /// The backend for the tokens that are on offer, without credentials;
    /// `None` where none is on offer that suffices.
    pub fn from_tokens(
        client_token: Option<String>,
        github_token: Option<String>,
        role_id: Option<String>,
        secret_id: Option<String>,
    ) -> (backend: Option<Backend>)
        ensures
            match backend {
                Some(b) => Backend::chosen(client_token, github_token, role_id, secret_id) == Some(
                    b.ty(),
                ) && b.creds() is None,
                None => Backend::chosen(client_token, github_token, role_id, secret_id) is None,
            },
    {
        if let Some(token) = client_token {
            Some(Backend::new_from_client_token(token))
        } else if let Some(token) = github_token {
            Some(Backend::new_from_github_token(token))
        } else {
            match (role_id, secret_id) {
                (Some(role_id), Some(secret_id)) => Some(
                    Backend::new_from_app_role(role_id, secret_id),
                ),
                _ => None,
            }
        }
    }

    /// A backend that sends the client token `token` and never logs in.
    pub fn new_from_client_token(token: String) -> (backend: Backend)
        ensures
            backend.ty() == BackendType::ClientToken(token),
            backend.creds() is None,
    {
        Backend { ty: BackendType::ClientToken(token), creds: None }
    }

    /// A backend that logs in with the GitHub token `token`.
    pub fn new_from_github_token(token: String) -> (backend: Backend)
        ensures
            backend.ty() == BackendType::GitHub(token),
            backend.creds() is None,
    {
        Backend { ty: BackendType::GitHub(token), creds: None }
    }

    /// A backend that logs in with a role and its secret.
    pub fn new_from_app_role(role_id: String, secret_id: String) -> (backend: Backend)
        ensures
            backend.ty() == (BackendType::AppRole { role_id, secret_id }),
            backend.creds() is None,
    {
        Backend { ty: BackendType::AppRole { role_id, secret_id }, creds: None }
    }

    /// The path of the endpoint at which this backend logs in.
    pub fn login_url(&self) -> (url: &str)
        ensures
            url@ == self.ty().spec_login_url(),
    {
        self.ty.login_url()
    }

    /// What this backend sends to log in.
    pub fn login_payload(&self) -> (payload: Result<LoginPayload, VaultClientError>)
        ensures
            self.ty().sends(payload),
    {
        self.ty.login_payload()
    }

    /// Whether the token of this backend runs out.
    pub fn can_expire(&self) -> (expires: bool)
        ensures
            expires == !(self.ty() is ClientToken),
    {
        self.ty.can_expire()
    }

    /// Takes `creds` as the credentials of this backend.
    pub fn set_credentials(&mut self, creds: Credentials)
        ensures
            final(self).ty() == old(self).ty(),
            final(self).creds() == Some(creds),
    {
        self.creds = Some(creds);
    }

    /// When the credentials of this backend run out.
    pub fn expires(&self) -> (end: Option<Instant>)
        ensures
            end == match self.creds() {
                Some(creds) => creds.expires,
                None => None,
            },
    {
        match &self.creds {
            Some(c) => c.expires,
            None => None,
        }
    }

    /// The client token that this backend holds.
    pub fn client_token(&self) -> (token: Option<&str>)
        ensures
            match token {
                Some(t) => self.creds() matches Some(creds) && creds.client_token@ == t@,
                None => self.creds() is None,
            },
    {
        match &self.creds {
            Some(c) => Some(c.client_token.as_str()),
            None => None,
        }
    }

    /// Whether this backend holds credentials.
    pub fn has_credentials(&self) -> (held: bool)
        ensures
            held == (self.creds() is Some),
    {
        self.client_token().is_some()
    }

    /// Whether this backend has to log in before it can ask at `now`.
    pub fn expired_at(&self, now: &Instant) -> (expired: bool)
        ensures
            expired == self.spec_expired_at(*now),
    {
        if !self.has_credentials() {
            return true;
        }
        self.can_expire() && match self.expires() {
            Some(e) => e.before(now),
            None => true,
        }
    }

    /// Whether this backend has to log in before it can ask now. Without
    /// credentials it has to; with a client token that was given it never
    /// has to; otherwise the clock decides.
    pub fn is_expired(&self) -> (expired: bool)
        ensures
            self.creds() is None ==> expired,
            self.creds() is Some && self.ty() is ClientToken ==> !expired,
            exists|now: Instant|
                now.nanos < 1_000_000_000 && expired == #[trigger] self.spec_expired_at(now),
    {
        let now = now_utc();
        self.expired_at(&now)
    }
}

} // verus!
