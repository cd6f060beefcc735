//! The web client's sign-in decisions: which token is the API bearer,
//! whether single sign-on is on offer, the authorization redirect, the
//! callback checks, the token-request bodies and the refresh timing.

use vstd::prelude::*;
use crate::encoding::{form_body, form_encode, form_pairs, uri_component, uri_escaped};
use crate::text::{owned, push_str, str_eq, string_clone, trim_chars, trimmed};

verus! {

/// Which token the client presents as the API bearer.
#[derive(Clone, Copy, Debug, PartialEq, Eq, Structural)]
pub enum ApiBearer {
    /// The OAuth access token (the default).
    AccessToken,
    /// The OIDC id token.
    IdToken,
}

impl Default for ApiBearer {
    fn default() -> (b: ApiBearer)
        ensures
            b == ApiBearer::AccessToken,
    {
        ApiBearer::AccessToken
    }
}

/// The deployment's sign-in configuration.
pub struct AuthConfig {
    /// The issuer, or `None` for a password-only deployment.
    pub issuer: Option<String>,
    /// The public OAuth client id of the web client.
    pub client_id: String,
    /// The issuer's authorization endpoint, when there is an issuer.
    pub authorization_endpoint: Option<String>,
    /// Which token is the API bearer.
    pub api_bearer: ApiBearer,
    /// Whether password sign-in exists.
    pub local_auth: bool,
}

impl AuthConfig {
    /// Whether an SSO redirect can actually be performed: it needs both an
    /// issuer and an authorization endpoint.
    pub fn can_sso(&self) -> (r: bool)
        ensures
            r == (self.issuer is Some && self.authorization_endpoint is Some),
    {
        self.issuer.is_some() && self.authorization_endpoint.is_some()
    }
}

/// A successful token response. The expiry is in whole milliseconds.
pub struct TokenResponse {
    pub access_token: String,
    pub id_token: Option<String>,
    pub refresh_token: Option<String>,
    pub expires_in_ms: Option<u64>,
}

/// The bearer a token response yields for a selection: the id token when
/// selected and present, the access token otherwise.
pub open spec fn bearer_spec(t: TokenResponse, kind: ApiBearer) -> Seq<char> {
    match kind {
        ApiBearer::IdToken => match t.id_token {
            Some(id) => id@,
            None => t.access_token@,
        },
        ApiBearer::AccessToken => t.access_token@,
    }
}

impl TokenResponse {
    /// The token to present as the API bearer for the given selection,
    /// falling back to the access token when no id token came back.
    pub fn bearer_for(&self, kind: ApiBearer) -> (r: String)
        ensures
            r@ == bearer_spec(*self, kind),
    {
        match kind {
            ApiBearer::IdToken => match &self.id_token {
                Some(id) => string_clone(id),
                None => string_clone(&self.access_token),
            },
            ApiBearer::AccessToken => string_clone(&self.access_token),
        }
    }
}

/// The in-memory session.
pub struct Session {
    /// Bearer for API calls.
    pub access_token: String,
    /// Present when the issuer granted offline access.
    pub refresh_token: Option<String>,
}

/// How long before expiry the silent refresh runs (milliseconds).
pub const REFRESH_MARGIN_MS: u64 = 60_000;

/// The shortest refresh delay (milliseconds).
pub const MIN_REFRESH_DELAY_MS: u64 = 5_000;

/// The refresh delay for a token living `expires_in_ms`: a minute before
/// expiry, never sooner than five seconds from now.
pub open spec fn refresh_delay_spec(expires_in_ms: u64) -> u64 {
    if expires_in_ms >= 65_000 {
        (expires_in_ms - 60_000) as u64
    } else {
        5_000
    }
}

/// The session a token response installs, and when to refresh it: only
/// with a refresh token and a known expiry.
pub fn install_plan(tokens: &TokenResponse, api_bearer: ApiBearer) -> (r: (Session, Option<u64>))
    ensures
        r.0.access_token@ == bearer_spec(*tokens, api_bearer),
        crate::board_rules::opt_view(r.0.refresh_token) == crate::board_rules::opt_view(
            tokens.refresh_token,
        ),
        r.1 == match (tokens.refresh_token, tokens.expires_in_ms) {
            (Some(_), Some(e)) => Some(refresh_delay_spec(e)),
            _ => None,
        },
{
    let refresh_token = match &tokens.refresh_token {
        Some(t) => Some(string_clone(t)),
        None => None,
    };
    let delay = match (&tokens.refresh_token, tokens.expires_in_ms) {
        (Some(_), Some(e)) => Some(
            if e >= 65_000 {
                e - REFRESH_MARGIN_MS
            } else {
                MIN_REFRESH_DELAY_MS
            },
        ),
        _ => None,
    };
    (Session { access_token: tokens.bearer_for(api_bearer), refresh_token }, delay)
}

/// The scopes the web client asks for.
pub open spec fn scopes() -> Seq<char> {
    "openid profile email offline_access"@
}

/// The authorization redirect URL (PKCE, S256).
pub open spec fn authorize_url_spec(
    endpoint: Seq<char>,
    client_id: Seq<char>,
    redirect_uri: Seq<char>,
    state: Seq<char>,
    challenge: Seq<char>,
) -> Seq<char> {
    endpoint + "?response_type=code&client_id="@ + uri_escaped(client_id) + "&redirect_uri="@
        + uri_escaped(redirect_uri) + "&scope="@ + uri_escaped(scopes()) + "&state="@ + uri_escaped(
        state,
    ) + "&code_challenge="@ + uri_escaped(challenge) + "&code_challenge_method=S256"@
}

/// What a sign-in start refuses on a deployment without an identity
/// provider.
pub open spec fn no_idp_message() -> Seq<char> {
    "this deployment has no identity provider configured; sign in with your email and password instead"@
}

/// The callback address for the page's origin.
pub open spec fn redirect_uri_spec(origin: Seq<char>) -> Seq<char> {
    origin + "/callback"@
}

/// The callback address for `origin`.
pub fn redirect_uri(origin: &str) -> (r: String)
    ensures
        r@ == redirect_uri_spec(origin@),
{
    let mut r = owned(origin);
    push_str(&mut r, "/callback");
    r
}

/// The redirect that starts a sign-in from `origin` with the PKCE `state`
/// and `challenge`, or the refusal when the deployment has no
/// authorization endpoint.
pub fn authorize_redirect(config: &AuthConfig, origin: &str, state: &str, challenge: &str) -> (r:
    Result<String, String>)
    ensures
        match config.authorization_endpoint {
            Some(endpoint) => r matches Ok(url) && url@ == authorize_url_spec(
                endpoint@,
                config.client_id@,
                redirect_uri_spec(origin@),
                state@,
                challenge@,
            ),
            None => r matches Err(m) && m@ == no_idp_message(),
        },
{
    let endpoint = match &config.authorization_endpoint {
        Some(e) => e,
        None => {
            return Err(
                owned(
                    "this deployment has no identity provider configured; sign in with your email and password instead",
                ),
            );
        },
    };
    let redirect = redirect_uri(origin);
    let mut url = string_clone(endpoint);
    push_str(&mut url, "?response_type=code&client_id=");
    push_str(&mut url, uri_component(config.client_id.as_str()).as_str());
    push_str(&mut url, "&redirect_uri=");
    push_str(&mut url, uri_component(redirect.as_str()).as_str());
    push_str(&mut url, "&scope=");
    let scope = uri_component("openid profile email offline_access");
    push_str(&mut url, scope.as_str());
    push_str(&mut url, "&state=");
    push_str(&mut url, uri_component(state).as_str());
    push_str(&mut url, "&code_challenge=");
    push_str(&mut url, uri_component(challenge).as_str());
    push_str(&mut url, "&code_challenge_method=S256");
    Ok(url)
}

/// What the callback page read: the query parameters and the values the
/// sign-in start stashed.
pub struct CallbackInput {
    pub error: Option<String>,
    pub error_description: Option<String>,
    pub code: Option<String>,
    pub state: Option<String>,
    pub verifier: Option<String>,
    pub expected_state: Option<String>,
}

/// The text of an optional value (empty when absent).
pub open spec fn or_empty(o: Option<String>) -> Seq<char> {
    match o {
        Some(s) => s@,
        None => Seq::empty(),
    }
}

/// What the callback yields: the code and verifier to exchange, or why the
/// sign-in stops. Checks run in order: an issuer error, a missing code, a
/// missing state, a missing verifier, a missing stashed state, a state
/// mismatch.
pub open spec fn callback_spec(c: CallbackInput) -> Result<(Seq<char>, Seq<char>), Seq<char>> {
    if c.error is Some {
        Err(
            trimmed(
                "the issuer rejected the login: "@ + or_empty(c.error) + " "@ + or_empty(
                    c.error_description,
                ),
            ),
        )
    } else if c.code is None {
        Err("callback is missing ?code"@)
    } else if c.state is None {
        Err("callback is missing ?state"@)
    } else if c.verifier is None {
        Err("no PKCE verifier in this session (login did not start here)"@)
    } else if c.expected_state is None {
        Err("no login state in this session"@)
    } else if or_empty(c.state) != or_empty(c.expected_state) {
        Err("state mismatch \u{2014} possible CSRF, login aborted"@)
    } else {
        Ok((or_empty(c.code), or_empty(c.verifier)))
    }
}

/// A sign-in callback goes on to the code exchange only when the issuer
/// reported no error and the returned `state` is present and equal to the
/// one this session started the login with; what is exchanged is then the
/// callback's code with this session's verifier.
pub proof fn law_callback_needs_matching_state(c: CallbackInput)
    ensures
        callback_spec(c) is Ok ==> {
            &&& c.error is None
            &&& c.state is Some && c.expected_state is Some
            &&& c.state.unwrap()@ == c.expected_state.unwrap()@
            &&& c.code is Some && c.verifier is Some
            &&& callback_spec(c) == Ok::<(Seq<char>, Seq<char>), Seq<char>>(
                (c.code.unwrap()@, c.verifier.unwrap()@),
            )
        },
{
}

/// Check the sign-in callback.
pub fn check_callback(c: &CallbackInput) -> (r: Result<(String, String), String>)
    ensures
        match r {
            Ok(p) => callback_spec(*c) == Ok::<(Seq<char>, Seq<char>), Seq<char>>((p.0@, p.1@)),
            Err(m) => callback_spec(*c) == Err::<(Seq<char>, Seq<char>), Seq<char>>(m@),
        },
{
    if let Some(error) = &c.error {
        let mut m = owned("the issuer rejected the login: ");
        push_str(&mut m, error.as_str());
        push_str(&mut m, " ");
        match &c.error_description {
            Some(d) => push_str(&mut m, d.as_str()),
            None => {},
        }
        let cs = crate::text::chars_of(m.as_str());
        let t = trim_chars(&cs);
        return Err(crate::text::string_from_chars(&t));
    }
    let code = match &c.code {
        Some(code) => code,
        None => {
            return Err(owned("callback is missing ?code"));
        },
    };
    let state = match &c.state {
        Some(s) => s,
        None => {
            return Err(owned("callback is missing ?state"));
        },
    };
    let verifier = match &c.verifier {
        Some(v) => v,
        None => {
            return Err(owned("no PKCE verifier in this session (login did not start here)"));
        },
    };
    let expected = match &c.expected_state {
        Some(s) => s,
        None => {
            return Err(owned("no login state in this session"));
        },
    };
    if !str_eq(state.as_str(), expected.as_str()) {
        return Err(owned("state mismatch \u{2014} possible CSRF, login aborted"));
    }
    Ok((string_clone(code), string_clone(verifier)))
}

/// The token-request body that exchanges an authorization code.
pub fn code_exchange_body(code: &str, redirect_uri: &str, client_id: &str, verifier: &str) -> (r:
    String)
    ensures
        r@ == form_body(
            seq![
                ("grant_type"@, "authorization_code"@),
                ("code"@, code@),
                ("redirect_uri"@, redirect_uri@),
                ("client_id"@, client_id@),
                ("code_verifier"@, verifier@),
            ],
        ),
{
    let pairs = [
        ("grant_type", "authorization_code"),
        ("code", code),
        ("redirect_uri", redirect_uri),
        ("client_id", client_id),
        ("code_verifier", verifier),
    ];
    let r = form_encode(&pairs);
    assert(form_pairs(pairs@) =~= seq![
        ("grant_type"@, "authorization_code"@),
        ("code"@, code@),
        ("redirect_uri"@, redirect_uri@),
        ("client_id"@, client_id@),
        ("code_verifier"@, verifier@),
    ]);
    r
}

/// The token-request body of a silent refresh.
pub fn refresh_body(refresh_token: &str, client_id: &str) -> (r: String)
    ensures
        r@ == form_body(
            seq![
                ("grant_type"@, "refresh_token"@),
                ("refresh_token"@, refresh_token@),
                ("client_id"@, client_id@),
            ],
        ),
{
    let pairs = [
        ("grant_type", "refresh_token"),
        ("refresh_token", refresh_token),
        ("client_id", client_id),
    ];
    let r = form_encode(&pairs);
    assert(form_pairs(pairs@) =~= seq![
        ("grant_type"@, "refresh_token"@),
        ("refresh_token"@, refresh_token@),
        ("client_id"@, client_id@),
    ]);
    r
}

} // verus!
