//! The workforce's password-grant token supply: when a cached token is
//! still good, how a grant response becomes a token, and the grant form.

use vstd::prelude::*;
use crate::text::{owned, push_decimal, push_str, string_clone};

verus! {

/// Refresh when the cached token is within this margin of expiry (ms).
pub const REFRESH_MARGIN_MS: u64 = 300_000;

/// The lifetime assumed when the issuer states none (seconds).
pub const DEFAULT_EXPIRES_IN_SECS: u64 = 3600;

/// The cached access token and its expiry (milliseconds on the caller's
/// monotonic clock).
pub struct TokenCache {
    pub cached: Option<(String, u64)>,
}

/// Is a token expiring at `expires_at` still good at `now`: more than the
/// refresh margin away from expiry?
pub open spec fn still_good(now: u64, expires_at: u64) -> bool {
    now + 300_000 < expires_at
}

/// When a freshly granted token expires: `expires_in` seconds (an hour
/// when unstated) after `now`, saturating at the clock's range.
pub open spec fn expiry_spec(now: u64, expires_in: Option<u64>) -> u64 {
    let secs = match expires_in {
        Some(s) => s,
        None => 3600,
    };
    if now + secs * 1000 > u64::MAX {
        u64::MAX
    } else {
        (now + secs * 1000) as u64
    }
}

impl TokenCache {
    /// Nothing cached yet.
    pub fn new() -> (c: TokenCache)
        ensures
            c.cached is None,
    {
        TokenCache { cached: None }
    }

    /// The cached token, if it is still good at `now`.
    pub fn fresh(&self, now: u64) -> (r: Option<String>)
        ensures
            match self.cached {
                Some((t, exp)) => if still_good(now, exp) {
                    r matches Some(s) && s@ == t@
                } else {
                    r is None
                },
                None => r is None,
            },
    {
        match &self.cached {
            Some((t, exp)) => {
                if *exp > now && *exp - now > REFRESH_MARGIN_MS {
                    Some(string_clone(t))
                } else {
                    None
                }
            },
            None => None,
        }
    }

    /// Cache a freshly granted token.
    pub fn store(&mut self, token: &str, now: u64, expires_in: Option<u64>)
        ensures
            final(self).cached matches Some((t, exp)) && t@ == token@ && exp == expiry_spec(
                now,
                expires_in,
            ),
    {
        let secs = match expires_in {
            Some(s) => s,
            None => DEFAULT_EXPIRES_IN_SECS,
        };
        let exp = if secs > (u64::MAX - now) / 1000 {
            u64::MAX
        } else {
            now + secs * 1000
        };
        proof {
            if secs > (u64::MAX - now) / 1000 {
                assert(secs * 1000 >= ((u64::MAX - now) / 1000 + 1) * 1000) by (nonlinear_arith)
                    requires
                        secs >= (u64::MAX - now) / 1000 + 1,
                ;
                assert(((u64::MAX - now) / 1000 + 1) * 1000 > u64::MAX - now) by (nonlinear_arith);
            } else {
                assert(secs * 1000 <= ((u64::MAX - now) / 1000) * 1000) by (nonlinear_arith)
                    requires
                        secs <= (u64::MAX - now) / 1000,
                ;
                assert(((u64::MAX - now) / 1000) * 1000 <= u64::MAX - now) by (nonlinear_arith);
            }
        }
        self.cached = Some((owned(token), exp));
    }
}

/// A token stored at `now` with a lifetime of `secs` seconds is served
/// from the cache while less than `secs` seconds minus the five-minute
/// margin have passed, and fetched anew from then on; an issuer that
/// states no lifetime is taken to grant an hour.
pub proof fn law_cached_token_served_until_margin(now: u64, later: u64, secs: u64)
    requires
        now <= later,
        now + secs * 1000 <= u64::MAX,
    ensures
        still_good(later, expiry_spec(now, Some(secs))) == ((later - now) + 300_000 < secs * 1000),
        expiry_spec(now, None) == expiry_spec(now, Some(3600)),
{
}

/// What the issuer answered a password grant.
pub struct GrantResponse {
    /// The status was a success.
    pub success: bool,
    /// The status as text (`200 OK`).
    pub status: String,
    /// The body as JSON text.
    pub body: String,
    /// The body's `access_token`, when it is a string.
    pub access_token: Option<String>,
    /// The body's `expires_in`, when it is an unsigned integer.
    pub expires_in: Option<u64>,
}

/// The token a grant yields, or why it failed.
pub open spec fn grant_spec(username: Seq<char>, g: GrantResponse) -> Result<Seq<char>, Seq<char>> {
    if !g.success {
        Err("password grant for "@ + username + " failed: HTTP "@ + g.status@ + " "@ + g.body@)
    } else {
        match g.access_token {
            Some(t) => Ok(t@),
            None => Err("no access_token for "@ + username + ": "@ + g.body@),
        }
    }
}

/// The token a password-grant response yields for `username`.
pub fn grant_token(username: &str, g: &GrantResponse) -> (r: Result<String, String>)
    ensures
        match r {
            Ok(t) => grant_spec(username@, *g) == Ok::<Seq<char>, Seq<char>>(t@),
            Err(m) => grant_spec(username@, *g) == Err::<Seq<char>, Seq<char>>(m@),
        },
{
    if !g.success {
        let mut m = owned("password grant for ");
        push_str(&mut m, username);
        push_str(&mut m, " failed: HTTP ");
        push_str(&mut m, g.status.as_str());
        push_str(&mut m, " ");
        push_str(&mut m, g.body.as_str());
        return Err(m);
    }
    match &g.access_token {
        Some(t) => Ok(string_clone(t)),
        None => {
            let mut m = owned("no access_token for ");
            push_str(&mut m, username);
            push_str(&mut m, ": ");
            push_str(&mut m, g.body.as_str());
            Err(m)
        },
    }
}

/// The password-grant form fields, in order.
pub fn grant_form(username: &str, password: &str, client_id: &str) -> (r: Vec<(String, String)>)
    ensures
        crate::world::sections_view(r@) == seq![
            ("grant_type"@, "password"@),
            ("username"@, username@),
            ("password"@, password@),
            ("scope"@, "openid email profile"@),
            ("client_id"@, client_id@),
        ],
{
    let mut r: Vec<(String, String)> = Vec::new();
    r.push((owned("grant_type"), owned("password")));
    r.push((owned("username"), owned(username)));
    r.push((owned("password"), owned(password)));
    r.push((owned("scope"), owned("openid email profile")));
    r.push((owned("client_id"), owned(client_id)));
    assert(crate::world::sections_view(r@) =~= seq![
        ("grant_type"@, "password"@),
        ("username"@, username@),
        ("password"@, password@),
        ("scope"@, "openid email profile"@),
        ("client_id"@, client_id@),
    ]);
    r
}

/// The issuer's token endpoint.
pub fn token_endpoint(issuer: &str) -> (r: String)
    ensures
        r@ == issuer@ + "/token"@,
{
    let mut r = owned(issuer);
    push_str(&mut r, "/token");
    r
}

} // verus!
