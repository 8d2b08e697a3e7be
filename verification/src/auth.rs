//! Single-user authentication of the HTTP API: token, cookie and bind policy.
use sha2::Digest;
use vstd::prelude::*;

use crate::text::{
    before_first, before_first_chars, before_last, before_last_chars, chars_of, copy_range,
    extend_chars, lit_eq, lit_prefix, lower, lower_seq, skip_chars, split_chars, split_on,
    starts_with, starts_with_chars, string_of, trim, trim_chars, views,
};

verus! {

/// The cookie that carries the API token.
pub const COOKIE_NAME: &'static str = "zedazo_auth";

#[derive(Debug, Clone, PartialEq, Eq)]
pub enum AuthMode {
    Disabled,
    Token(String),
}

#[derive(Debug, Clone, PartialEq, Eq)]
pub struct AuthConfig {
    pub mode: AuthMode,
    pub cookie_secure: bool,
}

/// The body of a login request.
#[derive(Debug, Clone)]
pub struct LoginBody {
    pub token: String,
}

/// Why the authentication settings were refused.
#[derive(Debug, Clone, PartialEq, Eq)]
pub enum AuthConfigError {
    /// Token mode without a non-empty token.
    EmptyToken,
    /// A mode other than `disabled` or `token` (lowercased).
    UnknownMode(String),
}

/// A boolean setting: `Some(true)` for 1/true/yes, `Some(false)` for 0/false/no (any ASCII
/// case), otherwise `None`.
pub open spec fn spec_parse_flag(v: Seq<char>) -> Option<bool> {
    let l = lower_seq(v);
    if l == "1"@ || l == "true"@ || l == "yes"@ {
        Some(true)
    } else if l == "0"@ || l == "false"@ || l == "no"@ {
        Some(false)
    } else {
        None
    }
}

pub fn parse_flag(v: &str) -> (r: Option<bool>)
    ensures
        r == spec_parse_flag(v@),
{
    let c = chars_of(v);
    let l = lower(&c);
    if lit_eq(&l, "1") || lit_eq(&l, "true") || lit_eq(&l, "yes") {
        Some(true)
    } else if lit_eq(&l, "0") || lit_eq(&l, "false") || lit_eq(&l, "no") {
        Some(false)
    } else {
        None
    }
}

/// Authentication settings from the values of `ZEDAZO_AUTH_MODE` (default `disabled`),
/// `ZEDAZO_AUTH_COOKIE_SECURE` (default true) and `ZEDAZO_AUTH_TOKEN`.
pub open spec fn spec_auth_from_values(
    mode: Option<Seq<char>>,
    cookie_secure: Option<Seq<char>>,
    token: Option<Seq<char>>,
) -> Result<(bool, Option<Seq<char>>), Option<Seq<char>>> {
    let m = match mode {
        Some(m) => lower_seq(m),
        None => "disabled"@,
    };
    let secure = match cookie_secure {
        Some(v) => match spec_parse_flag(v) {
            Some(b) => b,
            None => true,
        },
        None => true,
    };
    if m == "disabled"@ {
        Ok((false, None))
    } else if m == "token"@ {
        match token {
            Some(t) => if t.len() > 0 {
                Ok((secure, Some(t)))
            } else {
                Err(None)
            },
            None => Err(None),
        }
    } else {
        Err(Some(m))
    }
}

/// A plain view of an authentication setting: the cookie flag and the token, if any.
pub open spec fn auth_view(a: AuthConfig) -> (bool, Option<Seq<char>>) {
    (
        a.cookie_secure,
        match a.mode {
            AuthMode::Disabled => None,
            AuthMode::Token(t) => Some(t@),
        },
    )
}

impl AuthConfig {
    pub fn disabled() -> (r: Self)
        ensures
            r.mode == AuthMode::Disabled,
            !r.cookie_secure,
    {
        AuthConfig { mode: AuthMode::Disabled, cookie_secure: false }
    }

    pub fn token(token: String, cookie_secure: bool) -> (r: Self)
        ensures
            r.mode == AuthMode::Token(token),
            r.cookie_secure == cookie_secure,
    {
        AuthConfig { mode: AuthMode::Token(token), cookie_secure }
    }

    /// The settings that the three environment values describe; `Err(EmptyToken)` for
    /// token mode without a token, `Err(UnknownMode(m))` for any other mode `m`.
    pub fn from_values(mode: Option<&str>, cookie_secure: Option<&str>, token: Option<&str>) -> (r:
        Result<Self, AuthConfigError>)
        ensures
            ({
                let s = spec_auth_from_values(
                    match mode {
                        Some(m) => Some(m@),
                        None => None,
                    },
                    match cookie_secure {
                        Some(v) => Some(v@),
                        None => None,
                    },
                    match token {
                        Some(t) => Some(t@),
                        None => None,
                    },
                );
                match s {
                    Ok(v) => r matches Ok(a) && auth_view(a) == v,
                    Err(None) => r == Err::<Self, AuthConfigError>(AuthConfigError::EmptyToken),
                    Err(Some(m)) => r matches Err(AuthConfigError::UnknownMode(x)) && x@ == m,
                }
            }),
    {
        proof {
            reveal_strlit("disabled");
            reveal_strlit("token");
        }
        let m = match mode {
            Some(m) => {
                let c = chars_of(m);
                lower(&c)
            },
            None => chars_of("disabled"),
        };
        let secure = match cookie_secure {
            Some(v) => match parse_flag(v) {
                Some(b) => b,
                None => true,
            },
            None => true,
        };
        if lit_eq(&m, "disabled") {
            Ok(AuthConfig { mode: AuthMode::Disabled, cookie_secure: false })
        } else if lit_eq(&m, "token") {
            match token {
                Some(t) => {
                    if t.is_empty() {
                        Err(AuthConfigError::EmptyToken)
                    } else {
                        Ok(AuthConfig { mode: AuthMode::Token(String::from_str(t)), cookie_secure: secure })
                    }
                },
                None => Err(AuthConfigError::EmptyToken),
            }
        } else {
            Err(AuthConfigError::UnknownMode(string_of(&m)))
        }
    }

    /// The expected token in token mode.
    pub fn expected_token(&self) -> (r: Option<&str>)
        ensures
            match self.mode {
                AuthMode::Disabled => r is None,
                AuthMode::Token(t) => r matches Some(x) && x@ == t@,
            },
    {
        match &self.mode {
            AuthMode::Disabled => None,
            AuthMode::Token(t) => Some(t.as_str()),
        }
    }
}

/// The host part of a `host:port` bind address is a loopback name.
pub open spec fn spec_bind_is_loopback(b: Seq<char>) -> bool {
    if b.len() > 0 && b[0] == '[' && before_first(b.drop_first(), ']') is Some {
        let h = before_first(b.drop_first(), ']')->0;
        h == "::1"@ || h == "0:0:0:0:0:0:0:1"@
    } else {
        let host = match before_last(b, ':') {
            Some(h) => h,
            None => b,
        };
        host == "127.0.0.1"@ || host == "localhost"@ || host == "::1"@
    }
}

/// `127.0.0.1:8080`, `localhost:8080` and `[::1]:8080` are loopback binds.
pub fn bind_is_loopback(bind: &str) -> (b: bool)
    ensures
        b == spec_bind_is_loopback(bind@),
{
    let c = chars_of(bind);
    if c.len() > 0 && c[0] == '[' {
        let rest = skip_chars(&c, 1);
        assert(rest@ =~= c@.drop_first());
        if let Some(h) = before_first_chars(&rest, ']') {
            return lit_eq(&h, "::1") || lit_eq(&h, "0:0:0:0:0:0:0:1");
        }
    }
    let host = match before_last_chars(&c, ':') {
        Some(h) => h,
        None => c,
    };
    lit_eq(&host, "127.0.0.1") || lit_eq(&host, "localhost") || lit_eq(&host, "::1")
}

/// Disabled authentication is only allowed on a loopback bind, unless overridden.
pub open spec fn spec_bind_auth_allowed(bind: Seq<char>, disabled: bool, allow_override: bool) -> bool {
    !disabled || spec_bind_is_loopback(bind) || allow_override
}

/// Fail-closed check of the bind address against the authentication mode;
/// `allow_override` is the truth of `ZEDAZO_AUTH_ALLOW_DISABLED_NON_LOOPBACK`.
pub fn bind_auth_allowed(bind: &str, auth: &AuthConfig, allow_override: bool) -> (b: bool)
    ensures
        b == spec_bind_auth_allowed(bind@, auth.mode == AuthMode::Disabled, allow_override),
{
    match &auth.mode {
        AuthMode::Disabled => bind_is_loopback(bind) || allow_override,
        AuthMode::Token(_) => true,
    }
}


/// The SHA-256 digest of a byte string.
pub uninterp spec fn sha256(data: Seq<u8>) -> Seq<u8>;

/// Calls `sha2::Sha256::digest`: the SHA-256 digest of `data`, 32 bytes long.
#[verifier::external_body]
pub(crate) fn sha256_digest(data: &[u8]) -> (r: Vec<u8>)
    ensures
        r@ == sha256(data@),
        r@.len() == 32,
{
    sha2::Sha256::digest(data).to_vec()
}

proof fn lemma_or_xor_zero(acc: u8, x: u8, y: u8)
    ensures
        ((acc | (x ^ y)) == 0u8) == (acc == 0u8 && x == y),
{
    assert(((acc | (x ^ y)) == 0u8) == (acc == 0u8 && x == y)) by (bit_vector);
}

/// Compares two tokens through their SHA-256 digests, in time independent of where they
/// differ: true exactly when the digests are equal.
pub fn tokens_equal(a: &str, b: &str) -> (r: bool)
    ensures
        r == (sha256(vstd::utf8::encode_utf8(a@)) == sha256(vstd::utf8::encode_utf8(b@))),
{
    let ha = sha256_digest(a.as_bytes());
    let hb = sha256_digest(b.as_bytes());
    let mut acc: u8 = 0;
    let mut i: usize = 0;
    while i < 32
        invariant
            ha@.len() == 32,
            hb@.len() == 32,
            i <= 32,
            (acc == 0) == (forall|k: int| 0 <= k < i ==> ha@[k] == hb@[k]),
        decreases 32 - i,
    {
        proof {
            lemma_or_xor_zero(acc, ha@[i as int], hb@[i as int]);
        }
        acc = acc | (ha[i] ^ hb[i]);
        i += 1;
    }
    if acc == 0 {
        assert(ha@ =~= hb@);
    }
    acc == 0
}

/// The value of the first `name=` pair among `;`-separated cookie parts.
pub open spec fn first_cookie(parts: Seq<Seq<char>>, name_eq: Seq<char>) -> Option<Seq<char>>
    decreases parts.len(),
{
    if parts.len() == 0 {
        None
    } else {
        let t = trim(parts[0]);
        if starts_with(t, name_eq) {
            Some(t.skip(name_eq.len() as int))
        } else {
            first_cookie(parts.drop_first(), name_eq)
        }
    }
}

pub open spec fn spec_cookie_value(cookie: Seq<char>, name: Seq<char>) -> Option<Seq<char>> {
    first_cookie(split_on(cookie, ';'), name + "="@)
}

/// The value of cookie `name` in a `Cookie` header value.
pub fn cookie_value(cookie: &str, name: &str) -> (r: Option<String>)
    ensures
        match spec_cookie_value(cookie@, name@) {
            None => r is None,
            Some(v) => r matches Some(x) && x@ == v,
        },
{
    let c = chars_of(cookie);
    let parts = split_chars(&c, ';');
    let mut pfx = chars_of(name);
    pfx.push('=');
    proof {
        reveal_strlit("=");
    }
    assert(pfx@ =~= name@ + "="@);
    let ghost ps = split_on(cookie@, ';');
    let mut k: usize = 0;
    assert(ps.skip(0) =~= ps);
    while k < parts.len()
        invariant
            k <= parts@.len(),
            views(parts@) == ps,
            ps == split_on(cookie@, ';'),
            pfx@ == name@ + "="@,
            first_cookie(ps, pfx@) == first_cookie(ps.skip(k as int), pfx@),
        decreases parts.len() - k,
    {
        assert(ps.skip(k as int)[0] == parts@[k as int]@);
        assert(ps.skip(k as int).drop_first() =~= ps.skip(k + 1));
        let t = trim_chars(&parts[k]);
        assert(t@ == trim(ps.skip(k as int)[0]));
        if starts_with_chars(&t, &pfx) {
            let v = skip_chars(&t, pfx.len());
            assert(first_cookie(ps.skip(k as int), pfx@) == Some(t@.skip(pfx@.len() as int)));
            let out = string_of(&v);
            assert(out@ == v@);
            return Some(out);
        }
        k += 1;
    }
    None
}

/// A bearer token after `Bearer ` or `bearer `.
pub open spec fn bearer_of(a: Seq<char>) -> Option<Seq<char>> {
    if starts_with(a, "Bearer "@) {
        Some(a.skip(7))
    } else if starts_with(a, "bearer "@) {
        Some(a.skip(7))
    } else {
        None
    }
}

/// The credential of a request: a non-blank bearer token (trimmed) in `Authorization`,
/// else the value of the auth cookie.
pub open spec fn spec_extract_credential(
    authorization: Option<Seq<char>>,
    cookie: Option<Seq<char>>,
) -> Option<Seq<char>> {
    let from_bearer = match authorization {
        Some(a) => match bearer_of(a) {
            Some(t) => if trim(t).len() > 0 {
                Some(trim(t))
            } else {
                None
            },
            None => None,
        },
        None => None,
    };
    match from_bearer {
        Some(t) => Some(t),
        None => match cookie {
            Some(c) => spec_cookie_value(c, COOKIE_NAME@),
            None => None,
        },
    }
}

pub open spec fn opt_view(o: Option<&str>) -> Option<Seq<char>> {
    match o {
        Some(s) => Some(s@),
        None => None,
    }
}

/// The credential of a request from its `Authorization` and `Cookie` header values.
pub fn extract_credential(authorization: Option<&str>, cookie: Option<&str>) -> (r: Option<String>)
    ensures
        match spec_extract_credential(opt_view(authorization), opt_view(cookie)) {
            None => r is None,
            Some(v) => r matches Some(x) && x@ == v,
        },
{
    proof {
        reveal_strlit("Bearer ");
        reveal_strlit("bearer ");
    }
    if let Some(a) = authorization {
        let c = chars_of(a);
        let bearer = if lit_prefix(&c, "Bearer ") || lit_prefix(&c, "bearer ") {
            Some(skip_chars(&c, 7))
        } else {
            None
        };
        if let Some(t) = bearer {
            let tt = trim_chars(&t);
            if tt.len() > 0 {
                return Some(string_of(&tt));
            }
        }
    }
    match cookie {
        Some(c) => cookie_value(c, COOKIE_NAME),
        None => None,
    }
}

/// The request is authorised: always when authentication is disabled, otherwise when its
/// credential matches the expected token.
pub open spec fn spec_request_authorized(
    authorization: Option<Seq<char>>,
    cookie: Option<Seq<char>>,
    mode: AuthMode,
) -> bool {
    match mode {
        AuthMode::Disabled => true,
        AuthMode::Token(expected) => match spec_extract_credential(authorization, cookie) {
            Some(c) => sha256(vstd::utf8::encode_utf8(c)) == sha256(vstd::utf8::encode_utf8(expected@)),
            None => false,
        },
    }
}

pub fn request_authorized(authorization: Option<&str>, cookie: Option<&str>, auth: &AuthConfig) -> (r:
    bool)
    ensures
        r == spec_request_authorized(opt_view(authorization), opt_view(cookie), auth.mode),
{
    match &auth.mode {
        AuthMode::Disabled => true,
        AuthMode::Token(expected) => match extract_credential(authorization, cookie) {
            Some(c) => tokens_equal(c.as_str(), expected.as_str()),
            None => false,
        },
    }
}


/// The `Set-Cookie` value for the auth cookie: HttpOnly, SameSite=Strict, path `/`,
/// `Secure` when asked, and `Max-Age=0` to clear it.
pub open spec fn spec_set_cookie(value: Seq<char>, secure: bool, clear: bool) -> Seq<char> {
    COOKIE_NAME@ + "="@ + value + "; Path=/; HttpOnly; SameSite=Strict"@ + (if secure {
        "; Secure"@
    } else {
        Seq::<char>::empty()
    }) + (if clear {
        "; Max-Age=0"@
    } else {
        Seq::<char>::empty()
    })
}

fn push_lit(out: &mut Vec<char>, lit: &str)
    ensures
        final(out)@ == old(out)@ + lit@,
{
    let l = chars_of(lit);
    extend_chars(out, &l);
}

pub fn set_cookie_header(value: &str, secure: bool, clear: bool) -> (r: String)
    ensures
        r@ == spec_set_cookie(value@, secure, clear),
{
    let mut out: Vec<char> = Vec::new();
    push_lit(&mut out, COOKIE_NAME);
    push_lit(&mut out, "=");
    push_lit(&mut out, value);
    push_lit(&mut out, "; Path=/; HttpOnly; SameSite=Strict");
    if secure {
        push_lit(&mut out, "; Secure");
    }
    if clear {
        push_lit(&mut out, "; Max-Age=0");
    }
    assert(out@ =~= spec_set_cookie(value@, secure, clear));
    string_of(&out)
}

/// A byte that `http::HeaderValue` accepts: visible ASCII, tab, or any byte >= 0x80
/// (so every non-ASCII character).
pub open spec fn header_char_ok(c: char) -> bool {
    (c >= ' ' && c != '\u{7f}') || c == '\t'
}

/// `http::HeaderValue::from_str` accepts the text.
pub open spec fn header_value_ok(s: Seq<char>) -> bool {
    forall|i: int| 0 <= i < s.len() ==> header_char_ok(#[trigger] s[i])
}

pub fn header_value_valid(s: &[char]) -> (b: bool)
    ensures
        b == header_value_ok(s@),
{
    let mut i: usize = 0;
    while i < s.len()
        invariant
            i <= s@.len(),
            forall|k: int| 0 <= k < i ==> header_char_ok(#[trigger] s@[k]),
        decreases s.len() - i,
    {
        let c = s[i];
        if !((c >= ' ' && c != '\u{7f}') || c == '\t') {
            return false;
        }
        i += 1;
    }
    true
}

/// What a login request gets.
#[derive(Debug, Clone, PartialEq, Eq)]
pub enum LoginOutcome {
    /// 503: authentication is disabled.
    AuthDisabled,
    /// 401: the token does not match.
    InvalidToken,
    /// 204, with the `Set-Cookie` value when it is a valid header value.
    Accepted { set_cookie: Option<String> },
}

/// The answer to a login with `token`.
pub fn login_outcome(auth: &AuthConfig, token: &str) -> (r: LoginOutcome)
    ensures
        match auth.mode {
            AuthMode::Disabled => r == LoginOutcome::AuthDisabled,
            AuthMode::Token(e) => if sha256(vstd::utf8::encode_utf8(token@)) != sha256(vstd::utf8::encode_utf8(e@)) {
                r == LoginOutcome::InvalidToken
            } else {
                let v = spec_set_cookie(token@, auth.cookie_secure, false);
                r matches LoginOutcome::Accepted { set_cookie } && (if header_value_ok(v) {
                    set_cookie matches Some(sc) && sc@ == v
                } else {
                    set_cookie is None
                })
            },
        },
{
    let expected = match auth.expected_token() {
        Some(e) => e,
        None => {
            return LoginOutcome::AuthDisabled;
        },
    };
    if !tokens_equal(token, expected) {
        return LoginOutcome::InvalidToken;
    }
    let v = set_cookie_header(token, auth.cookie_secure, false);
    let vc = chars_of(v.as_str());
    if header_value_valid(&vc) {
        LoginOutcome::Accepted { set_cookie: Some(v) }
    } else {
        LoginOutcome::Accepted { set_cookie: None }
    }
}

/// The `Set-Cookie` value that clears the auth cookie.
pub fn logout_cookie(auth: &AuthConfig) -> (r: String)
    ensures
        r@ == spec_set_cookie(Seq::<char>::empty(), auth.cookie_secure, true),
{
    proof {
        reveal_strlit("");
    }
    assert(""@ =~= Seq::<char>::empty());
    set_cookie_header("", auth.cookie_secure, true)
}

/// The CORS policy of the API.
#[derive(Debug, Clone, PartialEq, Eq)]
pub enum CorsPolicy {
    /// Any origin, method and header (authentication disabled).
    AllowAny,
    /// No cross-origin access.
    SameOriginOnly,
    /// These origins, any method and header, with credentials.
    Origins(Vec<String>),
}

/// The trimmed comma-separated origins that are valid header values.
pub open spec fn valid_origins(parts: Seq<Seq<char>>) -> Seq<Seq<char>>
    decreases parts.len(),
{
    if parts.len() == 0 {
        Seq::empty()
    } else {
        let prev = valid_origins(parts.drop_last());
        let t = trim(parts.last());
        if header_value_ok(t) { prev.push(t) } else { prev }
    }
}

/// CORS from the mode and `ZEDAZO_CORS_ORIGIN`: open when authentication is disabled;
/// with a token, only the listed valid origins, and none when the list is blank or has
/// no valid origin.
pub fn cors_policy(auth: &AuthConfig, origins: Option<&str>) -> (r: CorsPolicy)
    ensures
        match auth.mode {
            AuthMode::Disabled => r == CorsPolicy::AllowAny,
            AuthMode::Token(_) => {
                let o = match origins {
                    Some(x) => x@,
                    None => Seq::<char>::empty(),
                };
                let list = valid_origins(split_on(o, ','));
                if trim(o).len() == 0 || list.len() == 0 {
                    r == CorsPolicy::SameOriginOnly
                } else {
                    r matches CorsPolicy::Origins(v) && crate::text::string_views(v@) == list
                }
            },
        },
{
    match &auth.mode {
        AuthMode::Disabled => CorsPolicy::AllowAny,
        AuthMode::Token(_) => {
            let o = match origins {
                Some(x) => chars_of(x),
                None => Vec::new(),
            };
            let t = trim_chars(&o);
            if t.len() == 0 {
                return CorsPolicy::SameOriginOnly;
            }
            let parts = split_chars(&o, ',');
            let mut list: Vec<Vec<char>> = Vec::new();
            let mut k: usize = 0;
            while k < parts.len()
                invariant
                    k <= parts@.len(),
                    views(list@) == valid_origins(views(parts@).take(k as int)),
                decreases parts.len() - k,
            {
                assert(views(parts@).take(k + 1).drop_last() =~= views(parts@).take(k as int));
                assert(views(parts@).take(k + 1).last() == parts@[k as int]@);
                let p = trim_chars(&parts[k]);
                if header_value_valid(&p) {
                    let ghost before = list@;
                    list.push(p);
                    assert(views(list@) =~= views(before).push(p@));
                }
                k += 1;
            }
            assert(views(parts@).take(parts@.len() as int) =~= views(parts@));
            if list.len() == 0 {
                CorsPolicy::SameOriginOnly
            } else {
                CorsPolicy::Origins(crate::text::strings_of(&list))
            }
        },
    }
}

} // verus!
