//! URL policy of the CardDAV client: HTTPS, or cleartext HTTP to loopback only; DAV hrefs
//! and redirects never leave the origin (save the `.well-known` exception).
use vstd::prelude::*;

use crate::error::CardDavError;
use crate::text::{
    chars_eq, chars_of, copy_range, eq_ignore_ascii_case, eq_ignore_case, extend_chars, lit_eq,
    lower, lower_seq, string_of, trim, trim_chars,
};

verus! {

#[verifier::external_type_specification]
#[verifier::external_body]
pub struct ExUrl(reqwest::Url);

/// `url::Url::clone` gives an equal URL.
pub assume_specification[ <reqwest::Url as Clone>::clone ](u: &reqwest::Url) -> (r: reqwest::Url)
    ensures
        r == *u,
;

/// The parts of a parsed URL that the policy reads.
pub struct UrlView {
    /// The whole URL as `Url::as_str` shows it.
    pub serialization: Seq<char>,
    pub scheme: Seq<char>,
    /// `Url::host_str`.
    pub host: Option<Seq<char>>,
    /// `Url::port`: an explicit port that is not the scheme's default.
    pub port: Option<u16>,
    /// `Url::port_or_known_default`.
    pub known_port: Option<u16>,
    pub path: Seq<char>,
    /// `Url::origin().ascii_serialization()`.
    pub origin: Seq<char>,
}

/// An absolute URL, with the parts that the policy reads.
#[derive(Debug)]
pub struct DavUrl {
    inner: reqwest::Url,
    serialization: String,
    scheme: String,
    host: Option<String>,
    port: Option<u16>,
    known_port: Option<u16>,
    path: String,
    origin: String,
}

pub open spec fn opt_string_view(o: Option<String>) -> Option<Seq<char>> {
    match o {
        Some(s) => Some(s@),
        None => None,
    }
}

impl View for DavUrl {
    type V = UrlView;

    closed spec fn view(&self) -> UrlView {
        UrlView {
            serialization: self.serialization@,
            scheme: self.scheme@,
            host: opt_string_view(self.host),
            port: self.port,
            known_port: self.known_port,
            path: self.path@,
            origin: self.origin@,
        }
    }
}

/// What `url::Url::parse` makes of a text: the URL's parts, or the error's message.
pub uninterp spec fn url_parse(s: Seq<char>) -> Result<UrlView, Seq<char>>;

/// What `url::Url::join` makes of a reference against a base URL (known by its parts):
/// the URL's parts, or the error's message.
pub uninterp spec fn url_join(base: UrlView, reference: Seq<char>) -> Result<UrlView, Seq<char>>;

/// Calls `url::Url::parse` (as re-exported by reqwest); the result, or the error's message,
/// is named by `url_parse`.
#[verifier::external_body]
fn parse_url(s: &str) -> (r: Result<DavUrl, String>)
    ensures
        match url_parse(s@) {
            Ok(v) => r matches Ok(u) && u@ == v,
            Err(m) => r matches Err(e) && e@ == m,
        },
{
    match reqwest::Url::parse(s) {
        Ok(u) => Ok(DavUrl {
            serialization: u.as_str().to_string(),
            scheme: u.scheme().to_string(),
            host: u.host_str().map(str::to_string),
            port: u.port(),
            known_port: u.port_or_known_default(),
            path: u.path().to_string(),
            origin: u.origin().ascii_serialization(),
            inner: u,
        }),
        Err(e) => Err(e.to_string()),
    }
}

/// Calls `url::Url::join`; the result, or the error's message, is named by `url_join`.
#[verifier::external_body]
fn join_url(base: &DavUrl, reference: &str) -> (r: Result<DavUrl, String>)
    ensures
        match url_join(base@, reference@) {
            Ok(v) => r matches Ok(u) && u@ == v,
            Err(m) => r matches Err(e) && e@ == m,
        },
{
    match base.inner.join(reference) {
        Ok(u) => Ok(DavUrl {
            serialization: u.as_str().to_string(),
            scheme: u.scheme().to_string(),
            host: u.host_str().map(str::to_string),
            port: u.port(),
            known_port: u.port_or_known_default(),
            path: u.path().to_string(),
            origin: u.origin().ascii_serialization(),
            inner: u,
        }),
        Err(e) => Err(e.to_string()),
    }
}

impl Clone for DavUrl {
    fn clone(&self) -> (r: Self)
        ensures
            r@ == self@,
    {
        let host = match &self.host {
            Some(h) => Some(h.clone()),
            None => None,
        };
        DavUrl {
            inner: self.inner.clone(),
            serialization: self.serialization.clone(),
            scheme: self.scheme.clone(),
            host,
            port: self.port,
            known_port: self.known_port,
            path: self.path.clone(),
            origin: self.origin.clone(),
        }
    }
}

impl DavUrl {
    /// Parses an absolute URL.
    pub fn parse(s: &str) -> (r: Result<DavUrl, String>)
        ensures
            match url_parse(s@) {
                Ok(v) => r matches Ok(u) && u@ == v,
                Err(m) => r matches Err(e) && e@ == m,
            },
    {
        parse_url(s)
    }

    /// Resolves a reference against this URL.
    pub fn join(&self, reference: &str) -> (r: Result<DavUrl, String>)
        ensures
            match url_join(self@, reference@) {
                Ok(v) => r matches Ok(u) && u@ == v,
                Err(m) => r matches Err(e) && e@ == m,
            },
    {
        join_url(self, reference)
    }

    pub fn as_str(&self) -> (r: &str)
        ensures
            r@ == self@.serialization,
    {
        self.serialization.as_str()
    }

    pub fn scheme(&self) -> (r: &str)
        ensures
            r@ == self@.scheme,
    {
        self.scheme.as_str()
    }

    pub fn host_str(&self) -> (r: Option<&str>)
        ensures
            match self@.host {
                Some(h) => r matches Some(x) && x@ == h,
                None => r is None,
            },
    {
        match &self.host {
            Some(h) => Some(h.as_str()),
            None => None,
        }
    }

    pub fn port(&self) -> (r: Option<u16>)
        ensures
            r == self@.port,
    {
        self.port
    }

    pub fn port_or_known_default(&self) -> (r: Option<u16>)
        ensures
            r == self@.known_port,
    {
        self.known_port
    }

    pub fn path(&self) -> (r: &str)
        ensures
            r@ == self@.path,
    {
        self.path.as_str()
    }

    /// `origin().ascii_serialization()`.
    pub fn origin_str(&self) -> (r: &str)
        ensures
            r@ == self@.origin,
    {
        self.origin.as_str()
    }

    /// The parsed `url::Url` that this value holds; its parts were read from it when it was
    /// parsed or joined.
    pub closed spec fn parsed(&self) -> reqwest::Url {
        self.inner
    }

    /// The underlying `url::Url`, for the HTTP client.
    pub fn inner(&self) -> (r: &reqwest::Url)
        ensures
            *r == self.parsed(),
    {
        &self.inner
    }
}


/// The octets of an IP address as `core::net::IpAddr` parses it (4 for IPv4, 16 for IPv6).
pub uninterp spec fn ip_parse(s: Seq<char>) -> Option<Seq<u8>>;

/// Calls `<core::net::IpAddr as FromStr>::from_str`: the octets of the address, named by
/// `ip_parse`; 4 of them for IPv4 and 16 for IPv6.
#[verifier::external_body]
fn parse_ip_octets(s: &str) -> (r: Option<Vec<u8>>)
    ensures
        match ip_parse(s@) {
            None => r is None,
            Some(o) => r matches Some(v) && v@ == o && (o.len() == 4 || o.len() == 16),
        },
{
    match s.parse::<core::net::IpAddr>() {
        Ok(core::net::IpAddr::V4(a)) => Some(a.octets().to_vec()),
        Ok(core::net::IpAddr::V6(a)) => Some(a.octets().to_vec()),
        Err(_) => None,
    }
}

/// `IpAddr::is_loopback`: `127.0.0.0/8` or `::1`.
pub open spec fn ip_is_loopback(o: Seq<u8>) -> bool {
    (o.len() == 4 && o[0] == 127) || (o.len() == 16 && o[15] == 1 && forall|i: int|
        0 <= i < 15 ==> o[i] == 0)
}

pub open spec fn is_bracket(c: char) -> bool {
    c == '[' || c == ']'
}

pub open spec fn strip_brackets_start(s: Seq<char>) -> Seq<char>
    decreases s.len(),
{
    if s.len() > 0 && is_bracket(s[0]) {
        strip_brackets_start(s.drop_first())
    } else {
        s
    }
}

pub open spec fn strip_brackets_end(s: Seq<char>) -> Seq<char>
    decreases s.len(),
{
    if s.len() > 0 && is_bracket(s.last()) {
        strip_brackets_end(s.drop_last())
    } else {
        s
    }
}

/// `str::trim_matches` on `[` and `]`.
pub open spec fn strip_brackets(s: Seq<char>) -> Seq<char> {
    strip_brackets_end(strip_brackets_start(s))
}

/// `localhost` in any ASCII case, or an address in `127.0.0.0/8` or `::1` (brackets
/// around the address are ignored).
pub open spec fn spec_is_loopback_host(host: Seq<char>) -> bool {
    eq_ignore_ascii_case(host, "localhost"@) || match ip_parse(strip_brackets(host)) {
        Some(o) => ip_is_loopback(o),
        None => false,
    }
}

fn strip_brackets_chars(s: &[char]) -> (r: Vec<char>)
    ensures
        r@ == strip_brackets(s@),
{
    let mut i: usize = 0;
    assert(s@.skip(0) =~= s@);
    while i < s.len() && (s[i] == '[' || s[i] == ']')
        invariant
            i <= s@.len(),
            strip_brackets_start(s@) == strip_brackets_start(s@.skip(i as int)),
        decreases s.len() - i,
    {
        assert(s@.skip(i as int).drop_first() =~= s@.skip(i + 1));
        i += 1;
    }
    let a = copy_range(s, i, s.len());
    assert(a@ =~= s@.skip(i as int));
    let mut j: usize = a.len();
    assert(a@.take(a@.len() as int) =~= a@);
    while j > 0 && (a[j - 1] == '[' || a[j - 1] == ']')
        invariant
            j <= a@.len(),
            strip_brackets_end(a@) == strip_brackets_end(a@.take(j as int)),
        decreases j,
    {
        assert(a@.take(j as int).drop_last() =~= a@.take(j - 1));
        j -= 1;
    }
    let r = copy_range(&a, 0, j);
    assert(r@ =~= a@.take(j as int));
    r
}

fn v6_is_loopback(o: &Vec<u8>) -> (b: bool)
    requires
        o@.len() == 16,
    ensures
        b == ip_is_loopback(o@),
{
    let mut i: usize = 0;
    while i < 15
        invariant
            o@.len() == 16,
            i <= 15,
            forall|k: int| 0 <= k < i ==> o@[k] == 0,
        decreases 15 - i,
    {
        if o[i] != 0 {
            assert(!ip_is_loopback(o@)) by {
                assert(o@[i as int] != 0);
            }
            return false;
        }
        i += 1;
    }
    o[15] == 1
}

/// Loopback host: `localhost`, `127.0.0.0/8` or `::1`.
pub fn is_loopback_host(host: &str) -> (b: bool)
    ensures
        b == spec_is_loopback_host(host@),
{
    let h = chars_of(host);
    let l = chars_of("localhost");
    if eq_ignore_case(&h, &l) {
        return true;
    }
    let u = strip_brackets_chars(&h);
    let us = string_of(&u);
    match parse_ip_octets(us.as_str()) {
        Some(o) => {
            if o.len() == 4 {
                o[0] == 127
            } else {
                v6_is_loopback(&o)
            }
        },
        None => false,
    }
}

/// The host of a URL, or the empty text when it has none.
pub open spec fn host_or_empty(u: UrlView) -> Seq<char> {
    match u.host {
        Some(h) => h,
        None => Seq::<char>::empty(),
    }
}


/// The server URL policy: `https` with a host, or `http` to a loopback host.
pub open spec fn spec_server_url_ok(u: UrlView) -> bool {
    (u.scheme == "https"@ && u.host is Some) || (u.scheme == "http"@ && spec_is_loopback_host(
        host_or_empty(u),
    ))
}

/// The error by which the URL policy refuses a URL.
pub open spec fn url_refusal(e: CardDavError, u: UrlView) -> bool {
    if u.scheme == "https"@ {
        e matches CardDavError::InvalidUrl(m) && m@ == "https requiere un host"@
    } else if u.scheme == "http"@ {
        e == CardDavError::CleartextForbidden
    } else {
        e matches CardDavError::UnsupportedScheme(s) && s@ == u.scheme
    }
}

/// HTTPS always (with a host); cleartext HTTP only towards a loopback host.
pub fn validate_server_url(url: &DavUrl) -> (r: Result<(), CardDavError>)
    ensures
        r is Ok <==> spec_server_url_ok(url@),
        r matches Err(e) ==> url_refusal(e, url@),
        url@.scheme == "https"@ && url@.host is None ==> (r matches Err(CardDavError::InvalidUrl(m))
            && m@ == "https requiere un host"@),
        url@.scheme == "http"@ && !spec_server_url_ok(url@) ==> r == Err::<(), CardDavError>(
            CardDavError::CleartextForbidden,
        ),
        url@.scheme != "https"@ && url@.scheme != "http"@ ==> (r matches Err(
            CardDavError::UnsupportedScheme(s),
        ) && s@ == url@.scheme),
{
    proof {
        reveal_strlit("https");
        reveal_strlit("http");
        assert("https"@.len() != "http"@.len());
    }
    let sc = chars_of(url.scheme());
    if lit_eq(&sc, "https") {
        if url.host_str().is_none() {
            return Err(CardDavError::InvalidUrl(String::from_str("https requiere un host")));
        }
        Ok(())
    } else if lit_eq(&sc, "http") {
        let host = match url.host_str() {
            Some(h) => h,
            None => "",
        };
        proof {
            reveal_strlit("");
        }
        assert(host@ == host_or_empty(url@));
        if is_loopback_host(host) {
            Ok(())
        } else {
            Err(CardDavError::CleartextForbidden)
        }
    } else {
        Err(CardDavError::UnsupportedScheme(String::from_str(url.scheme())))
    }
}

/// The URL that `parse_and_validate` accepts for a text, if any.
pub open spec fn spec_parse_and_validate(raw: Seq<char>) -> Option<UrlView> {
    if trim(raw).len() == 0 {
        None
    } else {
        match url_parse(trim(raw)) {
            Ok(v) => if spec_server_url_ok(v) {
                Some(v)
            } else {
                None
            },
            Err(_) => None,
        }
    }
}

/// The error that `parse_and_validate` gives a text that it refuses: `MissingUrl` when
/// blank, `InvalidUrl` with the parser's message when unparsable, else the policy's refusal.
pub open spec fn parse_refusal(raw: Seq<char>, e: CardDavError) -> bool {
    if trim(raw).len() == 0 {
        e == CardDavError::MissingUrl
    } else {
        match url_parse(trim(raw)) {
            Err(msg) => e matches CardDavError::InvalidUrl(m) && m@ == msg,
            Ok(v) => url_refusal(e, v),
        }
    }
}

/// Parses and checks a server URL: blank is `MissingUrl`, unparsable is `InvalidUrl`,
/// then the server URL policy applies.
pub fn parse_and_validate(raw: &str) -> (r: Result<DavUrl, CardDavError>)
    ensures
        r matches Err(e) ==> parse_refusal(raw@, e),
        match spec_parse_and_validate(raw@) {
            Some(v) => r matches Ok(u) && u@ == v,
            None => r is Err,
        },
        trim(raw@).len() == 0 ==> r == Err::<DavUrl, CardDavError>(CardDavError::MissingUrl),
        trim(raw@).len() > 0 ==> match url_parse(trim(raw@)) {
            Err(msg) => r matches Err(CardDavError::InvalidUrl(m)) && m@ == msg,
            Ok(v) => if spec_server_url_ok(v) {
                r matches Ok(u) && u@ == v
            } else {
                r matches Err(e) && url_refusal(e, v)
            },
        },
{
    let c = chars_of(raw);
    let t = trim_chars(&c);
    if t.len() == 0 {
        return Err(CardDavError::MissingUrl);
    }
    let ts = string_of(&t);
    let url = match DavUrl::parse(ts.as_str()) {
        Ok(u) => u,
        Err(e) => {
            return Err(CardDavError::InvalidUrl(e));
        },
    };
    match validate_server_url(&url) {
        Ok(()) => Ok(url),
        Err(e) => Err(e),
    }
}

pub open spec fn lower_host(h: Option<Seq<char>>) -> Option<Seq<char>> {
    match h {
        Some(x) => Some(lower_seq(x)),
        None => None,
    }
}

/// Same scheme, host (ASCII case-insensitive) and effective port.
pub open spec fn spec_same_origin(a: UrlView, b: UrlView) -> bool {
    a.scheme == b.scheme && lower_host(a.host) == lower_host(b.host) && a.known_port == b.known_port
}

fn lower_host_exec(u: &DavUrl) -> (r: Option<Vec<char>>)
    ensures
        match lower_host(u@.host) {
            None => r is None,
            Some(h) => r matches Some(x) && x@ == h,
        },
{
    match u.host_str() {
        Some(h) => {
            let c = chars_of(h);
            Some(lower(&c))
        },
        None => None,
    }
}

pub fn same_origin(a: &DavUrl, b: &DavUrl) -> (r: bool)
    ensures
        r == spec_same_origin(a@, b@),
{
    let sa = chars_of(a.scheme());
    let sb = chars_of(b.scheme());
    if !chars_eq(&sa, &sb) {
        return false;
    }
    let ha = lower_host_exec(a);
    let hb = lower_host_exec(b);
    let hosts_equal = match (&ha, &hb) {
        (Some(x), Some(y)) => chars_eq(x, y),
        (None, None) => true,
        _ => false,
    };
    hosts_equal && a.port_or_known_default() == b.port_or_known_default()
}

/// `scheme://host[:port]` (the port only when explicit and not the default).
pub open spec fn spec_origin_key(u: UrlView) -> Seq<char> {
    u.scheme + "://"@ + host_or_empty(u) + match u.port {
        Some(p) => ":"@ + crate::text::decimal(p as nat),
        None => Seq::<char>::empty(),
    }
}

pub fn origin_key(u: &DavUrl) -> (r: String)
    ensures
        r@ == spec_origin_key(u@),
{
    let mut out = chars_of(u.scheme());
    let sep = chars_of("://");
    extend_chars(&mut out, &sep);
    match u.host_str() {
        Some(h) => {
            let hc = chars_of(h);
            extend_chars(&mut out, &hc);
        },
        None => {},
    }
    match u.port() {
        Some(p) => {
            out.push(':');
            let d = crate::text::fmt_u64(p as u64);
            extend_chars(&mut out, &d);
        },
        None => {},
    }
    proof {
        reveal_strlit(":");
    }
    assert(out@ =~= spec_origin_key(u@));
    string_of(&out)
}

/// Drops all trailing `/`.
pub open spec fn spec_trim_slash(s: Seq<char>) -> Seq<char>
    decreases s.len(),
{
    if s.len() > 0 && s.last() == '/' {
        spec_trim_slash(s.drop_last())
    } else {
        s
    }
}

pub fn trim_slash(s: &str) -> (r: String)
    ensures
        r@ == spec_trim_slash(s@),
{
    let c = chars_of(s);
    let mut j: usize = c.len();
    assert(c@.take(c@.len() as int) =~= c@);
    while j > 0 && c[j - 1] == '/'
        invariant
            j <= c@.len(),
            spec_trim_slash(c@) == spec_trim_slash(c@.take(j as int)),
        decreases j,
    {
        assert(c@.take(j as int).drop_last() =~= c@.take(j - 1));
        j -= 1;
    }
    let r = copy_range(&c, 0, j);
    assert(r@ =~= c@.take(j as int));
    string_of(&r)
}

/// Two collection URLs are the same up to trailing slashes.
pub open spec fn spec_same_collection(a: UrlView, b: UrlView) -> bool {
    spec_trim_slash(a.serialization) == spec_trim_slash(b.serialization)
}

pub fn same_collection(a: &DavUrl, b: &DavUrl) -> (r: bool)
    ensures
        r == spec_same_collection(a@, b@),
{
    let x = trim_slash(a.as_str());
    let y = trim_slash(b.as_str());
    x == y
}


/// How a DAV href or redirect location resolves against a base URL.
pub enum ResolveOutcome {
    Resolved(UrlView),
    Empty,
    Invalid(Seq<char>),
    CrossOrigin(Seq<char>, Seq<char>),
    Cleartext,
}

/// A (trimmed, non-empty) reference is joined to the base; a result on the same origin is
/// accepted; another origin is refused, unless `allow_cross_origin` (the `.well-known`
/// case), where it is still refused when it moves from a non-loopback host to a loopback
/// one, or to cleartext HTTP on a non-loopback host.
pub open spec fn spec_resolve(base: UrlView, href: Seq<char>, allow_cross_origin: bool) -> ResolveOutcome {
    let h = trim(href);
    if h.len() == 0 {
        ResolveOutcome::Empty
    } else {
        match url_join(base, h) {
            Err(m) => ResolveOutcome::Invalid(m),
            Ok(j) => if spec_same_origin(base, j) {
                ResolveOutcome::Resolved(j)
            } else if !allow_cross_origin {
                ResolveOutcome::CrossOrigin(spec_origin_key(base), j.serialization)
            } else {
                let from_loop = spec_is_loopback_host(host_or_empty(base));
                let to_loop = spec_is_loopback_host(host_or_empty(j));
                if to_loop && !from_loop {
                    ResolveOutcome::CrossOrigin(spec_origin_key(base), j.serialization)
                } else if j.scheme != "https"@ && !to_loop {
                    ResolveOutcome::Cleartext
                } else {
                    ResolveOutcome::Resolved(j)
                }
            },
        }
    }
}

/// `r` is the result that the outcome `o` describes.
pub open spec fn outcome_matches(r: Result<DavUrl, CardDavError>, o: ResolveOutcome) -> bool {
    match o {
        ResolveOutcome::Resolved(v) => r matches Ok(u) && u@ == v,
        ResolveOutcome::Empty => r matches Err(CardDavError::Protocol(m)) && m@ == "href DAV vacío"@,
        ResolveOutcome::Invalid(msg) => r matches Err(CardDavError::InvalidUrl(m)) && m@ == msg,
        ResolveOutcome::CrossOrigin(f, t) => r matches Err(CardDavError::CrossOrigin { from, to })
            && from@ == f && to@ == t,
        ResolveOutcome::Cleartext => r == Err::<DavUrl, CardDavError>(
            CardDavError::CleartextForbidden,
        ),
    }
}

fn resolve_href_inner(base: &DavUrl, href: &str, allow_cross_origin: bool) -> (r: Result<
    DavUrl,
    CardDavError,
>)
    ensures
        outcome_matches(r, spec_resolve(base@, href@, allow_cross_origin)),
{
    let hc = chars_of(href);
    let t = trim_chars(&hc);
    if t.len() == 0 {
        return Err(CardDavError::Protocol(String::from_str("href DAV vacío")));
    }
    let ts = string_of(&t);
    let joined = match base.join(ts.as_str()) {
        Ok(j) => j,
        Err(e) => {
            return Err(CardDavError::InvalidUrl(e));
        },
    };
    if same_origin(base, &joined) {
        return Ok(joined);
    }
    if !allow_cross_origin {
        return Err(
            CardDavError::CrossOrigin {
                from: origin_key(base),
                to: String::from_str(joined.as_str()),
            },
        );
    }
    let bh = match base.host_str() {
        Some(h) => h,
        None => "",
    };
    let jh = match joined.host_str() {
        Some(h) => h,
        None => "",
    };
    proof {
        reveal_strlit("");
    }
    assert(bh@ == host_or_empty(base@));
    assert(jh@ == host_or_empty(joined@));
    let from_loop = is_loopback_host(bh);
    let to_loop = is_loopback_host(jh);
    if to_loop && !from_loop {
        return Err(
            CardDavError::CrossOrigin {
                from: origin_key(base),
                to: String::from_str(joined.as_str()),
            },
        );
    }
    let sc = chars_of(joined.scheme());
    if !lit_eq(&sc, "https") && !to_loop {
        return Err(CardDavError::CleartextForbidden);
    }
    Ok(joined)
}

/// Joins a DAV `href` to `base`; an href that changes the origin (absolute or
/// protocol-relative) is refused, so that credentials never go to another host.
pub fn resolve_href(base: &DavUrl, href: &str) -> (r: Result<DavUrl, CardDavError>)
    ensures
        outcome_matches(r, spec_resolve(base@, href@, false)),
{
    resolve_href_inner(base, href, false)
}

/// Joins a redirect `Location`; with `allow_cross_origin` (only for `/.well-known/carddav`)
/// an HTTPS host change is accepted.
pub fn resolve_redirect(base: &DavUrl, location: &str, allow_cross_origin: bool) -> (r: Result<
    DavUrl,
    CardDavError,
>)
    ensures
        outcome_matches(r, spec_resolve(base@, location@, allow_cross_origin)),
{
    resolve_href_inner(base, location, allow_cross_origin)
}

/// A DAV href never resolves to another origin.
pub proof fn law_href_stays_in_origin(base: UrlView, href: Seq<char>)
    ensures
        spec_resolve(base, href, false) matches ResolveOutcome::Resolved(u) ==> spec_same_origin(
            base,
            u,
        ),
{
}

/// A cross-origin redirect, even where allowed, never goes from a remote host to a
/// loopback one, and never to cleartext HTTP on a remote host.
pub proof fn law_redirect_policy(base: UrlView, location: Seq<char>)
    ensures
        spec_resolve(base, location, true) matches ResolveOutcome::Resolved(u) ==> spec_same_origin(
            base,
            u,
        ) || ((spec_is_loopback_host(host_or_empty(u)) ==> spec_is_loopback_host(
            host_or_empty(base),
        )) && (u.scheme == "https"@ || spec_is_loopback_host(host_or_empty(u)))),
{
}

/// Same origin is an equivalence relation.
pub proof fn law_same_origin_equivalence(a: UrlView, b: UrlView, c: UrlView)
    ensures
        spec_same_origin(a, a),
        spec_same_origin(a, b) ==> spec_same_origin(b, a),
        spec_same_origin(a, b) && spec_same_origin(b, c) ==> spec_same_origin(a, c),
{
}

/// The URL with a trailing slash: unchanged when it has one, or when the slashed text
/// does not parse.
pub open spec fn spec_with_slash(u: UrlView) -> UrlView {
    if u.serialization.len() > 0 && u.serialization.last() == '/' {
        u
    } else {
        match url_parse(u.serialization.push('/')) {
            Ok(v) => v,
            Err(_) => u,
        }
    }
}

/// Adds a trailing slash to a collection URL (unchanged when it has one, or when the
/// slashed text does not parse).
pub fn ensure_trailing_slash(url: &DavUrl) -> (r: DavUrl)
    ensures
        r@ == spec_with_slash(url@),
        url@.serialization.len() > 0 && url@.serialization.last() == '/' ==> r@ == url@,
        !(url@.serialization.len() > 0 && url@.serialization.last() == '/') ==> match url_parse(
            url@.serialization.push('/'),
        ) {
            Ok(v) => r@ == v,
            Err(_) => r@ == url@,
        },
{
    let s = chars_of(url.as_str());
    if s.len() > 0 && s[s.len() - 1] == '/' {
        return url.clone();
    }
    let mut t = copy_range(&s, 0, s.len());
    t.push('/');
    assert(t@ =~= url@.serialization.push('/'));
    let ts = string_of(&t);
    match DavUrl::parse(ts.as_str()) {
        Ok(u) => u,
        Err(_) => url.clone(),
    }
}

/// The origin `scheme://host[:port]` with a trailing slash, as a URL.
pub fn origin_with_slash(url: &DavUrl) -> (r: Result<DavUrl, CardDavError>)
    ensures
        ({
            let o = url@.origin;
            let s = if o.len() > 0 && o.last() == '/' { o } else { o.push('/') };
            match url_parse(s) {
                Ok(v) => r matches Ok(u) && u@ == v,
                Err(msg) => r matches Err(CardDavError::InvalidUrl(m)) && m@ == msg,
            }
        }),
{
    let mut o = chars_of(url.origin_str());
    if !(o.len() > 0 && o[o.len() - 1] == '/') {
        o.push('/');
    }
    let os = string_of(&o);
    match DavUrl::parse(os.as_str()) {
        Ok(u) => Ok(u),
        Err(e) => Err(CardDavError::InvalidUrl(e)),
    }
}

} // verus!
