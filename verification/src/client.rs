//! The decisions of the CardDAV client: what to send, how to read what came back, when
//! to retry or follow a redirect, and what the caller gets. The transport (reqwest) runs
//! these steps and hands every answer back as plain values.
use vstd::prelude::*;

use crate::error::CardDavError;
use crate::filter::{spec_vcard_matches, vcard_matches_categories};
use crate::text::{
    chars_eq, chars_of, contains, contains_chars, eq_ignore_ascii_case, eq_ignore_case, copy_range, extend_chars, lit_eq, parse_uint, spec_parse_uint,
    starts_with, starts_with_chars, string_of, string_views, trim, trim_chars,
};
use crate::config::CardDavConfig;
use crate::url_policy::{
    ensure_trailing_slash, origin_with_slash, outcome_matches, url_join, resolve_href, resolve_redirect, same_collection,
    spec_resolve, spec_same_collection, spec_server_url_ok, spec_with_slash, url_parse,
    spec_same_origin, url_refusal, validate_server_url, DavUrl, ResolveOutcome, UrlView,
};
use crate::xml::{
    bare_response, looks_like_vcard, opt_view, responses_view, spec_looks_like_vcard,
    trim_matches, trim_matches_chars, DavResponse, DavResponseView,
};

verus! {

/// Redirects followed at most, per request.
pub const MAX_REDIRECTS: usize = 8;

/// Attempts per request while the server answers 429/503.
pub const MAX_RETRIES: u32 = 4;

// ---------------------------------------------------------------------------
// ETags

/// An `ETag` header value without `W/` and without quotes.
pub open spec fn spec_unquote_header_etag(raw: Seq<char>) -> Seq<char> {
    let t = trim(raw);
    let rest = if starts_with(t, "W/"@) || starts_with(t, "w/"@) {
        trim(t.skip(2))
    } else {
        t
    };
    trim_matches(rest, '"')
}

pub fn unquote_header_etag(raw: &str) -> (r: String)
    ensures
        r@ == spec_unquote_header_etag(raw@),
{
    let c = chars_of(raw);
    let t = trim_chars(&c);
    proof {
        reveal_strlit("W/");
        reveal_strlit("w/");
    }
    let weak = t.len() >= 2 && t[0] == 'W' && t[1] == '/' || t.len() >= 2 && t[0] == 'w' && t[1]
        == '/';
    assert(weak == (starts_with(t@, "W/"@) || starts_with(t@, "w/"@))) by {
        assert("W/"@ =~= seq!['W', '/']);
        assert("w/"@ =~= seq!['w', '/']);
        if t@.len() >= 2 {
            assert(t@.take(2) =~= seq![t@[0], t@[1]]);
        }
    }
    let rest = if weak {
        let s = copy_range(&t, 2, t.len());
        assert(s@ =~= t@.skip(2));
        trim_chars(&s)
    } else {
        t
    };
    string_of(&trim_matches_chars(&rest, '"'))
}

/// `If-Match` value for an ETag: kept where already quoted or weak, quoted otherwise.
pub open spec fn spec_quote_etag(etag: Seq<char>) -> Seq<char> {
    let t = trim(etag);
    if starts_with(t, "\""@) || starts_with(t, "W/"@) || starts_with(t, "w/"@) {
        t
    } else {
        seq!['"'] + t + seq!['"']
    }
}

pub fn quote_etag(etag: &str) -> (r: String)
    ensures
        r@ == spec_quote_etag(etag@),
{
    let c = chars_of(etag);
    let t = trim_chars(&c);
    if starts_with_chars(&t, &chars_of("\"")) || starts_with_chars(&t, &chars_of("W/"))
        || starts_with_chars(&t, &chars_of("w/")) {
        return string_of(&t);
    }
    let mut out: Vec<char> = Vec::new();
    out.push('"');
    extend_chars(&mut out, &t);
    out.push('"');
    assert(out@ =~= seq!['"'] + t@ + seq!['"']);
    string_of(&out)
}

/// A write needs a concrete ETag: blank and `*` are refused; otherwise it is unquoted.
pub open spec fn concrete_etag_ok(etag: Seq<char>) -> bool {
    let t = trim(etag);
    t.len() > 0 && t != "*"@
}

pub fn require_concrete_etag(etag: &str) -> (r: Result<String, CardDavError>)
    ensures
        concrete_etag_ok(etag@) ==> (r matches Ok(s) && s@ == spec_unquote_header_etag(trim(etag@))),
        !concrete_etag_ok(etag@) ==> r == Err::<String, CardDavError>(CardDavError::MissingEtag),
{
    let c = chars_of(etag);
    let t = trim_chars(&c);
    if t.len() == 0 || lit_eq(&t, "*") {
        return Err(CardDavError::MissingEtag);
    }
    let ts = string_of(&t);
    Ok(unquote_header_etag(ts.as_str()))
}

// ---------------------------------------------------------------------------
// throttling

/// `Retry-After` in whole seconds (a date is not read), capped at 30.
pub open spec fn spec_retry_after(raw: Option<Seq<char>>) -> Option<u64> {
    match raw {
        None => None,
        Some(r) => match spec_parse_uint(trim(r), u64::MAX as nat + 1) {
            None => None,
            Some(v) => Some(if v < 30 { v as u64 } else { 30 }),
        },
    }
}

pub open spec fn opt_str(o: Option<&str>) -> Option<Seq<char>> {
    match o {
        Some(s) => Some(s@),
        None => None,
    }
}

/// The wait that a `Retry-After` header asks for, in seconds.
pub fn retry_after_delay(header: Option<&str>) -> (r: Option<u64>)
    ensures
        r == spec_retry_after(opt_str(header)),
{
    let raw = match header {
        Some(h) => h,
        None => {
            return None;
        },
    };
    let c = chars_of(raw);
    let t = trim_chars(&c);
    match parse_uint(&t, 18446744073709551616u128) {
        None => None,
        Some(v) => Some(if v < 30 { v } else { 30 }),
    }
}

pub open spec fn pow2(n: nat) -> nat
    decreases n,
{
    if n == 0 {
        1
    } else {
        2 * pow2((n - 1) as nat)
    }
}

/// Exponential backoff in milliseconds: 200 ms doubled per attempt (at most 5 times),
/// never above 5 s.
pub open spec fn spec_backoff(attempt: u32) -> u64 {
    let e: nat = if attempt < 5 { attempt as nat } else { 5 };
    let ms = 200 * pow2(e);
    if ms < 5000 { ms as u64 } else { 5000 }
}

pub fn backoff(attempt: u32) -> (ms: u64)
    ensures
        ms == spec_backoff(attempt),
{
    let e: u32 = if attempt < 5 { attempt } else { 5 };
    let mut m: u64 = 1;
    let mut i: u32 = 0;
    while i < e
        invariant
            i <= e <= 5,
            m == pow2(i as nat),
            m <= 32,
        decreases e - i,
    {
        proof {
            assert(pow2((i + 1) as nat) == 2 * pow2(i as nat));
        }
        m = m * 2;
        i += 1;
        assert(m <= 32) by {
            assert(pow2(1) == 2) by { reveal_with_fuel(pow2, 2); }
            assert(pow2(2) == 4) by { reveal_with_fuel(pow2, 3); }
            assert(pow2(3) == 8) by { reveal_with_fuel(pow2, 4); }
            assert(pow2(4) == 16) by { reveal_with_fuel(pow2, 5); }
            assert(pow2(5) == 32) by { reveal_with_fuel(pow2, 6); }
        }
    }
    let ms = 200 * m;
    if ms < 5000 { ms } else { 5000 }
}

/// What to do with one answer while retrying.
#[derive(Debug, Clone, PartialEq, Eq)]
pub enum RetryStep {
    /// Hand the answer to the caller.
    Deliver,
    /// Throttled: wait this many milliseconds and send again.
    Wait(u64),
    /// Throttled on the last attempt: fail with this error.
    GiveUp(CardDavError),
}

pub open spec fn throttled(status: u16) -> bool {
    status == 429 || status == 503
}

/// The wait after a throttled answer, in milliseconds: `Retry-After`, else the backoff.
pub open spec fn spec_wait_ms(attempt: u32, retry_after: Option<Seq<char>>) -> u64 {
    match spec_retry_after(retry_after) {
        Some(s) => (s * 1000) as u64,
        None => spec_backoff(attempt),
    }
}

/// One attempt (counted from 0) came back with `status`.
pub open spec fn spec_retry_step(attempt: u32, status: u16, retry_after: Option<Seq<char>>) -> RetryStep {
    if !throttled(status) {
        RetryStep::Deliver
    } else if attempt + 1 == MAX_RETRIES {
        RetryStep::GiveUp(
            CardDavError::RetriesExhausted {
                attempts: MAX_RETRIES,
                retry_after: Some(spec_wait_ms(attempt, retry_after)),
            },
        )
    } else {
        RetryStep::Wait(spec_wait_ms(attempt, retry_after))
    }
}

pub fn retry_step(attempt: u32, status: u16, retry_after: Option<&str>) -> (r: RetryStep)
    requires
        attempt < MAX_RETRIES,
    ensures
        r == spec_retry_step(attempt, status, opt_str(retry_after)),
{
    if !(status == 429 || status == 503) {
        return RetryStep::Deliver;
    }
    let wait = match retry_after_delay(retry_after) {
        Some(s) => s * 1000,
        None => backoff(attempt),
    };
    if attempt + 1 == MAX_RETRIES {
        RetryStep::GiveUp(CardDavError::RetriesExhausted { attempts: MAX_RETRIES, retry_after: Some(wait) })
    } else {
        RetryStep::Wait(wait)
    }
}

/// Throttling never waits more than 30 s, and the last attempt gives up rather than
/// waiting.
pub proof fn law_retry_bounded(attempt: u32, status: u16, retry_after: Option<Seq<char>>)
    requires
        attempt < MAX_RETRIES,
    ensures
        spec_retry_step(attempt, status, retry_after) matches RetryStep::Wait(ms) ==> (ms <= 30000
            && attempt + 1 < MAX_RETRIES),
        throttled(status) && attempt + 1 == MAX_RETRIES ==> spec_retry_step(
            attempt,
            status,
            retry_after,
        ) is GiveUp,
        !throttled(status) ==> spec_retry_step(attempt, status, retry_after) is Deliver,
{
    let e: nat = if attempt < 5 { attempt as nat } else { 5 };
    assert(pow2(e) <= 32) by {
        reveal_with_fuel(pow2, 6);
    }
}


// ---------------------------------------------------------------------------
// statuses

/// The reason phrase that the `http` crate gives a status code, where it knows one.
pub uninterp spec fn http_reason(code: u16) -> Option<Seq<char>>;

/// Calls `http::StatusCode::from_u16` and `canonical_reason` (re-exported by reqwest);
/// the phrase is named by `http_reason`.
#[verifier::external_body]
fn canonical_reason(code: u16) -> (r: Option<&'static str>)
    ensures
        match http_reason(code) {
            Some(t) => r matches Some(s) && s@ == t,
            None => r is None,
        },
{
    match reqwest::StatusCode::from_u16(code) {
        Ok(s) => s.canonical_reason(),
        Err(_) => None,
    }
}

pub open spec fn is_success(status: u16) -> bool {
    200 <= status <= 299
}

/// The error for an unexpected status: 401 and 412 have their own; any other carries the
/// code, the URL and the reason phrase (or `sin motivo`).
pub open spec fn is_status_error(e: CardDavError, status: u16, url: Seq<char>) -> bool {
    if status == 401 {
        e matches CardDavError::Unauthorized(u) && u@ == url
    } else if status == 412 {
        e matches CardDavError::PreconditionFailed { url: u, etag } && u@ == url && etag@.len() == 0
    } else {
        e matches CardDavError::HttpStatus { status: s, url: u, detail } && s == status && u@
            == url && detail@ == match http_reason(status) {
            Some(t) => t,
            None => "sin motivo"@,
        }
    }
}

pub fn status_error(status: u16, url: &DavUrl) -> (e: CardDavError)
    ensures
        is_status_error(e, status, url@.serialization),
{
    let u = String::from_str(url.as_str());
    if status == 401 {
        return CardDavError::Unauthorized(u);
    }
    if status == 412 {
        return CardDavError::PreconditionFailed { url: u, etag: String::new() };
    }
    let detail = match canonical_reason(status) {
        Some(r) => String::from_str(r),
        None => String::from_str("sin motivo"),
    };
    CardDavError::HttpStatus { status, url: u, detail }
}

/// A PROPFIND answer must be 207 or 2xx; 401 is reported as such.
pub fn expect_dav_ok(status: u16, url: &DavUrl) -> (r: Result<(), CardDavError>)
    ensures
        status == 401 ==> (r matches Err(CardDavError::Unauthorized(u)) && u@ == url@.serialization),
        status != 401 ==> (r is Ok <==> (status == 207 || is_success(status))),
        r matches Err(e) ==> is_status_error(e, status, url@.serialization),
{
    if status == 401 {
        return Err(CardDavError::Unauthorized(String::from_str(url.as_str())));
    }
    if status == 207 || (200 <= status && status <= 299) {
        return Ok(());
    }
    Err(status_error(status, url))
}

/// A GET of a vCard must answer 2xx.
pub fn expect_get_ok(status: u16, url: &DavUrl) -> (r: Result<(), CardDavError>)
    ensures
        r is Ok <==> is_success(status),
        r matches Err(e) ==> is_status_error(e, status, url@.serialization),
{
    if 200 <= status && status <= 299 {
        return Ok(());
    }
    Err(status_error(status, url))
}

// ---------------------------------------------------------------------------
// results

/// A remote addressbook.
#[derive(Debug)]
pub struct Addressbook {
    pub url: DavUrl,
    pub displayname: Option<String>,
    pub etag: Option<String>,
    pub ctag: Option<String>,
    pub sync_token: Option<String>,
}

pub struct AddressbookView {
    pub url: UrlView,
    pub displayname: Option<Seq<char>>,
    pub etag: Option<Seq<char>>,
    pub ctag: Option<Seq<char>>,
    pub sync_token: Option<Seq<char>>,
}

impl View for Addressbook {
    type V = AddressbookView;

    open spec fn view(&self) -> AddressbookView {
        AddressbookView {
            url: self.url@,
            displayname: opt_view(self.displayname),
            etag: opt_view(self.etag),
            ctag: opt_view(self.ctag),
            sync_token: opt_view(self.sync_token),
        }
    }
}

pub fn clone_opt(o: &Option<String>) -> (r: Option<String>)
    ensures
        opt_view(r) == opt_view(*o),
{
    match o {
        Some(s) => Some(String::from_str(s.as_str())),
        None => None,
    }
}

impl Clone for Addressbook {
    fn clone(&self) -> (r: Self)
        ensures
            r@ == self@,
    {
        Addressbook {
            url: self.url.clone(),
            displayname: clone_opt(&self.displayname),
            etag: clone_opt(&self.etag),
            ctag: clone_opt(&self.ctag),
            sync_token: clone_opt(&self.sync_token),
        }
    }
}

/// A downloaded vCard, as the server sent it.
#[derive(Debug)]
pub struct CardObject {
    pub href: DavUrl,
    pub etag: Option<String>,
    pub vcard: String,
}

/// What discovery (RFC 6764 + 6352) found.
#[derive(Debug)]
pub struct Discovery {
    pub dav_root: DavUrl,
    pub principal: Option<DavUrl>,
    pub home_set: Option<DavUrl>,
    pub addressbooks: Vec<Addressbook>,
}

/// A pull: the addressbook and its vCards (the category filter applied client-side).
#[derive(Debug)]
pub struct PullResult {
    pub addressbook: Addressbook,
    pub cards: Vec<CardObject>,
}

pub open spec fn card_texts(cards: Seq<CardObject>) -> Seq<Seq<char>> {
    cards.map_values(|c: CardObject| c.vcard@)
}

/// The trimmed, non-empty vCards `cards[..n]`, each ended by a newline.
pub open spec fn vcf_upto(cards: Seq<Seq<char>>, n: int) -> Seq<char>
    decreases n,
{
    if n <= 0 {
        Seq::empty()
    } else {
        let rest = vcf_upto(cards, n - 1);
        let b = trim(cards[n - 1]);
        if b.len() == 0 {
            rest
        } else if b.last() == '\n' {
            rest + b
        } else {
            rest + b + seq!['\n']
        }
    }
}

impl PullResult {
    /// The vCards as one VCF document.
    pub fn concatenated_vcf(&self) -> (r: String)
        ensures
            r@ == vcf_upto(card_texts(self.cards@), self.cards@.len() as int),
    {
        let ghost texts = card_texts(self.cards@);
        let mut out: Vec<char> = Vec::new();
        let mut i: usize = 0;
        while i < self.cards.len()
            invariant
                i <= self.cards@.len(),
                texts == card_texts(self.cards@),
                out@ == vcf_upto(texts, i as int),
            decreases self.cards.len() - i,
        {
            let c = chars_of(self.cards[i].vcard.as_str());
            assert(c@ == texts[i as int]);
            let body = trim_chars(&c);
            if body.len() > 0 {
                extend_chars(&mut out, &body);
                if body[body.len() - 1] != '\n' {
                    out.push('\n');
                }
            }
            i += 1;
        }
        string_of(&out)
    }
}

/// A collection's change markers, for watching.
#[derive(Debug)]
pub struct SyncState {
    pub addressbook: DavUrl,
    pub ctag: Option<String>,
    pub sync_token: Option<String>,
    pub etag: Option<String>,
}

/// The marker that stands for the collection's state: sync-token, else CTag, else ETag,
/// else empty.
pub open spec fn spec_fingerprint(sync_token: Option<Seq<char>>, ctag: Option<Seq<char>>, etag: Option<Seq<char>>) -> Seq<char> {
    match sync_token {
        Some(t) => t,
        None => match ctag {
            Some(c) => c,
            None => match etag {
                Some(e) => e,
                None => Seq::empty(),
            },
        },
    }
}

impl SyncState {
    pub open spec fn fingerprint_view(&self) -> Seq<char> {
        spec_fingerprint(opt_view(self.sync_token), opt_view(self.ctag), opt_view(self.etag))
    }

    /// A stable marker: sync-token > CTag > ETag.
    pub fn fingerprint(&self) -> (r: String)
        ensures
            r@ == self.fingerprint_view(),
    {
        match &self.sync_token {
            Some(t) => String::from_str(t.as_str()),
            None => match &self.ctag {
                Some(c) => String::from_str(c.as_str()),
                None => match &self.etag {
                    Some(e) => String::from_str(e.as_str()),
                    None => String::new(),
                },
            },
        }
    }

    /// The remote marker differs from `previous`'s.
    pub fn changed_from(&self, previous: &Self) -> (b: bool)
        ensures
            b == (self.fingerprint_view() != previous.fingerprint_view()),
    {
        let a = self.fingerprint();
        let p = previous.fingerprint();
        let ac = chars_of(a.as_str());
        let pc = chars_of(p.as_str());
        !chars_eq(&ac, &pc)
    }
}

/// A state never differs from itself, and difference does not depend on the order.
pub proof fn law_changed_from(a: SyncState, b: SyncState)
    ensures
        !(a.fingerprint_view() != a.fingerprint_view()),
        (a.fingerprint_view() != b.fingerprint_view()) == (b.fingerprint_view()
            != a.fingerprint_view()),
{
}

/// The answer to a PUT or DELETE (never last-write-wins).
#[derive(Debug)]
pub struct WriteResult {
    pub href: DavUrl,
    pub etag: Option<String>,
    pub status: u16,
}

/// How a PUT or DELETE answer is read: 412 is a conflict (nothing was overwritten), 401
/// is reported as such, any other status outside 2xx is an error; on success the new
/// `ETag` header, unquoted.
pub fn write_outcome(status: u16, href: DavUrl, etag_for_error: &str, etag_header: Option<&str>) -> (r: Result<WriteResult, CardDavError>)
    ensures
        status == 412 ==> (r matches Err(CardDavError::PreconditionFailed { url, etag }) && url@
            == href@.serialization && etag@ == etag_for_error@),
        status == 401 ==> (r matches Err(CardDavError::Unauthorized(u)) && u@ == href@.serialization),
        status != 412 && status != 401 && !is_success(status) ==> (r matches Err(e)
            && is_status_error(e, status, href@.serialization)),
        status != 412 && status != 401 && is_success(status) ==> (r matches Ok(w) && w.href@
            == href@ && w.status == status && opt_view(w.etag) == match opt_str(etag_header) {
            Some(h) => Some(spec_unquote_header_etag(h)),
            None => None,
        }),
{
    if status == 412 {
        return Err(CardDavError::PreconditionFailed {
            url: String::from_str(href.as_str()),
            etag: String::from_str(etag_for_error),
        });
    }
    if status == 401 {
        return Err(CardDavError::Unauthorized(String::from_str(href.as_str())));
    }
    if !(200 <= status && status <= 299) {
        return Err(status_error(status, &href));
    }
    let etag = match etag_header {
        Some(h) => Some(unquote_header_etag(h)),
        None => None,
    };
    Ok(WriteResult { href, etag, status })
}


// ---------------------------------------------------------------------------
// reading PROPFIND answers

pub open spec fn book_of(url: UrlView, r: DavResponseView) -> AddressbookView {
    AddressbookView {
        url,
        displayname: r.displayname,
        etag: r.etag,
        ctag: r.ctag,
        sync_token: r.sync_token,
    }
}

pub open spec fn books_view(v: Seq<Addressbook>) -> Seq<AddressbookView> {
    v.map_values(|b: Addressbook| b@)
}

/// The addressbooks among `rs[..n]`, listed under `home`: each href resolved against
/// `home` and given a trailing slash; the first href that does not resolve stops the
/// listing with its outcome.
pub open spec fn books_upto(home: UrlView, rs: Seq<DavResponseView>, n: int) -> Result<Seq<AddressbookView>, ResolveOutcome>
    decreases n,
{
    if n <= 0 {
        Ok(Seq::empty())
    } else {
        match books_upto(home, rs, n - 1) {
            Err(o) => Err(o),
            Ok(v) => if !rs[n - 1].is_addressbook {
                Ok(v)
            } else {
                match spec_resolve(home, rs[n - 1].href, false) {
                    ResolveOutcome::Resolved(u) => Ok(v.push(book_of(spec_with_slash(u), rs[n - 1]))),
                    o => Err(o),
                }
            },
        }
    }
}

proof fn lemma_books_err_sticks(home: UrlView, rs: Seq<DavResponseView>, m: int, n: int)
    requires
        0 <= m <= n,
        books_upto(home, rs, m) is Err,
    ensures
        books_upto(home, rs, n) == books_upto(home, rs, m),
    decreases n - m,
{
    if m < n {
        lemma_books_err_sticks(home, rs, m, n - 1);
    }
}

/// The error that a resolve outcome stands for.
pub open spec fn err_matches(e: CardDavError, o: ResolveOutcome) -> bool {
    outcome_matches(Err::<DavUrl, CardDavError>(e), o)
}

/// The addressbooks listed in a PROPFIND (depth 1) of `home`.
pub fn addressbooks_from(home: &DavUrl, responses: &Vec<DavResponse>) -> (r: Result<Vec<Addressbook>, CardDavError>)
    ensures
        match books_upto(home@, responses_view(responses@), responses@.len() as int) {
            Ok(v) => r matches Ok(b) && books_view(b@) == v,
            Err(o) => r matches Err(e) && err_matches(e, o),
        },
{
    let ghost rv = responses_view(responses@);
    let mut out: Vec<Addressbook> = Vec::new();
    assert(books_view(out@) =~= Seq::<AddressbookView>::empty());
    let mut i: usize = 0;
    while i < responses.len()
        invariant
            i <= responses@.len(),
            rv == responses_view(responses@),
            books_upto(home@, rv, i as int) == Ok::<Seq<AddressbookView>, ResolveOutcome>(books_view(out@)),
        decreases responses.len() - i,
    {
        let resp = &responses[i];
        assert(rv[i as int] == resp@);
        if resp.is_addressbook {
            match resolve_href(home, resp.href.as_str()) {
                Ok(u) => {
                    let b = Addressbook {
                        url: ensure_trailing_slash(&u),
                        displayname: clone_opt(&resp.displayname),
                        etag: clone_opt(&resp.etag),
                        ctag: clone_opt(&resp.ctag),
                        sync_token: clone_opt(&resp.sync_token),
                    };
                    let ghost prev = out@;
                    out.push(b);
                    assert(books_view(out@) =~= books_view(prev).push(b@));
                },
                Err(e) => {
                    proof {
                        lemma_books_err_sticks(home@, rv, i + 1, responses@.len() as int);
                    }
                    return Err(e);
                },
            }
        }
        i += 1;
    }
    Ok(out)
}

/// A vCard to download.
#[derive(Debug)]
pub struct CardTarget {
    pub href: DavUrl,
    pub etag: Option<String>,
}

pub open spec fn targets_view(v: Seq<CardTarget>) -> Seq<(UrlView, Option<Seq<char>>)> {
    v.map_values(|t: CardTarget| (t.href@, opt_view(t.etag)))
}

/// The objects among `rs[..n]` that look like vCards, resolved against the addressbook
/// (the addressbook itself left out); the first href that does not resolve stops the
/// listing with its outcome.
pub open spec fn targets_upto(book: UrlView, rs: Seq<DavResponseView>, n: int) -> Result<Seq<(UrlView, Option<Seq<char>>)>, ResolveOutcome>
    decreases n,
{
    if n <= 0 {
        Ok(Seq::empty())
    } else {
        match targets_upto(book, rs, n - 1) {
            Err(o) => Err(o),
            Ok(v) => if !spec_looks_like_vcard(rs[n - 1]) {
                Ok(v)
            } else {
                match spec_resolve(book, rs[n - 1].href, false) {
                    ResolveOutcome::Resolved(u) => if spec_same_collection(u, book) {
                        Ok(v)
                    } else {
                        Ok(v.push((u, rs[n - 1].etag)))
                    },
                    o => Err(o),
                }
            },
        }
    }
}

proof fn lemma_targets_err_sticks(book: UrlView, rs: Seq<DavResponseView>, m: int, n: int)
    requires
        0 <= m <= n,
        targets_upto(book, rs, m) is Err,
    ensures
        targets_upto(book, rs, n) == targets_upto(book, rs, m),
    decreases n - m,
{
    if m < n {
        lemma_targets_err_sticks(book, rs, m, n - 1);
    }
}

/// The vCards that a PROPFIND (depth 1) of an addressbook lists.
pub fn card_targets(book: &DavUrl, responses: &Vec<DavResponse>) -> (r: Result<Vec<CardTarget>, CardDavError>)
    ensures
        match targets_upto(book@, responses_view(responses@), responses@.len() as int) {
            Ok(v) => r matches Ok(t) && targets_view(t@) == v,
            Err(o) => r matches Err(e) && err_matches(e, o),
        },
{
    let ghost rv = responses_view(responses@);
    let mut out: Vec<CardTarget> = Vec::new();
    assert(targets_view(out@) =~= Seq::<(UrlView, Option<Seq<char>>)>::empty());
    let mut i: usize = 0;
    while i < responses.len()
        invariant
            i <= responses@.len(),
            rv == responses_view(responses@),
            targets_upto(book@, rv, i as int) == Ok::<Seq<(UrlView, Option<Seq<char>>)>, ResolveOutcome>(targets_view(out@)),
        decreases responses.len() - i,
    {
        let resp = &responses[i];
        assert(rv[i as int] == resp@);
        if looks_like_vcard(resp) {
            match resolve_href(book, resp.href.as_str()) {
                Ok(u) => {
                    if !same_collection(&u, book) {
                        let t = CardTarget { href: u, etag: clone_opt(&resp.etag) };
                        let ghost prev = out@;
                        out.push(t);
                        assert(targets_view(out@) =~= targets_view(prev).push(
                            (t.href@, opt_view(t.etag)),
                        ));
                    }
                },
                Err(e) => {
                    proof {
                        lemma_targets_err_sticks(book@, rv, i + 1, responses@.len() as int);
                    }
                    return Err(e);
                },
            }
        }
        i += 1;
    }
    Ok(out)
}

/// A downloaded body is kept unless it is blank.
pub fn keep_card_body(vcard: &str) -> (b: bool)
    ensures
        b == (trim(vcard@).len() > 0),
{
    let c = chars_of(vcard);
    trim_chars(&c).len() > 0
}

pub open spec fn first_principal(rs: Seq<DavResponseView>, i: int) -> Option<Seq<char>>
    decreases rs.len() - i,
{
    if i < 0 || i >= rs.len() {
        None
    } else if rs[i].current_user_principal is Some {
        rs[i].current_user_principal
    } else {
        first_principal(rs, i + 1)
    }
}

pub open spec fn first_home_set(rs: Seq<DavResponseView>, i: int) -> Option<Seq<char>>
    decreases rs.len() - i,
{
    if i < 0 || i >= rs.len() {
        None
    } else if rs[i].addressbook_home_set is Some {
        rs[i].addressbook_home_set
    } else {
        first_home_set(rs, i + 1)
    }
}

/// The `current-user-principal` of a PROPFIND answer, resolved against `url`.
pub fn principal_from(url: &DavUrl, responses: &Vec<DavResponse>) -> (r: Result<DavUrl, CardDavError>)
    ensures
        match first_principal(responses_view(responses@), 0) {
            None => r matches Err(CardDavError::Protocol(m)) && m@ == "current-user-principal ausente"@,
            Some(h) => outcome_matches(r, spec_resolve(url@, h, false)),
        },
{
    let ghost rv = responses_view(responses@);
    let mut i: usize = 0;
    while i < responses.len()
        invariant
            i <= responses@.len(),
            rv == responses_view(responses@),
            first_principal(rv, 0) == first_principal(rv, i as int),
        decreases responses.len() - i,
    {
        assert(rv[i as int] == responses@[i as int]@);
        match &responses[i].current_user_principal {
            Some(h) => {
                return resolve_href(url, h.as_str());
            },
            None => {},
        }
        i += 1;
    }
    Err(CardDavError::Protocol(String::from_str("current-user-principal ausente")))
}

/// The `addressbook-home-set` of a PROPFIND answer, resolved against `url`.
pub fn home_set_from(url: &DavUrl, responses: &Vec<DavResponse>) -> (r: Result<DavUrl, CardDavError>)
    ensures
        match first_home_set(responses_view(responses@), 0) {
            None => r matches Err(CardDavError::Protocol(m)) && m@ == "addressbook-home-set ausente"@,
            Some(h) => outcome_matches(r, spec_resolve(url@, h, false)),
        },
{
    let ghost rv = responses_view(responses@);
    let mut i: usize = 0;
    while i < responses.len()
        invariant
            i <= responses@.len(),
            rv == responses_view(responses@),
            first_home_set(rv, 0) == first_home_set(rv, i as int),
        decreases responses.len() - i,
    {
        assert(rv[i as int] == responses@[i as int]@);
        match &responses[i].addressbook_home_set {
            Some(h) => {
                return resolve_href(url, h.as_str());
            },
            None => {},
        }
        i += 1;
    }
    Err(CardDavError::Protocol(String::from_str("addressbook-home-set ausente")))
}

pub open spec fn first_or_bare(rs: Seq<DavResponseView>) -> DavResponseView {
    if rs.len() > 0 {
        rs[0]
    } else {
        bare_response(Seq::empty())
    }
}

/// An addressbook described by a PROPFIND (depth 0) of its URL: the first response, or
/// nothing beyond the URL.
pub fn describe_from(url: DavUrl, responses: &Vec<DavResponse>) -> (b: Addressbook)
    ensures
        b@ == book_of(url@, first_or_bare(responses_view(responses@))),
{
    if responses.len() == 0 {
        return Addressbook { url, displayname: None, etag: None, ctag: None, sync_token: None };
    }
    let r = &responses[0];
    assert(responses_view(responses@)[0] == r@);
    Addressbook {
        url,
        displayname: clone_opt(&r.displayname),
        etag: clone_opt(&r.etag),
        ctag: clone_opt(&r.ctag),
        sync_token: clone_opt(&r.sync_token),
    }
}

/// A collection's markers from a PROPFIND (depth 0): the first response, or none.
pub fn sync_state_from(url: DavUrl, responses: &Vec<DavResponse>) -> (s: SyncState)
    ensures
        s.addressbook@ == url@,
        opt_view(s.ctag) == first_or_bare(responses_view(responses@)).ctag,
        opt_view(s.sync_token) == first_or_bare(responses_view(responses@)).sync_token,
        opt_view(s.etag) == first_or_bare(responses_view(responses@)).etag,
{
    if responses.len() == 0 {
        return SyncState { addressbook: url, ctag: None, sync_token: None, etag: None };
    }
    let r = &responses[0];
    assert(responses_view(responses@)[0] == r@);
    SyncState {
        addressbook: url,
        ctag: clone_opt(&r.ctag),
        sync_token: clone_opt(&r.sync_token),
        etag: clone_opt(&r.etag),
    }
}

// ---------------------------------------------------------------------------
// choosing the addressbook

pub open spec fn first_same_from(books: Seq<AddressbookView>, w: UrlView, i: int) -> Option<int>
    decreases books.len() - i,
{
    if i < 0 || i >= books.len() {
        None
    } else if spec_same_collection(books[i].url, w) {
        Some(i)
    } else {
        first_same_from(books, w, i + 1)
    }
}

/// The addressbook to pull: the one wanted (matched up to trailing slashes, or taken as
/// given with a slash); with none wanted, the only one listed.
pub fn select_addressbook(books: &Vec<Addressbook>, wanted: Option<&DavUrl>, server: &DavUrl) -> (r: Result<Addressbook, CardDavError>)
    ensures
        match wanted {
            Some(w) => match first_same_from(books_view(books@), w@, 0) {
                Some(i) => r matches Ok(b) && b@ == books_view(books@)[i],
                None => r matches Ok(b) && b@ == book_of(spec_with_slash(w@), bare_response(Seq::empty())),
            },
            None => if books@.len() == 0 {
                r matches Err(CardDavError::NoAddressbook(s)) && s@ == server@.serialization
            } else if books@.len() == 1 {
                r matches Ok(b) && b@ == books_view(books@)[0]
            } else {
                r matches Err(CardDavError::AmbiguousAddressbook { count }) && count == books@.len()
            },
        },
{
    let ghost bv = books_view(books@);
    match wanted {
        Some(w) => {
            let mut i: usize = 0;
            while i < books.len()
                invariant
                    i <= books@.len(),
                    bv == books_view(books@),
                    wanted == Some(w),
                    first_same_from(bv, w@, 0) == first_same_from(bv, w@, i as int),
                decreases books.len() - i,
            {
                assert(bv[i as int] == books@[i as int]@);
                if same_collection(&books[i].url, w) {
                    let b = books[i].clone();
                    assert(b@ == bv[i as int]);
                    assert(first_same_from(bv, w@, i as int) == Some(i as int));
                    return Ok(b);
                }
                i += 1;
            }
            Ok(Addressbook {
                url: ensure_trailing_slash(w),
                displayname: None,
                etag: None,
                ctag: None,
                sync_token: None,
            })
        },
        None => {
            if books.len() == 0 {
                Err(CardDavError::NoAddressbook(String::from_str(server.as_str())))
            } else if books.len() == 1 {
                assert(bv[0] == books@[0]@);
                Ok(books[0].clone())
            } else {
                Err(CardDavError::AmbiguousAddressbook { count: books.len() })
            }
        },
    }
}

/// The collection whose markers are watched: the one wanted, else the only one listed;
/// with a trailing slash, and under the URL policy.
pub fn sync_target(books: &Vec<Addressbook>, wanted: Option<&DavUrl>, server: &DavUrl) -> (r: Result<DavUrl, CardDavError>)
    ensures
        match wanted {
            Some(w) => if spec_server_url_ok(spec_with_slash(w@)) {
                r matches Ok(u) && u@ == spec_with_slash(w@)
            } else {
                r matches Err(e) && url_refusal(e, spec_with_slash(w@))
            },
            None => if books@.len() == 0 {
                r matches Err(CardDavError::NoAddressbook(s)) && s@ == server@.serialization
            } else if books@.len() == 1 {
                let u = spec_with_slash(books_view(books@)[0].url);
                if spec_server_url_ok(u) {
                    r matches Ok(x) && x@ == u
                } else {
                    r matches Err(e) && url_refusal(e, u)
                }
            } else {
                r matches Err(CardDavError::AmbiguousAddressbook { count }) && count == books@.len()
            },
        },
{
    let url = match wanted {
        Some(w) => ensure_trailing_slash(w),
        None => {
            if books.len() == 0 {
                return Err(CardDavError::NoAddressbook(String::from_str(server.as_str())));
            } else if books.len() == 1 {
                assert(books_view(books@)[0] == books@[0]@);
                ensure_trailing_slash(&books[0].url)
            } else {
                return Err(CardDavError::AmbiguousAddressbook { count: books.len() });
            }
        },
    };
    match validate_server_url(&url) {
        Ok(()) => Ok(url),
        Err(e) => Err(e),
    }
}


// ---------------------------------------------------------------------------
// redirects

/// The hosts differ (ASCII case aside); a missing host crosses nothing.
pub open spec fn crosses_host(start: Option<Seq<char>>, now: Option<Seq<char>>) -> bool {
    match start {
        Some(a) => match now {
            Some(b) => !eq_ignore_ascii_case(a, b),
            None => false,
        },
        None => false,
    }
}

/// `http::HeaderValue::to_str` accepts visible ASCII and tab.
pub open spec fn visible_ascii(b: Seq<u8>) -> bool {
    forall|i: int| 0 <= i < b.len() ==> (32 <= #[trigger] b[i] < 127 || b[i] == 9)
}

pub open spec fn ascii_text(b: Seq<u8>) -> Seq<char> {
    b.map_values(|x: u8| x as char)
}

/// The text of a header value that is visible ASCII.
fn ascii_of(b: &[u8]) -> (r: Option<Vec<char>>)
    ensures
        visible_ascii(b@) ==> (r matches Some(l) && l@ == ascii_text(b@)),
        !visible_ascii(b@) ==> r is None,
{
    let mut loc: Vec<char> = Vec::new();
    let mut i: usize = 0;
    while i < b.len()
        invariant
            i <= b@.len(),
            loc@ == ascii_text(b@.take(i as int)),
            forall|k: int| 0 <= k < i ==> (32 <= #[trigger] b@[k] < 127 || b@[k] == 9),
        decreases b.len() - i,
    {
        let x = b[i];
        if !(32 <= x && x < 127 || x == 9) {
            return None;
        }
        loc.push(x as char);
        assert(ascii_text(b@.take(i + 1)) =~= ascii_text(b@.take(i as int)).push(x as char));
        i += 1;
    }
    assert(b@.take(b@.len() as int) =~= b@);
    Some(loc)
}

/// One request while redirects are followed: where it goes now, the host it started
/// from, and how many redirects were taken.
pub struct Redirects {
    url: DavUrl,
    start_host: Option<String>,
    hops: usize,
    allow_cross_host: bool,
    send_auth: bool,
}

impl Redirects {
    #[verifier::type_invariant]
    spec fn hops_bounded(self) -> bool {
        self.hops <= MAX_REDIRECTS
    }

    pub closed spec fn url_view(self) -> UrlView {
        self.url@
    }

    pub closed spec fn start_view(self) -> Option<Seq<char>> {
        opt_view(self.start_host)
    }

    pub closed spec fn hops_view(self) -> nat {
        self.hops as nat
    }

    pub closed spec fn allows_cross_host(self) -> bool {
        self.allow_cross_host
    }

    pub closed spec fn sends_auth(self) -> bool {
        self.send_auth
    }

    /// A request to `url`; `allow_cross_host` only for `.well-known`, `send_auth` for
    /// Basic credentials.
    pub fn new(url: DavUrl, allow_cross_host: bool, send_auth: bool) -> (r: Self)
        ensures
            r.url_view() == url@,
            r.start_view() == url@.host,
            r.hops_view() == 0,
            r.allows_cross_host() == allow_cross_host,
            r.sends_auth() == send_auth,
    {
        let start_host = match url.host_str() {
            Some(h) => Some(String::from_str(h)),
            None => None,
        };
        Redirects { url, start_host, hops: 0, allow_cross_host, send_auth }
    }

    pub fn url(&self) -> (r: &DavUrl)
        ensures
            r@ == self.url_view(),
    {
        &self.url
    }

    pub fn hops(&self) -> (r: usize)
        ensures
            r == self.hops_view(),
            r <= MAX_REDIRECTS,
    {
        proof {
            use_type_invariant(self);
        }
        self.hops
    }

    /// Before each request: the URL policy, then the host rule. `Ok` says whether the
    /// credentials go with it (never to another host).
    pub fn before_send(&self) -> (r: Result<bool, CardDavError>)
        ensures
            !spec_server_url_ok(self.url_view()) ==> (r matches Err(e) && url_refusal(
                e,
                self.url_view(),
            )),
            spec_server_url_ok(self.url_view()) && crosses_host(self.start_view(), self.url_view().host)
                && !self.allows_cross_host() ==> (r matches Err(CardDavError::Protocol(m)) && m@
                == "redirección fuera de origen bloqueada: "@ + self.url_view().serialization),
            spec_server_url_ok(self.url_view()) && !(crosses_host(self.start_view(), self.url_view().host)
                && !self.allows_cross_host()) ==> r == Ok::<bool, CardDavError>(
                self.sends_auth() && !crosses_host(self.start_view(), self.url_view().host),
            ),
            r == Ok::<bool, CardDavError>(true) ==> !crosses_host(self.start_view(), self.url_view().host),
    {
        match validate_server_url(&self.url) {
            Ok(()) => {},
            Err(e) => {
                return Err(e);
            },
        }
        let cross = match &self.start_host {
            Some(a) => match self.url.host_str() {
                Some(b) => !eq_ignore_case(&chars_of(a.as_str()), &chars_of(b)),
                None => false,
            },
            None => false,
        };
        if cross && !self.allow_cross_host {
            let mut m = chars_of("redirección fuera de origen bloqueada: ");
            extend_chars(&mut m, &chars_of(self.url.as_str()));
            return Err(CardDavError::Protocol(string_of(&m)));
        }
        Ok(self.send_auth && !cross)
    }

    /// After an answer with `status` (and its `Location` header, as bytes): `Ok(false)`
    /// hands the answer over; `Ok(true)` follows the redirect, which now is the URL.
    pub fn after_answer(&mut self, status: u16, location: Option<&[u8]>) -> (r: Result<bool, CardDavError>)
        ensures
            final(self).start_view() == old(self).start_view(),
            final(self).allows_cross_host() == old(self).allows_cross_host(),
            final(self).sends_auth() == old(self).sends_auth(),
            !(300 <= status <= 399) ==> r == Ok::<bool, CardDavError>(false) && final(self).url_view()
                == old(self).url_view() && final(self).hops_view() == old(self).hops_view(),
            300 <= status <= 399 && old(self).hops_view() + 1 > MAX_REDIRECTS ==> (r matches Err(
                CardDavError::Protocol(m),
            ) && m@ == "demasiadas redirecciones desde "@ + old(self).url_view().serialization),
            300 <= status <= 399 && old(self).hops_view() + 1 <= MAX_REDIRECTS ==> match location {
                None => r matches Err(CardDavError::Protocol(m)) && m@
                    == "redirección sin Location desde "@ + old(self).url_view().serialization,
                Some(b) => if !visible_ascii(b@) {
                    r matches Err(CardDavError::Protocol(m)) && m@ == "Location no ASCII"@
                } else {
                    match spec_resolve(
                        old(self).url_view(),
                        ascii_text(b@),
                        old(self).allows_cross_host(),
                    ) {
                        ResolveOutcome::Resolved(u) => r == Ok::<bool, CardDavError>(true)
                            && final(self).url_view() == u
                            && final(self).hops_view() == old(self).hops_view() + 1,
                        o => r matches Err(e) && err_matches(e, o),
                    }
                },
            },
    {
        if !(300 <= status && status <= 399) {
            return Ok(false);
        }
        if self.hops >= MAX_REDIRECTS {
            let mut m = chars_of("demasiadas redirecciones desde ");
            extend_chars(&mut m, &chars_of(self.url.as_str()));
            return Err(CardDavError::Protocol(string_of(&m)));
        }
        let b = match location {
            Some(b) => b,
            None => {
                let mut m = chars_of("redirección sin Location desde ");
                extend_chars(&mut m, &chars_of(self.url.as_str()));
                return Err(CardDavError::Protocol(string_of(&m)));
            },
        };
        let loc = match ascii_of(b) {
            Some(l) => l,
            None => {
                return Err(CardDavError::Protocol(String::from_str("Location no ASCII")));
            },
        };
        let ls = string_of(&loc);
        let next = resolve_redirect(&self.url, ls.as_str(), self.allow_cross_host);
        match next {
            Ok(u) => {
                self.url = u;
                self.hops = self.hops + 1;
                Ok(true)
            },
            Err(e) => Err(e),
        }
    }
}

/// A redirect chain that may not change host never leaves the origin it started on: each
/// step that resolves stays on the origin of the previous URL, hence of the first.
pub proof fn law_redirect_chain_keeps_origin(start: UrlView, current: UrlView, location: Seq<char>)
    requires
        spec_same_origin(start, current),
    ensures
        spec_resolve(current, location, false) matches ResolveOutcome::Resolved(u) ==> spec_same_origin(
            start,
            u,
        ),
{
    crate::url_policy::law_href_stays_in_origin(current, location);
    match spec_resolve(current, location, false) {
        ResolveOutcome::Resolved(u) => {
            crate::url_policy::law_same_origin_equivalence(start, current, u);
        },
        _ => {},
    }
}

// ---------------------------------------------------------------------------
// what is sent

pub open spec fn header_views(v: Seq<(String, String)>) -> Seq<(Seq<char>, Seq<char>)> {
    v.map_values(|p: (String, String)| (p.0@, p.1@))
}

pub open spec fn has_content_type(h: Seq<(Seq<char>, Seq<char>)>) -> bool {
    exists|i: int| 0 <= i < h.len() && eq_ignore_ascii_case(#[trigger] h[i].0, "content-type"@)
}

/// The headers of a request: `Depth` when given, the caller's, and an XML content type
/// for a body when the caller set none.
pub open spec fn spec_request_headers(depth: Option<Seq<char>>, has_body: bool, extra: Seq<(Seq<char>, Seq<char>)>) -> Seq<(Seq<char>, Seq<char>)> {
    let d = match depth {
        Some(x) => seq![("Depth"@, x)],
        None => Seq::empty(),
    };
    let ct = if has_body && !has_content_type(extra) {
        seq![("Content-Type"@, "application/xml; charset=utf-8"@)]
    } else {
        Seq::empty()
    };
    d + extra + ct
}

fn pair(k: &str, v: &str) -> (p: (String, String))
    ensures
        p.0@ == k@,
        p.1@ == v@,
{
    (String::from_str(k), String::from_str(v))
}

pub fn request_headers(depth: Option<&str>, has_body: bool, extra: &Vec<(String, String)>) -> (r: Vec<(String, String)>)
    ensures
        header_views(r@) == spec_request_headers(opt_str(depth), has_body, header_views(extra@)),
{
    let ghost ev = header_views(extra@);
    let mut out: Vec<(String, String)> = Vec::new();
    match depth {
        Some(d) => {
            out.push(pair("Depth", d));
        },
        None => {},
    }
    let ghost head = header_views(out@);
    let mut has_ct = false;
    let mut i: usize = 0;
    while i < extra.len()
        invariant
            i <= extra@.len(),
            ev == header_views(extra@),
            header_views(out@) == head + ev.take(i as int),
            has_ct == exists|k: int| 0 <= k < i && eq_ignore_ascii_case(#[trigger] ev[k].0, "content-type"@),
        decreases extra.len() - i,
    {
        let (k, v) = &extra[i];
        assert(ev[i as int] == (k@, v@));
        let is_ct = eq_ignore_case(&chars_of(k.as_str()), &chars_of("content-type"));
        proof {
            if is_ct {
                assert(eq_ignore_ascii_case(ev[i as int].0, "content-type"@));
            }
        }
        if is_ct {
            has_ct = true;
        }
        let ghost prev = out@;
        out.push(pair(k.as_str(), v.as_str()));
        assert(header_views(out@) =~= header_views(prev).push(ev[i as int]));
        assert(ev.take(i + 1) =~= ev.take(i as int).push(ev[i as int]));
        i += 1;
    }
    assert(ev.take(extra@.len() as int) =~= ev);
    if has_body && !has_ct {
        let ghost prev = out@;
        out.push(pair("Content-Type", "application/xml; charset=utf-8"));
        assert(header_views(out@) =~= header_views(prev).push(("Content-Type"@, "application/xml; charset=utf-8"@)));
    }
    assert(header_views(out@) =~= spec_request_headers(opt_str(depth), has_body, ev));
    out
}

/// The headers and the conflict marker of a PUT or DELETE.
#[derive(Debug)]
pub struct WritePlan {
    pub headers: Vec<(String, String)>,
    /// The precondition reported when the server answers 412.
    pub etag_for_error: String,
}

/// The `If-Match` value for an ETag given by the caller.
pub open spec fn spec_if_match(etag: Seq<char>) -> Seq<char> {
    spec_quote_etag(spec_unquote_header_etag(trim(etag)))
}

/// An update: `If-Match` with a concrete ETag (checked first), then the URL policy.
pub fn plan_put(href: &DavUrl, etag: &str) -> (r: Result<WritePlan, CardDavError>)
    ensures
        !concrete_etag_ok(etag@) ==> r == Err::<WritePlan, CardDavError>(CardDavError::MissingEtag),
        concrete_etag_ok(etag@) && !spec_server_url_ok(href@) ==> (r matches Err(e) && url_refusal(
            e,
            href@,
        )),
        concrete_etag_ok(etag@) && spec_server_url_ok(href@) ==> (r matches Ok(p) && header_views(
            p.headers@,
        ) == seq![("If-Match"@, spec_if_match(etag@)), ("Content-Type"@, "text/vcard; charset=utf-8"@)]
            && p.etag_for_error@ == spec_if_match(etag@)),
{
    let e = match require_concrete_etag(etag) {
        Ok(e) => e,
        Err(x) => {
            return Err(x);
        },
    };
    match validate_server_url(href) {
        Ok(()) => {},
        Err(x) => {
            return Err(x);
        },
    }
    let q = quote_etag(e.as_str());
    let mut headers: Vec<(String, String)> = Vec::new();
    headers.push(pair("If-Match", q.as_str()));
    headers.push(pair("Content-Type", "text/vcard; charset=utf-8"));
    assert(header_views(headers@) =~= seq![("If-Match"@, q@), ("Content-Type"@, "text/vcard; charset=utf-8"@)]);
    Ok(WritePlan { headers, etag_for_error: q })
}

/// A creation: `If-None-Match: *`, so that an existing object is never overwritten.
pub fn plan_create(href: &DavUrl) -> (r: Result<WritePlan, CardDavError>)
    ensures
        !spec_server_url_ok(href@) ==> (r matches Err(e) && url_refusal(e, href@)),
        spec_server_url_ok(href@) ==> (r matches Ok(p) && header_views(p.headers@) == seq![
            ("If-None-Match"@, "*"@),
            ("Content-Type"@, "text/vcard; charset=utf-8"@),
        ] && p.etag_for_error@ == "*"@),
{
    match validate_server_url(href) {
        Ok(()) => {},
        Err(x) => {
            return Err(x);
        },
    }
    let mut headers: Vec<(String, String)> = Vec::new();
    headers.push(pair("If-None-Match", "*"));
    headers.push(pair("Content-Type", "text/vcard; charset=utf-8"));
    assert(header_views(headers@) =~= seq![("If-None-Match"@, "*"@), ("Content-Type"@, "text/vcard; charset=utf-8"@)]);
    Ok(WritePlan { headers, etag_for_error: String::from_str("*") })
}

/// A deletion: `If-Match` with a concrete ETag; never a blind delete.
pub fn plan_delete(href: &DavUrl, etag: &str) -> (r: Result<WritePlan, CardDavError>)
    ensures
        !concrete_etag_ok(etag@) ==> r == Err::<WritePlan, CardDavError>(CardDavError::MissingEtag),
        concrete_etag_ok(etag@) && !spec_server_url_ok(href@) ==> (r matches Err(e) && url_refusal(
            e,
            href@,
        )),
        concrete_etag_ok(etag@) && spec_server_url_ok(href@) ==> (r matches Ok(p) && header_views(
            p.headers@,
        ) == seq![("If-Match"@, spec_if_match(etag@))] && p.etag_for_error@ == spec_if_match(etag@)),
{
    let e = match require_concrete_etag(etag) {
        Ok(e) => e,
        Err(x) => {
            return Err(x);
        },
    };
    match validate_server_url(href) {
        Ok(()) => {},
        Err(x) => {
            return Err(x);
        },
    }
    let q = quote_etag(e.as_str());
    let mut headers: Vec<(String, String)> = Vec::new();
    headers.push(pair("If-Match", q.as_str()));
    assert(header_views(headers@) =~= seq![("If-Match"@, q@)]);
    Ok(WritePlan { headers, etag_for_error: q })
}

/// An `If-Match` that a write sends is never the wildcard: a write only replaces the
/// version the caller saw.
pub proof fn law_if_match_never_wildcard(etag: Seq<char>)
    requires
        concrete_etag_ok(etag),
    ensures
        spec_if_match(etag) != "*"@,
{
    reveal_strlit("*");
    reveal_strlit("\"");
    reveal_strlit("W/");
    reveal_strlit("w/");
    let t = trim(spec_unquote_header_etag(trim(etag)));
    if starts_with(t, "\""@) || starts_with(t, "W/"@) || starts_with(t, "w/"@) {
        assert(t.len() >= 1);
        assert(t[0] == t.take(1)[0]);
        if starts_with(t, "\""@) {
            assert(t.take(1)[0] == '"');
        } else if starts_with(t, "W/"@) {
            assert(t.take(2)[0] == 'W');
            assert(t[0] == t.take(2)[0]);
        } else {
            assert(t.take(2)[0] == 'w');
            assert(t[0] == t.take(2)[0]);
        }
        assert(t[0] != '*');
        assert(t != "*"@);
    } else {
        assert((seq!['"'] + t + seq!['"']).len() >= 2);
    }
}


// ---------------------------------------------------------------------------
// pulling

pub struct CardObjectView {
    pub href: UrlView,
    pub etag: Option<Seq<char>>,
    pub vcard: Seq<char>,
}

impl View for CardObject {
    type V = CardObjectView;

    open spec fn view(&self) -> CardObjectView {
        CardObjectView { href: self.href@, etag: opt_view(self.etag), vcard: self.vcard@ }
    }
}

impl Clone for CardObject {
    fn clone(&self) -> (r: Self)
        ensures
            r@ == self@,
    {
        CardObject {
            href: self.href.clone(),
            etag: clone_opt(&self.etag),
            vcard: String::from_str(self.vcard.as_str()),
        }
    }
}

pub open spec fn cards_view(v: Seq<CardObject>) -> Seq<CardObjectView> {
    v.map_values(|c: CardObject| c@)
}

/// The cards among `cs[..n]` whose `CATEGORIES` match the filter, in order.
pub open spec fn kept_upto(cs: Seq<CardObjectView>, wanted: Seq<Seq<char>>, n: int) -> Seq<CardObjectView>
    decreases n,
{
    if n <= 0 {
        Seq::empty()
    } else {
        let rest = kept_upto(cs, wanted, n - 1);
        if spec_vcard_matches(cs[n - 1].vcard, wanted) {
            rest.push(cs[n - 1])
        } else {
            rest
        }
    }
}

/// The client-side category filter of a pull (an empty filter keeps every card).
pub fn filter_cards(cards: &Vec<CardObject>, categories: &Vec<String>) -> (r: Vec<CardObject>)
    ensures
        cards_view(r@) == kept_upto(cards_view(cards@), string_views(categories@), cards@.len() as int),
{
    let ghost cv = cards_view(cards@);
    let mut out: Vec<CardObject> = Vec::new();
    assert(cards_view(out@) =~= Seq::<CardObjectView>::empty());
    let mut i: usize = 0;
    while i < cards.len()
        invariant
            i <= cards@.len(),
            cv == cards_view(cards@),
            cards_view(out@) == kept_upto(cv, string_views(categories@), i as int),
        decreases cards.len() - i,
    {
        assert(cv[i as int] == cards@[i as int]@);
        if vcard_matches_categories(cards[i].vcard.as_str(), categories.as_slice()) {
            let c = cards[i].clone();
            let ghost prev = out@;
            out.push(c);
            assert(cards_view(out@) =~= cards_view(prev).push(c@));
        }
        i += 1;
    }
    out
}

/// With no category wanted, a pull keeps every card.
pub proof fn law_empty_category_filter_keeps_all(cs: Seq<CardObjectView>, n: int)
    requires
        0 <= n <= cs.len(),
    ensures
        kept_upto(cs, Seq::empty(), n) == cs.take(n),
    decreases n,
{
    if n > 0 {
        law_empty_category_filter_keeps_all(cs, n - 1);
        assert(cs.take(n) =~= cs.take(n - 1).push(cs[n - 1]));
    } else {
        assert(cs.take(0) =~= Seq::<CardObjectView>::empty());
    }
}

/// A pull once its addressbook is selected and that addressbook's cards downloaded: the
/// addressbook, and the downloaded cards that the category filter keeps, in order.
pub fn pull_result(addressbook: Addressbook, downloaded: &Vec<CardObject>, categories: &Vec<String>) -> (r:
    PullResult)
    ensures
        r.addressbook@ == addressbook@,
        cards_view(r.cards@) == kept_upto(
            cards_view(downloaded@),
            string_views(categories@),
            downloaded@.len() as int,
        ),
{
    let cards = filter_cards(downloaded, categories);
    PullResult { addressbook, cards }
}

/// A filtered pull is the plain pull filtered: of the same downloaded cards, a category
/// filter keeps exactly those cards of the unfiltered pull that match it, in their order.
pub proof fn law_filtered_pull_is_plain_pull_filtered(
    downloaded: Seq<CardObjectView>,
    wanted: Seq<Seq<char>>,
)
    ensures
        ({
            let plain = kept_upto(downloaded, Seq::empty(), downloaded.len() as int);
            kept_upto(downloaded, wanted, downloaded.len() as int) == kept_upto(
                plain,
                wanted,
                plain.len() as int,
            )
        }),
{
    law_empty_category_filter_keeps_all(downloaded, downloaded.len() as int);
    assert(downloaded.take(downloaded.len() as int) =~= downloaded);
}

// ---------------------------------------------------------------------------
// discovery

/// The configured server URL and addressbook are both under the URL policy.
pub fn validate_client_config(config: &CardDavConfig) -> (r: Result<(), CardDavError>)
    ensures
        !spec_server_url_ok(config.url@) ==> (r matches Err(e) && url_refusal(e, config.url@)),
        spec_server_url_ok(config.url@) ==> match config.addressbook {
            None => r is Ok,
            Some(a) => if spec_server_url_ok(a@) {
                r is Ok
            } else {
                r matches Err(e) && url_refusal(e, a@)
            },
        },
{
    match validate_server_url(&config.url) {
        Ok(()) => {},
        Err(e) => {
            return Err(e);
        },
    }
    match &config.addressbook {
        Some(a) => validate_server_url(a),
        None => Ok(()),
    }
}

/// `origin_with_slash` as a value: the origin of a URL, slashed and parsed.
pub open spec fn spec_origin_slash(u: UrlView) -> Result<UrlView, Seq<char>> {
    let o = u.origin;
    let s = if o.len() > 0 && o.last() == '/' { o } else { o.push('/') };
    url_parse(s)
}

/// The start of DAV-root discovery: the configured URL with a slash, and its origin.
pub fn dav_root_start(config_url: &DavUrl) -> (r: Result<(DavUrl, DavUrl), CardDavError>)
    ensures
        match spec_origin_slash(spec_with_slash(config_url@)) {
            Ok(o) => r matches Ok((g, x)) && g@ == spec_with_slash(config_url@) && x@ == o,
            Err(m) => r matches Err(CardDavError::InvalidUrl(e)) && e@ == m,
        },
{
    let given = ensure_trailing_slash(config_url);
    match origin_with_slash(&given) {
        Ok(o) => Ok((given, o)),
        Err(e) => Err(e),
    }
}

/// The configured URL is probed first unless it is the bare origin.
pub fn probe_given_first(given: &DavUrl) -> (b: bool)
    ensures
        b == (given@.path != "/"@),
{
    let p = chars_of(given.path());
    !lit_eq(&p, "/")
}

/// `<origin>/.well-known/carddav` (RFC 6764).
pub fn well_known_url(origin: &DavUrl) -> (r: Result<DavUrl, CardDavError>)
    ensures
        match url_join(origin@, ".well-known/carddav"@) {
            Ok(v) => r matches Ok(u) && u@ == v,
            Err(m) => r matches Err(CardDavError::InvalidUrl(e)) && e@ == m,
        },
{
    match origin.join(".well-known/carddav") {
        Ok(u) => Ok(u),
        Err(e) => Err(CardDavError::InvalidUrl(e)),
    }
}

/// `<origin>/remote.php/dav/` (Nextcloud).
pub fn nextcloud_url(origin: &DavUrl) -> (r: Result<DavUrl, CardDavError>)
    ensures
        match url_join(origin@, "remote.php/dav/"@) {
            Ok(v) => r matches Ok(u) && u@ == v,
            Err(m) => r matches Err(CardDavError::InvalidUrl(e)) && e@ == m,
        },
{
    match origin.join("remote.php/dav/") {
        Ok(u) => Ok(u),
        Err(e) => Err(CardDavError::InvalidUrl(e)),
    }
}

/// What a `.well-known/carddav` answer tells: 404 is nothing; otherwise the DAV root is
/// where the redirects ended, or the origin when they stayed on `.well-known`.
pub fn well_known_outcome(origin: &DavUrl, status: u16, final_url: &DavUrl) -> (r: Option<DavUrl>)
    ensures
        status == 404 ==> r is None,
        status != 404 && contains(final_url@.path, ".well-known"@) ==> (r matches Some(u) && u@
            == spec_with_slash(origin@)),
        status != 404 && !contains(final_url@.path, ".well-known"@) ==> (r matches Some(u) && u@
            == spec_with_slash(final_url@)),
{
    if status == 404 {
        return None;
    }
    let p = chars_of(final_url.path());
    if contains_chars(&p, &chars_of(".well-known")) {
        Some(ensure_trailing_slash(origin))
    } else {
        Some(ensure_trailing_slash(final_url))
    }
}

/// When nothing was listed under the home set, the root itself is taken as the
/// addressbook if it has a name or is the DAV root.
pub fn keep_root_book(book: &Addressbook, list_root: &DavUrl, dav_root: &DavUrl) -> (b: bool)
    ensures
        b == (book@.displayname is Some || spec_same_collection(list_root@, dav_root@)),
{
    book.displayname.is_some() || same_collection(list_root, dav_root)
}

} // verus!
