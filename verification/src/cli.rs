//! The CardDAV subcommands of the command line: their options and the decisions they
//! take before and after talking to the server.
use vstd::prelude::*;

use crate::error::CardDavError;
use crate::filter::{normalize_code, parse_category_filter, spec_is_taxonomy_code};
use crate::text::{
    chars_of, contains, contains_chars, extend_chars, string_of, string_views, trim, trim_chars,
};
use crate::url_policy::{
    parse_and_validate, resolve_href, spec_parse_and_validate, spec_resolve, DavUrl,
    ResolveOutcome,
};
use crate::client::{err_matches, SyncState};

verus! {

/// Options shared by the CardDAV subcommands (the password only comes from the
/// environment or the TOML file).
#[derive(Debug, Clone)]
pub struct CarddavOpts {
    /// Server base URL.
    pub url: Option<String>,
    /// HTTP Basic user.
    pub username: Option<String>,
    /// Explicit addressbook URL.
    pub addressbook: Option<String>,
    /// TOML file with a `[carddav]` section.
    pub config: Option<std::path::PathBuf>,
}

/// The CardDAV subcommands.
#[derive(Debug, Clone)]
pub enum CarddavAction {
    /// Lists the addressbooks (discovery or explicit URL).
    List { opts: CarddavOpts },
    /// Downloads the vCards into a local VCF file.
    Pull { opts: CarddavOpts, output: std::path::PathBuf, categories: Vec<String> },
    /// Uploads a vCard (`If-Match`, or `If-None-Match: *` with `create`); needs `confirm`.
    Put {
        opts: CarddavOpts,
        href: String,
        input: std::path::PathBuf,
        etag: Option<String>,
        create: bool,
        confirm: bool,
    },
    /// Deletes a vCard with `If-Match`; needs `confirm`.
    Delete { opts: CarddavOpts, href: String, etag: String, confirm: bool },
    /// Polls the collection's markers and pulls on change.
    Watch {
        opts: CarddavOpts,
        interval: u64,
        max_cycles: u32,
        once: bool,
        output: Option<std::path::PathBuf>,
        categories: Vec<String>,
    },
}

/// A refusal of the command line: a CardDAV error, or a usage message.
#[derive(Debug, Clone, PartialEq, Eq)]
pub enum CliError {
    CardDav(CardDavError),
    Usage(String),
}

/// The message that refuses a write without `--confirm`.
pub open spec fn confirm_message(op: Seq<char>) -> Seq<char> {
    "escritura CardDAV opt-in: "@ + op
        + " exige --confirm (no forma parte de `cribar`; I7: el VCF local de origen no se sobrescribe; el remoto no se muta sin flag)"@
}

/// Remote writes are opt-in: without `confirm` nothing is sent.
pub fn require_confirm(confirm: bool, op: &str) -> (r: Result<(), String>)
    ensures
        confirm ==> r is Ok,
        !confirm ==> (r matches Err(m) && m@ == confirm_message(op@)),
{
    if confirm {
        return Ok(());
    }
    let mut m = chars_of("escritura CardDAV opt-in: ");
    extend_chars(&mut m, &chars_of(op));
    extend_chars(
        &mut m,
        &chars_of(
            " exige --confirm (no forma parte de `cribar`; I7: el VCF local de origen no se sobrescribe; el remoto no se muta sin flag)",
        ),
    );
    Err(string_of(&m))
}

/// The category filters `raw[..n]`, normalised; `None` where one is not a taxonomy code.
pub open spec fn categories_upto(raw: Seq<Seq<char>>, n: int) -> Option<Seq<Seq<char>>>
    decreases n,
{
    if n <= 0 {
        Some(Seq::empty())
    } else {
        match categories_upto(raw, n - 1) {
            None => None,
            Some(v) => if spec_is_taxonomy_code(normalize_code(raw[n - 1])) {
                Some(v.push(normalize_code(raw[n - 1])))
            } else {
                None
            },
        }
    }
}

proof fn lemma_categories_fail(raw: Seq<Seq<char>>, m: int, n: int)
    requires
        0 <= m <= n,
        categories_upto(raw, m) is None,
    ensures
        categories_upto(raw, n) is None,
    decreases n - m,
{
    if m < n {
        lemma_categories_fail(raw, m, n - 1);
    }
}

/// Parses the `--category` filters: all normalised, or the error of the first bad one.
pub fn parse_categories(raw: &Vec<String>) -> (r: Result<Vec<String>, CardDavError>)
    ensures
        match categories_upto(string_views(raw@), raw@.len() as int) {
            Some(v) => r matches Ok(c) && string_views(c@) == v,
            None => r matches Err(CardDavError::UnknownCategory(_)),
        },
{
    let ghost rv = string_views(raw@);
    let mut out: Vec<String> = Vec::new();
    assert(string_views(out@) =~= Seq::<Seq<char>>::empty());
    let mut i: usize = 0;
    while i < raw.len()
        invariant
            i <= raw@.len(),
            rv == string_views(raw@),
            categories_upto(rv, i as int) == Some(string_views(out@)),
        decreases raw.len() - i,
    {
        assert(rv[i as int] == raw@[i as int]@);
        match parse_category_filter(raw[i].as_str()) {
            Ok(c) => {
                let ghost prev = out@;
                out.push(c);
                assert(string_views(out@) =~= string_views(prev).push(c@));
            },
            Err(e) => {
                proof {
                    lemma_categories_fail(rv, i + 1, raw@.len() as int);
                }
                return Err(e);
            },
        }
        i += 1;
    }
    Ok(out)
}

pub open spec fn opt_s(o: Option<String>) -> Option<Seq<char>> {
    match o {
        Some(s) => Some(s@),
        None => None,
    }
}

/// The base against which a relative href is resolved: `--addressbook`, else a
/// non-blank `ZEDAZO_CARDDAV_ADDRESSBOOK`, else `--url`.
pub open spec fn href_base(addressbook: Option<Seq<char>>, env_addressbook: Option<Seq<char>>, url: Option<Seq<char>>) -> Option<Seq<char>> {
    match addressbook {
        Some(a) => Some(a),
        None => match env_addressbook {
            Some(e) if trim(e).len() > 0 => Some(e),
            _ => url,
        },
    }
}

pub open spec fn relative_href_message() -> Seq<char> {
    "href relativo: indica --addressbook o --url (o ZEDAZO_CARDDAV_*)"@
}

/// The target of a write: an absolute href (with `://`) is taken as it is, under the URL
/// policy; a relative one is resolved against the base, and never leaves its origin.
pub fn resolve_object_href(opts: &CarddavOpts, href: &str, env_addressbook: Option<&str>) -> (r: Result<DavUrl, CliError>)
    ensures
        contains(href@, "://"@) ==> match spec_parse_and_validate(href@) {
            Some(v) => r matches Ok(u) && u@ == v,
            None => r matches Err(CliError::CardDav(_)),
        },
        !contains(href@, "://"@) ==> match href_base(
            opt_s(opts.addressbook),
            match env_addressbook {
                Some(e) => Some(e@),
                None => None,
            },
            opt_s(opts.url),
        ) {
            None => r matches Err(CliError::Usage(m)) && m@ == relative_href_message(),
            Some(b) => match spec_parse_and_validate(b) {
                None => r matches Err(CliError::CardDav(_)),
                Some(bv) => match spec_resolve(bv, href@, false) {
                    ResolveOutcome::Resolved(u) => r matches Ok(x) && x@ == u,
                    o => r matches Err(CliError::CardDav(e)) && err_matches(e, o),
                },
            },
        },
{
    let h = chars_of(href);
    if contains_chars(&h, &chars_of("://")) {
        return match parse_and_validate(href) {
            Ok(u) => Ok(u),
            Err(e) => Err(CliError::CardDav(e)),
        };
    }
    let base: &str = match &opts.addressbook {
        Some(a) => a.as_str(),
        None => {
            let from_env = match env_addressbook {
                Some(e) => {
                    let ec = chars_of(e);
                    if trim_chars(&ec).len() > 0 {
                        Some(e)
                    } else {
                        None
                    }
                },
                None => None,
            };
            match from_env {
                Some(e) => e,
                None => match &opts.url {
                    Some(u) => u.as_str(),
                    None => {
                        return Err(
                            CliError::Usage(
                                String::from_str(
                                    "href relativo: indica --addressbook o --url (o ZEDAZO_CARDDAV_*)",
                                ),
                            ),
                        );
                    },
                },
            }
        },
    };
    let b = match parse_and_validate(base) {
        Ok(b) => b,
        Err(e) => {
            return Err(CliError::CardDav(e));
        },
    };
    match resolve_href(&b, href) {
        Ok(u) => Ok(u),
        Err(e) => Err(CliError::CardDav(e)),
    }
}

/// What a `put` sends: a creation, or an update with the ETag it must match.
#[derive(Debug, Clone, PartialEq, Eq)]
pub enum PutKind {
    Create,
    Update(String),
}

/// `--create` needs no ETag; an update without one is refused.
pub fn put_kind(create: bool, etag: Option<String>) -> (r: Result<PutKind, CardDavError>)
    ensures
        create ==> r == Ok::<PutKind, CardDavError>(PutKind::Create),
        !create && etag is None ==> r == Err::<PutKind, CardDavError>(CardDavError::MissingEtag),
        !create && etag is Some ==> r == Ok::<PutKind, CardDavError>(PutKind::Update(etag->0)),
{
    if create {
        return Ok(PutKind::Create);
    }
    match etag {
        Some(e) => Ok(PutKind::Update(e)),
        None => Err(CardDavError::MissingEtag),
    }
}

/// The message of a write refused by a 412 (nothing was overwritten or deleted).
pub open spec fn spec_conflict_message(url: Seq<char>, etag: Seq<char>, deleting: bool) -> Seq<char> {
    "conflicto CardDAV (HTTP 412) en "@ + url + ": If-Match "@ + etag + if deleting {
        " no coincide; no se borró."@
    } else {
        " no coincide; no se sobrescribió. Vuelve a hacer pull y revisa el ETag."@
    }
}

pub fn conflict_message(url: &str, etag: &str, deleting: bool) -> (m: String)
    ensures
        m@ == spec_conflict_message(url@, etag@, deleting),
{
    let mut m = chars_of("conflicto CardDAV (HTTP 412) en ");
    extend_chars(&mut m, &chars_of(url));
    extend_chars(&mut m, &chars_of(": If-Match "));
    extend_chars(&mut m, &chars_of(etag));
    if deleting {
        extend_chars(&mut m, &chars_of(" no coincide; no se borró."));
    } else {
        extend_chars(
            &mut m,
            &chars_of(" no coincide; no se sobrescribió. Vuelve a hacer pull y revisa el ETag."),
        );
    }
    string_of(&m)
}

/// One finished cycle of a watch with this limit (0 is endless) and count: the new count
/// and whether the watch stops.
pub open spec fn watch_step(limit: nat, count: nat) -> (nat, bool) {
    if limit == 0 {
        (count, false)
    } else if count < limit {
        (count + 1, count + 1 >= limit)
    } else {
        (count, true)
    }
}

/// The count after `k` cycles.
pub open spec fn count_after(limit: nat, k: nat) -> nat
    decreases k,
{
    if k == 0 {
        0
    } else {
        watch_step(limit, count_after(limit, (k - 1) as nat)).0
    }
}

/// The `k`-th cycle (from 1) stops the watch.
pub open spec fn stops_at(limit: nat, k: nat) -> bool {
    k > 0 && watch_step(limit, count_after(limit, (k - 1) as nat)).1
}

/// What a watch cycle does with the state it polled.
#[derive(Debug, Clone, Copy, PartialEq, Eq, Structural)]
pub enum WatchAction {
    /// The remote marker is unchanged: nothing happens.
    Unchanged,
    /// The marker changed and no output file is set: the new state becomes the baseline.
    Record,
    /// The marker changed and an output file is set: pull (with the category filter), write
    /// the file, then take the new state as the baseline.
    PullAndRecord,
}

/// The decision of one watch cycle: on a change of the remote marker, pull when an output
/// file is set, and in any case take the new state as the baseline; else do nothing.
pub fn watch_action(previous: &SyncState, current: &SyncState, has_output: bool) -> (r: WatchAction)
    ensures
        r == (if current.fingerprint_view() == previous.fingerprint_view() {
            WatchAction::Unchanged
        } else if has_output {
            WatchAction::PullAndRecord
        } else {
            WatchAction::Record
        }),
{
    if !current.changed_from(previous) {
        WatchAction::Unchanged
    } else if has_output {
        WatchAction::PullAndRecord
    } else {
        WatchAction::Record
    }
}

/// How many polling cycles a watch runs: one with `once`, else `max_cycles` (0 is
/// endless), counting the cycles done.
pub struct WatchCycles {
    cycles: u32,
    done: u32,
}

impl WatchCycles {
    #[verifier::type_invariant]
    spec fn within(self) -> bool {
        self.done <= self.cycles || self.cycles == 0
    }

    pub closed spec fn limit(self) -> nat {
        self.cycles as nat
    }

    pub closed spec fn count(self) -> nat {
        self.done as nat
    }

    pub fn new(once: bool, max_cycles: u32) -> (w: Self)
        ensures
            w.limit() == (if once { 1 } else { max_cycles }),
            w.count() == 0,
    {
        WatchCycles { cycles: if once { 1 } else { max_cycles }, done: 0 }
    }

    /// Records a finished cycle; `true` when the watch stops.
    pub fn after_cycle(&mut self) -> (stop: bool)
        ensures
            final(self).limit() == old(self).limit(),
            (final(self).count(), stop) == watch_step(old(self).limit(), old(self).count()),
    {
        proof {
            use_type_invariant(&*self);
        }
        if self.cycles == 0 {
            return false;
        }
        if self.done < self.cycles {
            self.done = self.done + 1;
            return self.done >= self.cycles;
        }
        true
    }
}

proof fn lemma_count_after(limit: nat, k: nat)
    requires
        limit > 0,
    ensures
        count_after(limit, k) == if k < limit { k } else { limit },
    decreases k,
{
    if k > 0 {
        lemma_count_after(limit, (k - 1) as nat);
    }
}

/// A watch with a limit runs exactly that many cycles (one with `once`): the cycles before
/// the limit go on and the one that reaches it stops; an endless watch never stops.
pub proof fn law_watch_runs_its_limit(limit: nat, k: nat)
    requires
        k > 0,
    ensures
        limit > 0 ==> (stops_at(limit, k) <==> k >= limit),
        limit == 0 ==> !stops_at(limit, k),
{
    if limit > 0 {
        lemma_count_after(limit, (k - 1) as nat);
    }
}

} // verus!
