//! The decisions of the HTTP API: what a request asks for, which jobs and contacts it
//! sees, what a new job records, and what an artifact download serves.
use vstd::prelude::*;

use crate::dto::{
    parse_artifact_kind, spec_parse_kind, CreateJobRequest, InputMeta, JobManifest, JobStatus,
    RulesMeta, RulesRequest,
};
use crate::auth::{sha256, sha256_digest};
use crate::process::{ArtifactDescriptor, ArtifactKind, ContactView, ProcessSummary, RulesConfigSource};
use crate::dto::{artifact_kind_str, kind_name};
use crate::storage::{spec_sanitize_name, Storage};
use crate::text::{
    chars_of, chars_leq, contains, contains_chars, extend_chars, lines, lines_chars, lit_eq,
    parse_uint, seq_leq, spec_parse_uint, split_chars, split_on, string_of, string_views,
    to_lowercase, unicode_lower, views, lemma_seq_leq_total, lemma_seq_leq_transitive,
};

verus! {

/// `GET /jobs?status=`.
#[derive(Debug, Clone)]
pub struct ListQuery {
    pub status: Option<String>,
}

/// `GET /jobs/{id}/events?last_event_id=`.
#[derive(Debug, Clone)]
pub struct EventsQuery {
    pub last_event_id: Option<String>,
}

/// `GET /jobs/{id}/contacts?q=&result=`.
#[derive(Debug, Clone)]
pub struct ContactQuery {
    pub q: Option<String>,
    pub result: Option<String>,
}

/// `POST /audits`.
#[derive(Debug, Clone)]
pub struct AuditBody {
    pub upload_id: String,
    pub config_toml: Option<String>,
}

/// `POST /rules/validate` and `/rules/preview`.
#[derive(Debug, Clone)]
pub struct RulesBody {
    pub toml: String,
}

// ---------------------------------------------------------------------------
// job listing

/// The wire name of a job status (snake case).
pub open spec fn status_name(s: JobStatus) -> Seq<char> {
    match s {
        JobStatus::Created => "created"@,
        JobStatus::Uploading => "uploading"@,
        JobStatus::Uploaded => "uploaded"@,
        JobStatus::Queued => "queued"@,
        JobStatus::Validating => "validating"@,
        JobStatus::Parsing => "parsing"@,
        JobStatus::Screening => "screening"@,
        JobStatus::Normalizing => "normalizing"@,
        JobStatus::Classifying => "classifying"@,
        JobStatus::Deduplicating => "deduplicating"@,
        JobStatus::Verifying => "verifying"@,
        JobStatus::WritingArtifacts => "writing_artifacts"@,
        JobStatus::Completed => "completed"@,
        JobStatus::Failed => "failed"@,
        JobStatus::CancelRequested => "cancel_requested"@,
        JobStatus::Cancelled => "cancelled"@,
        JobStatus::Expired => "expired"@,
        JobStatus::Deleted => "deleted"@,
    }
}

pub fn job_status_str(s: JobStatus) -> (r: &'static str)
    ensures
        r@ == status_name(s),
{
    match s {
        JobStatus::Created => "created",
        JobStatus::Uploading => "uploading",
        JobStatus::Uploaded => "uploaded",
        JobStatus::Queued => "queued",
        JobStatus::Validating => "validating",
        JobStatus::Parsing => "parsing",
        JobStatus::Screening => "screening",
        JobStatus::Normalizing => "normalizing",
        JobStatus::Classifying => "classifying",
        JobStatus::Deduplicating => "deduplicating",
        JobStatus::Verifying => "verifying",
        JobStatus::WritingArtifacts => "writing_artifacts",
        JobStatus::Completed => "completed",
        JobStatus::Failed => "failed",
        JobStatus::CancelRequested => "cancel_requested",
        JobStatus::Cancelled => "cancelled",
        JobStatus::Expired => "expired",
        JobStatus::Deleted => "deleted",
    }
}

pub open spec fn opt_text(o: Option<&str>) -> Option<Seq<char>> {
    match o {
        Some(s) => Some(s@),
        None => None,
    }
}

/// A job is listed when no status is asked for, or its wire name is the one asked.
pub open spec fn spec_status_matches(s: JobStatus, wanted: Option<Seq<char>>) -> bool {
    match wanted {
        None => true,
        Some(w) => status_name(s) == w,
    }
}

pub fn status_matches(s: JobStatus, wanted: Option<&str>) -> (b: bool)
    ensures
        b == spec_status_matches(s, opt_text(wanted)),
{
    match wanted {
        None => true,
        Some(w) => {
            let a = chars_of(job_status_str(s));
            lit_eq(&a, w)
        },
    }
}

pub open spec fn created_views(m: Seq<JobManifest>) -> Seq<Seq<char>> {
    m.map_values(|j: JobManifest| j.created_at@)
}

/// The positions of the jobs with status among `m[..n]`, in order.
pub open spec fn listed_upto(m: Seq<JobManifest>, wanted: Option<Seq<char>>, n: int) -> Seq<usize>
    decreases n,
{
    if n <= 0 {
        Seq::empty()
    } else {
        let rest = listed_upto(m, wanted, n - 1);
        if spec_status_matches(m[n - 1].status, wanted) {
            rest.push((n - 1) as usize)
        } else {
            rest
        }
    }
}

/// Newest first: the creation stamps do not increase along the list.
pub open spec fn newest_first(created: Seq<Seq<char>>, order: Seq<usize>) -> bool {
    forall|a: int, b: int|
        0 <= a < b < order.len() ==> seq_leq(
            #[trigger] created[order[b] as int],
            #[trigger] created[order[a] as int],
        )
}

/// The jobs to list: those with the status asked for, newest first (by the RFC 3339
/// creation stamp, compared as text).
pub fn list_order(jobs: &Vec<JobManifest>, wanted: Option<&str>) -> (r: Vec<usize>)
    ensures
        r@.to_multiset() == listed_upto(jobs@, opt_text(wanted), jobs@.len() as int).to_multiset(),
        newest_first(created_views(jobs@), r@),
        forall|i: int| 0 <= i < r@.len() ==> #[trigger] r@[i] < jobs@.len(),
{
    broadcast use vstd::seq_lib::to_multiset_insert, vstd::seq_lib::to_multiset_build;

    let ghost cv = created_views(jobs@);
    let mut out: Vec<usize> = Vec::new();
    let mut i: usize = 0;
    while i < jobs.len()
        invariant
            i <= jobs@.len(),
            cv == created_views(jobs@),
            out@.to_multiset() == listed_upto(jobs@, opt_text(wanted), i as int).to_multiset(),
            newest_first(cv, out@),
            forall|k: int| 0 <= k < out@.len() ==> #[trigger] out@[k] < i,
        decreases jobs.len() - i,
    {
        if status_matches(jobs[i].status, wanted) {
            let x = chars_of(jobs[i].created_at.as_str());
            assert(x@ == cv[i as int]);
            let mut p: usize = 0;
            while p < out.len() && chars_leq(&x, &chars_of(jobs[out[p]].created_at.as_str()))
                invariant
                    p <= out@.len(),
                    x@ == cv[i as int],
                    cv == created_views(jobs@),
                    i < jobs@.len(),
                    forall|k: int| 0 <= k < out@.len() ==> #[trigger] out@[k] < i,
                    forall|k: int| 0 <= k < p ==> seq_leq(cv[i as int], #[trigger] cv[out@[k] as int]),
                decreases out.len() - p,
            {
                assert(cv[out@[p as int] as int] == jobs@[out@[p as int] as int].created_at@);
                p += 1;
            }
            proof {
                if p < out@.len() {
                    assert(cv[out@[p as int] as int] == jobs@[out@[p as int] as int].created_at@);
                    lemma_seq_leq_total(cv[i as int], cv[out@[p as int] as int]);
                }
            }
            let ghost before = out@;
            out.insert(p, i);
            assert(out@ =~= before.insert(p as int, i));
            proof {
                vstd::seq_lib::to_multiset_insert(before, p as int, i);
                vstd::seq_lib::to_multiset_build(
                    listed_upto(jobs@, opt_text(wanted), i as int),
                    i,
                );
                assert forall|a: int, b: int| 0 <= a < b < out@.len() implies seq_leq(
                    #[trigger] cv[out@[b] as int],
                    #[trigger] cv[out@[a] as int],
                ) by {
                    if a < p && b == p {
                    } else if a == p && b > p {
                        if b - 1 > p {
                            assert(seq_leq(cv[before[b - 1] as int], cv[before[p as int] as int]));
                            lemma_seq_leq_transitive(
                                cv[before[b - 1] as int],
                                cv[before[p as int] as int],
                                cv[i as int],
                            );
                        } else {
                        }
                    } else if a < p && b > p {
                        assert(seq_leq(cv[before[b - 1] as int], cv[before[a] as int]));
                    } else if b < p {
                        assert(seq_leq(cv[before[b] as int], cv[before[a] as int]));
                    } else {
                        assert(seq_leq(cv[before[b - 1] as int], cv[before[a - 1] as int]));
                    }
                }
            }
        }
        i += 1;
    }
    out
}

// ---------------------------------------------------------------------------
// events

/// The id after which events are replayed: `last_event_id` from the query, else the
/// `Last-Event-ID` header; 0 when absent or not a number.
pub open spec fn spec_after_event_id(query: Option<Seq<char>>, header: Option<Seq<char>>) -> u64 {
    let chosen = match query {
        Some(q) => Some(q),
        None => header,
    };
    match chosen {
        Some(t) => match spec_parse_uint(t, u64::MAX as nat + 1) {
            Some(v) => v as u64,
            None => 0,
        },
        None => 0,
    }
}

pub fn after_event_id(query: Option<&str>, header: Option<&str>) -> (r: u64)
    ensures
        r == spec_after_event_id(opt_text(query), opt_text(header)),
{
    let chosen = match query {
        Some(q) => Some(q),
        None => header,
    };
    match chosen {
        Some(t) => match parse_uint(&chars_of(t), 18446744073709551616u128) {
            Some(v) => v,
            None => 0,
        },
        None => 0,
    }
}

/// A live event is sent only when it comes after the replayed ones.
pub fn event_is_new(id: u64, after: u64) -> (b: bool)
    ensures
        b == (id > after),
{
    id > after
}

// ---------------------------------------------------------------------------
// a new job

/// The artifacts made when none (known) are asked for.
pub open spec fn spec_default_artifacts() -> Seq<ArtifactKind> {
    seq![
        ArtifactKind::Vcf,
        ArtifactKind::AuditTsv,
        ArtifactKind::StatsJson,
        ArtifactKind::Csv,
        ArtifactKind::Json,
    ]
}

pub fn default_artifacts() -> (r: Vec<ArtifactKind>)
    ensures
        r@ == spec_default_artifacts(),
{
    let mut v: Vec<ArtifactKind> = Vec::new();
    v.push(ArtifactKind::Vcf);
    v.push(ArtifactKind::AuditTsv);
    v.push(ArtifactKind::StatsJson);
    v.push(ArtifactKind::Csv);
    v.push(ArtifactKind::Json);
    assert(v@ =~= spec_default_artifacts());
    v
}

/// The known kinds among `names[..n]`, in order (unknown names are passed over).
pub open spec fn kinds_upto(names: Seq<Seq<char>>, n: int) -> Seq<ArtifactKind>
    decreases n,
{
    if n <= 0 {
        Seq::empty()
    } else {
        let rest = kinds_upto(names, n - 1);
        match spec_parse_kind(names[n - 1]) {
            Some(k) => rest.push(k),
            None => rest,
        }
    }
}

/// The artifacts a job asks for: the known names given, or the defaults when none is.
pub open spec fn spec_requested_artifacts(names: Seq<Seq<char>>) -> Seq<ArtifactKind> {
    let k = kinds_upto(names, names.len() as int);
    if k.len() == 0 {
        spec_default_artifacts()
    } else {
        k
    }
}

pub fn requested_artifacts(names: &Option<Vec<String>>) -> (r: Vec<ArtifactKind>)
    ensures
        r@ == spec_requested_artifacts(match names {
            Some(v) => string_views(v@),
            None => Seq::empty(),
        }),
{
    let empty: Vec<String> = Vec::new();
    let list = match names {
        Some(v) => v,
        None => &empty,
    };
    let ghost nv = string_views(list@);
    assert(nv == match names {
        Some(v) => string_views(v@),
        None => Seq::<Seq<char>>::empty(),
    }) by {
        if names is None {
            assert(string_views(empty@) =~= Seq::<Seq<char>>::empty());
        }
    }
    let mut out: Vec<ArtifactKind> = Vec::new();
    let mut i: usize = 0;
    while i < list.len()
        invariant
            i <= list@.len(),
            nv == string_views(list@),
            out@ == kinds_upto(nv, i as int),
        decreases list.len() - i,
    {
        assert(nv[i as int] == list@[i as int]@);
        match parse_artifact_kind(list[i].as_str()) {
            Some(k) => {
                out.push(k);
            },
            None => {},
        }
        i += 1;
    }
    if out.len() == 0 {
        default_artifacts()
    } else {
        out
    }
}

/// The rules mode of a job: the one asked for, else `builtin`.
pub fn rules_mode(rules: &Option<RulesRequest>) -> (r: String)
    ensures
        match rules {
            Some(q) => match q.mode {
                Some(m) => r@ == m@,
                None => r@ == "builtin"@,
            },
            None => r@ == "builtin"@,
        },
{
    match rules {
        Some(q) => match &q.mode {
            Some(m) => String::from_str(m.as_str()),
            None => String::from_str("builtin"),
        },
        None => String::from_str("builtin"),
    }
}

/// The rules mode of an audit: inline TOML when given, else `builtin`.
pub fn audit_rules_mode(config_toml: &Option<String>) -> (r: &'static str)
    ensures
        config_toml is Some ==> r@ == "toml_inline"@,
        config_toml is None ==> r@ == "builtin"@,
{
    if config_toml.is_some() {
        "toml_inline"
    } else {
        "builtin"
    }
}

/// Where a job's rules come from.
pub fn rules_source(config_toml: &Option<String>) -> (r: RulesConfigSource)
    ensures
        match config_toml {
            Some(t) => r matches RulesConfigSource::TomlInline(x) && x@ == t@,
            None => r matches RulesConfigSource::BuiltIn,
        },
{
    match config_toml {
        Some(t) => RulesConfigSource::TomlInline(String::from_str(t.as_str())),
        None => RulesConfigSource::BuiltIn,
    }
}

/// How a job ends: cancelled when the token was set, else completed.
pub fn finished_status(cancelled: bool) -> (s: JobStatus)
    ensures
        cancelled ==> s == JobStatus::Cancelled,
        !cancelled ==> s == JobStatus::Completed,
{
    if cancelled {
        JobStatus::Cancelled
    } else {
        JobStatus::Completed
    }
}

// ---------------------------------------------------------------------------
// artifacts

/// The file that holds an artifact in the job directory.
pub open spec fn spec_artifact_file(k: ArtifactKind) -> Seq<char> {
    match k {
        ArtifactKind::Vcf => "output.vcf"@,
        ArtifactKind::AuditTsv => "audit.tsv"@,
        ArtifactKind::StatsJson => "stats.json"@,
        ArtifactKind::StatsMarkdown => "stats.md"@,
        ArtifactKind::Csv => "contacts.csv"@,
        ArtifactKind::Json => "contacts.json"@,
    }
}

pub fn artifact_filename(k: ArtifactKind) -> (r: &'static str)
    ensures
        r@ == spec_artifact_file(k),
{
    match k {
        ArtifactKind::Vcf => "output.vcf",
        ArtifactKind::AuditTsv => "audit.tsv",
        ArtifactKind::StatsJson => "stats.json",
        ArtifactKind::StatsMarkdown => "stats.md",
        ArtifactKind::Csv => "contacts.csv",
        ArtifactKind::Json => "contacts.json",
    }
}

/// What a download serves: only a completed job's artifacts (409 otherwise), and only a
/// known kind (400 otherwise).
pub fn download_target(status: JobStatus, kind: &str) -> (r: Result<&'static str, u16>)
    ensures
        status != JobStatus::Completed ==> r == Err::<&'static str, u16>(409),
        status == JobStatus::Completed ==> match spec_parse_kind(kind@) {
            Some(k) => r matches Ok(f) && f@ == spec_artifact_file(k),
            None => r == Err::<&'static str, u16>(400),
        },
{
    if status != JobStatus::Completed {
        return Err(409);
    }
    match parse_artifact_kind(kind) {
        Some(k) => Ok(artifact_filename(k)),
        None => Err(400),
    }
}

/// Statistics are served only for a completed job (409 otherwise).
pub fn stats_allowed(status: JobStatus) -> (r: Result<(), u16>)
    ensures
        status == JobStatus::Completed ==> r is Ok,
        status != JobStatus::Completed ==> r == Err::<(), u16>(409),
{
    if status != JobStatus::Completed {
        return Err(409);
    }
    Ok(())
}

/// `attachment; filename="<name>"`.
pub fn content_disposition(filename: &str) -> (r: String)
    ensures
        r@ == "attachment; filename=\""@ + filename@ + "\""@,
{
    let mut m = chars_of("attachment; filename=\"");
    extend_chars(&mut m, &chars_of(filename));
    extend_chars(&mut m, &chars_of("\""));
    string_of(&m)
}

/// The rows of `audit.tsv`: every line after the header, split on tabs.
pub open spec fn spec_audit_rows(text: Seq<char>) -> Seq<Seq<Seq<char>>> {
    let ls = lines(text);
    let body = if ls.len() == 0 { ls } else { ls.skip(1) };
    body.map_values(|l: Seq<char>| split_on(l, '\t'))
}

pub open spec fn rows_view(r: Seq<Vec<String>>) -> Seq<Seq<Seq<char>>> {
    r.map_values(|row: Vec<String>| string_views(row@))
}

pub fn audit_rows(text: &str) -> (r: Vec<Vec<String>>)
    ensures
        rows_view(r@) == spec_audit_rows(text@),
{
    let c = chars_of(text);
    let ls = lines_chars(&c);
    let ghost lv = views(ls@);
    let mut out: Vec<Vec<String>> = Vec::new();
    let mut i: usize = 1;
    if ls.len() == 0 {
        assert(rows_view(out@) =~= spec_audit_rows(text@));
        return out;
    }
    assert(rows_view(out@) =~= lv.subrange(1, 1).map_values(|l: Seq<char>| split_on(l, '\t')));
    while i < ls.len()
        invariant
            1 <= i <= ls@.len(),
            lv == views(ls@),
            lv == lines(text@),
            rows_view(out@) == lv.subrange(1, i as int).map_values(|l: Seq<char>| split_on(l, '\t')),
        decreases ls.len() - i,
    {
        let parts = split_chars(&ls[i], '\t');
        let mut row: Vec<String> = Vec::new();
        let mut j: usize = 0;
        while j < parts.len()
            invariant
                j <= parts@.len(),
                string_views(row@) == views(parts@).take(j as int),
            decreases parts.len() - j,
        {
            let ghost prev = row@;
            row.push(string_of(&parts[j]));
            assert(string_views(row@) =~= string_views(prev).push(parts@[j as int]@));
            assert(views(parts@).take(j + 1) =~= views(parts@).take(j as int).push(parts@[j as int]@));
            j += 1;
        }
        assert(views(parts@).take(parts@.len() as int) =~= views(parts@));
        assert(lv[i as int] == ls@[i as int]@);
        let ghost prev = out@;
        out.push(row);
        assert(rows_view(out@) =~= rows_view(prev).push(split_on(lv[i as int], '\t')));
        assert(lv.subrange(1, i + 1).map_values(|l: Seq<char>| split_on(l, '\t')) =~= lv.subrange(
            1,
            i as int,
        ).map_values(|l: Seq<char>| split_on(l, '\t')).push(split_on(lv[i as int], '\t')));
        i += 1;
    }
    assert(lv.subrange(1, lv.len() as int) =~= lv.skip(1));
    out
}


// ---------------------------------------------------------------------------
// contacts

/// A contact answers a search when its name or an email contains the lowercased needle
/// (both lowercased), or a phone number contains it as it is.
pub open spec fn contact_has(c: ContactView, needle: Seq<char>) -> bool {
    ||| contains(unicode_lower(c.fn_value@), needle)
    ||| exists|i: int| 0 <= i < c.emails@.len() && contains(unicode_lower(#[trigger] c.emails@[i]@), needle)
    ||| exists|i: int| 0 <= i < c.tels@.len() && contains(#[trigger] c.tels@[i]@, needle)
}

/// A contact is listed when it answers the search (if any) and has the result asked (if
/// any).
pub open spec fn contact_listed(c: ContactView, q: Option<Seq<char>>, result: Option<Seq<char>>) -> bool {
    &&& match q {
        Some(n) => contact_has(c, unicode_lower(n)),
        None => true,
    }
    &&& match result {
        Some(r) => c.result@ == r,
        None => true,
    }
}

/// The positions among `items[..n]` of the contacts listed, in order.
pub open spec fn contacts_upto(items: Seq<ContactView>, q: Option<Seq<char>>, result: Option<Seq<char>>, n: int) -> Seq<usize>
    decreases n,
{
    if n <= 0 {
        Seq::empty()
    } else {
        let rest = contacts_upto(items, q, result, n - 1);
        if contact_listed(items[n - 1], q, result) {
            rest.push((n - 1) as usize)
        } else {
            rest
        }
    }
}

fn contact_has_exec(c: &ContactView, needle: &Vec<char>) -> (b: bool)
    ensures
        b == contact_has(*c, needle@),
{
    let f = to_lowercase(c.fn_value.as_str());
    if contains_chars(&chars_of(f.as_str()), needle) {
        return true;
    }
    let mut i: usize = 0;
    while i < c.emails.len()
        invariant
            i <= c.emails@.len(),
            forall|k: int| 0 <= k < i ==> !contains(unicode_lower(#[trigger] c.emails@[k]@), needle@),
        decreases c.emails.len() - i,
    {
        let e = to_lowercase(c.emails[i].as_str());
        if contains_chars(&chars_of(e.as_str()), needle) {
            return true;
        }
        i += 1;
    }
    let mut j: usize = 0;
    while j < c.tels.len()
        invariant
            j <= c.tels@.len(),
            forall|k: int| 0 <= k < j ==> !contains(#[trigger] c.tels@[k]@, needle@),
        decreases c.tels.len() - j,
    {
        if contains_chars(&chars_of(c.tels[j].as_str()), needle) {
            return true;
        }
        j += 1;
    }
    false
}

/// The contacts a listing returns, by position.
pub fn contact_positions(items: &Vec<ContactView>, q: Option<&str>, result: Option<&str>) -> (r: Vec<usize>)
    ensures
        r@ == contacts_upto(items@, opt_text(q), opt_text(result), items@.len() as int),
{
    let needle: Option<Vec<char>> = match q {
        Some(n) => {
            let l = to_lowercase(n);
            Some(chars_of(l.as_str()))
        },
        None => None,
    };
    let mut out: Vec<usize> = Vec::new();
    let mut i: usize = 0;
    while i < items.len()
        invariant
            i <= items@.len(),
            match q {
                Some(n) => needle matches Some(v) && v@ == unicode_lower(n@),
                None => needle is None,
            },
            out@ == contacts_upto(items@, opt_text(q), opt_text(result), i as int),
        decreases items.len() - i,
    {
        let c = &items[i];
        let ok_q = match &needle {
            Some(v) => contact_has_exec(c, v),
            None => true,
        };
        let ok_r = match result {
            Some(r) => lit_eq(&chars_of(c.result.as_str()), r),
            None => true,
        };
        if ok_q && ok_r {
            out.push(i);
        }
        i += 1;
    }
    out
}

proof fn lemma_listed_kept(items: Seq<ContactView>, q: Option<Seq<char>>, result: Option<Seq<char>>, n: int, k: int)
    requires
        0 <= k < n <= items.len(),
        contact_listed(items[k], q, result),
    ensures
        contacts_upto(items, q, result, n).contains(k as usize),
    decreases n,
{
    let rest = contacts_upto(items, q, result, n - 1);
    if k < n - 1 {
        lemma_listed_kept(items, q, result, n - 1, k);
        let j = choose|j: int| 0 <= j < rest.len() && rest[j] == k as usize;
        if contact_listed(items[n - 1], q, result) {
            assert(rest.push((n - 1) as usize)[j] == k as usize);
        }
    } else {
        assert(rest.push((n - 1) as usize)[rest.len() as int] == k as usize);
    }
}

/// A search finds a contact through its name or through any one of its emails (both
/// compared in lower case) or any one of its phone numbers: such a contact is listed
/// whenever it also has the result asked, if any.
pub proof fn law_search_finds_any_field(
    items: Seq<ContactView>,
    q: Seq<char>,
    result: Option<Seq<char>>,
    k: int,
    i: int,
)
    requires
        0 <= k < items.len(),
        contains(unicode_lower(items[k].fn_value@), unicode_lower(q))
            || (0 <= i < items[k].emails@.len() && contains(
            unicode_lower(items[k].emails@[i]@),
            unicode_lower(q),
        )) || (0 <= i < items[k].tels@.len() && contains(items[k].tels@[i]@, unicode_lower(q))),
        result matches Some(r) ==> items[k].result@ == r,
    ensures
        contacts_upto(items, Some(q), result, items.len() as int).contains(k as usize),
{
    let c = items[k];
    let n = unicode_lower(q);
    if !contains(unicode_lower(c.fn_value@), n) {
        if 0 <= i < c.emails@.len() && contains(unicode_lower(c.emails@[i]@), n) {
            assert(exists|m: int| 0 <= m < c.emails@.len() && contains(unicode_lower(#[trigger] c.emails@[m]@), n));
        } else {
            assert(exists|m: int| 0 <= m < c.tels@.len() && contains(#[trigger] c.tels@[m]@, n));
        }
    }
    assert(contact_listed(c, Some(q), result));
    lemma_listed_kept(items, Some(q), result, items.len() as int, k);
}

pub open spec fn first_uid_from(items: Seq<ContactView>, uid: Seq<char>, i: int) -> Option<int>
    decreases items.len() - i,
{
    if i < 0 || i >= items.len() {
        None
    } else if items[i].uid@ == uid {
        Some(i)
    } else {
        first_uid_from(items, uid, i + 1)
    }
}

/// The first contact with this uid.
pub fn find_contact(items: &Vec<ContactView>, uid: &str) -> (r: Option<usize>)
    ensures
        match first_uid_from(items@, uid@, 0) {
            Some(i) => r == Some(i as usize),
            None => r is None,
        },
{
    let u = chars_of(uid);
    let mut i: usize = 0;
    while i < items.len()
        invariant
            i <= items@.len(),
            u@ == uid@,
            first_uid_from(items@, uid@, 0) == first_uid_from(items@, uid@, i as int),
        decreases items.len() - i,
    {
        if lit_eq(&chars_of(items[i].uid.as_str()), uid) {
            return Some(i);
        }
        i += 1;
    }
    None
}

// ---------------------------------------------------------------------------
// uploads

pub open spec fn bytes_occur_at(s: Seq<u8>, p: Seq<u8>, i: int) -> bool {
    0 <= i && i + p.len() <= s.len() && s.subrange(i, i + p.len()) == p
}

pub open spec fn bytes_contain(s: Seq<u8>, p: Seq<u8>) -> bool {
    exists|i: int| bytes_occur_at(s, p, i)
}

fn bytes_contain_exec(s: &[u8], p: &[u8]) -> (b: bool)
    ensures
        b == bytes_contain(s@, p@),
{
    if p.len() > s.len() {
        return false;
    }
    if p.len() == 0 {
        assert(s@.subrange(0, 0) =~= p@);
        assert(bytes_occur_at(s@, p@, 0));
        return true;
    }
    let n = s.len();
    let last = n - p.len();
    let mut i: usize = 0;
    while i <= last
        invariant
            0 < p@.len() <= s@.len(),
            n == s@.len(),
            last < n,
            last == s@.len() - p@.len(),
            i <= last + 1,
            forall|k: int| 0 <= k < i ==> !bytes_occur_at(s@, p@, k),
        decreases last + 1 - i,
    {
        if bytes_at(s, p, i) {
            return true;
        }
        i += 1;
    }
    assert forall|k: int| !bytes_occur_at(s@, p@, k) by {
        if 0 <= k && k < i {
        }
    }
    false
}

fn bytes_at(s: &[u8], p: &[u8], i: usize) -> (b: bool)
    requires
        i + p@.len() <= s@.len(),
    ensures
        b == bytes_occur_at(s@, p@, i as int),
{
    let n = s.len();
    let mut j: usize = 0;
    while j < p.len()
        invariant
            j <= p@.len(),
            n == s@.len(),
            i + p@.len() <= s@.len(),
            forall|k: int| 0 <= k < j ==> s@[i + k] == p@[k],
        decreases p.len() - j,
    {
        assert(i + j < s@.len());
        let idx: usize = i + j;
        if s[idx] != p[j] {
            assert(!bytes_occur_at(s@, p@, i as int)) by {
                if s@.subrange(i as int, i + p@.len()) == p@ {
                    assert(s@.subrange(i as int, i + p@.len())[j as int] == s@[i + j]);
                }
            }
            return false;
        }
        j += 1;
    }
    assert(s@.subrange(i as int, i + p@.len()) =~= p@);
    true
}

/// `BEGIN:VCARD` as bytes.
pub open spec fn begin_upper() -> Seq<u8> {
    seq![66u8, 69u8, 71u8, 73u8, 78u8, 58u8, 86u8, 67u8, 65u8, 82u8, 68u8]
}

/// `begin:vcard` as bytes.
pub open spec fn begin_lower() -> Seq<u8> {
    seq![98u8, 101u8, 103u8, 105u8, 110u8, 58u8, 118u8, 99u8, 97u8, 114u8, 100u8]
}

fn bytes_of(Ghost(b): Ghost<Seq<u8>>, x: [u8; 11]) -> (r: Vec<u8>)
    requires
        x@ == b,
    ensures
        r@ == b,
{
    let mut r: Vec<u8> = Vec::new();
    let mut i: usize = 0;
    while i < 11
        invariant
            i <= 11,
            x@ == b,
            r@ == b.take(i as int),
        decreases 11 - i,
    {
        r.push(x[i]);
        assert(b.take(i + 1) =~= b.take(i as int).push(b[i as int]));
        i += 1;
    }
    assert(b.take(11) =~= b);
    r
}

/// An upload looks like VCF when its first 512 bytes hold `BEGIN:VCARD` or
/// `begin:vcard` (ASCII text, which a lossy UTF-8 reading keeps as it is).
pub open spec fn spec_looks_like_vcf(data: Seq<u8>) -> bool {
    let n = if data.len() < 512 { data.len() } else { 512 };
    let head = data.take(n as int);
    bytes_contain(head, begin_upper()) || bytes_contain(head, begin_lower())
}

pub fn looks_like_vcf(data: &[u8]) -> (b: bool)
    ensures
        b == spec_looks_like_vcf(data@),
{
    let n: usize = if data.len() < 512 { data.len() } else { 512 };
    let mut head: Vec<u8> = Vec::new();
    let mut i: usize = 0;
    while i < n
        invariant
            i <= n <= data@.len(),
            head@ == data@.take(i as int),
        decreases n - i,
    {
        head.push(data[i]);
        assert(data@.take(i + 1) =~= data@.take(i as int).push(data@[i as int]));
        i += 1;
    }
    let upper_arr: [u8; 11] = [66, 69, 71, 73, 78, 58, 86, 67, 65, 82, 68];
    let lower_arr: [u8; 11] = [98, 101, 103, 105, 110, 58, 118, 99, 97, 114, 100];
    assert(upper_arr@ =~= begin_upper());
    assert(lower_arr@ =~= begin_lower());
    let upper = bytes_of(Ghost(begin_upper()), upper_arr);
    let lower = bytes_of(Ghost(begin_lower()), lower_arr);
    assert(head@ == data@.take(if data@.len() < 512 { data@.len() as int } else { 512 }));
    assert(upper@ == begin_upper());
    assert(lower@ == begin_lower());
    let found_upper = bytes_contain_exec(&head, &upper);
    let found_lower = bytes_contain_exec(&head, &lower);
    found_upper || found_lower
}

/// The multipart form of an upload, field by field: the last `file` field wins, with
/// its name sanitised.
pub struct UploadForm {
    pub file_name: String,
    pub data: Option<Vec<u8>>,
}

impl UploadForm {
    pub fn new() -> (f: Self)
        ensures
            f.file_name@ == "upload.vcf"@,
            f.data is None,
    {
        UploadForm { file_name: String::from_str("upload.vcf"), data: None }
    }

    /// Only the `file` field is read.
    pub fn wants_field(name: Option<&str>) -> (b: bool)
        ensures
            b == (opt_text(name) == Some("file"@)),
    {
        match name {
            Some(n) => lit_eq(&chars_of(n), "file"),
            None => false,
        }
    }

    /// A `file` field: over the size limit is 413; content that does not look like VCF
    /// is 400.
    pub fn accept_file(&mut self, file_name: Option<&str>, data: Vec<u8>, max_bytes: usize) -> (r: Result<(), (u16, String)>)
        ensures
            match file_name {
                Some(n) => final(self).file_name@ == spec_sanitize_name(n@),
                None => final(self).file_name@ == old(self).file_name@,
            },
            data@.len() > max_bytes ==> (r matches Err((c, m)) && c == 413 && m@
                == "upload demasiado grande"@),
            data@.len() <= max_bytes && !spec_looks_like_vcf(data@) ==> (r matches Err((c, m)) && c
                == 400 && m@ == "contenido no parece VCF"@),
            data@.len() <= max_bytes && spec_looks_like_vcf(data@) ==> (r is Ok && (final(self).data
                matches Some(d) && d@ == data@)),
            r is Err ==> final(self).data == old(self).data,
    {
        match file_name {
            Some(n) => {
                self.file_name = Storage::sanitize_name(n);
            },
            None => {},
        }
        if data.len() > max_bytes {
            return Err((413, String::from_str("upload demasiado grande")));
        }
        if !looks_like_vcf(&data) {
            return Err((400, String::from_str("contenido no parece VCF")));
        }
        self.data = Some(data);
        Ok(())
    }

    /// The name and bytes of the upload; 400 when no `file` field came.
    pub fn finish(self) -> (r: Result<(String, Vec<u8>), (u16, String)>)
        ensures
            match self.data {
                Some(d) => r matches Ok((n, x)) && n@ == self.file_name@ && x@ == d@,
                None => r matches Err((c, m)) && c == 400 && m@ == "falta campo file"@,
            },
    {
        match self.data {
            Some(d) => Ok((self.file_name, d)),
            None => Err((400, String::from_str("falta campo file"))),
        }
    }
}

/// The size of an upload as it is streamed to disk, against its limit.
pub struct UploadMeter {
    total: u64,
    max_bytes: usize,
}

impl UploadMeter {
    pub closed spec fn total_view(self) -> nat {
        self.total as nat
    }

    pub closed spec fn limit(self) -> nat {
        self.max_bytes as nat
    }

    pub fn new(max_bytes: usize) -> (m: Self)
        ensures
            m.total_view() == 0,
            m.limit() == max_bytes,
    {
        UploadMeter { total: 0, max_bytes }
    }

    pub fn total(&self) -> (t: u64)
        ensures
            t == self.total_view(),
    {
        self.total
    }

    /// Counts a chunk of `n` bytes; past the limit the upload is refused.
    pub fn add(&mut self, n: usize) -> (r: Result<(), String>)
        ensures
            final(self).limit() == old(self).limit(),
            old(self).total_view() + n <= u64::MAX ==> final(self).total_view() == old(self).total_view() + n
                && (r is Ok <==> ((final(self).total_view() as u64) as usize) <= old(self).limit()),
            old(self).total_view() + n > u64::MAX ==> r is Err,
            r matches Err(m) ==> m@ == "upload excede límite"@,
    {
        let t = match self.total.checked_add(n as u64) {
            Some(t) => t,
            None => {
                return Err(String::from_str("upload excede límite"));
            },
        };
        self.total = t;
        if (t as usize) > self.max_bytes {
            return Err(String::from_str("upload excede límite"));
        }
        Ok(())
    }
}

// ---------------------------------------------------------------------------
// digests

/// A lowercase hexadecimal digit.
pub open spec fn hex_digit(n: u8) -> char {
    if n < 10 {
        ((n + 48) as u8) as char
    } else {
        ((n + 87) as u8) as char
    }
}

/// Lowercase hexadecimal, two digits per byte (what `hex::encode` gives).
pub open spec fn spec_hex(b: Seq<u8>) -> Seq<char>
    decreases b.len(),
{
    if b.len() == 0 {
        Seq::empty()
    } else {
        spec_hex(b.drop_last()) + seq![hex_digit(b.last() / 16), hex_digit(b.last() % 16)]
    }
}

fn hex_char(n: u8) -> (c: char)
    requires
        n < 16,
    ensures
        c == hex_digit(n),
{
    if n < 10 {
        (n + 48) as char
    } else {
        (n + 87) as char
    }
}

pub fn hex_encode(b: &[u8]) -> (r: String)
    ensures
        r@ == spec_hex(b@),
{
    let mut out: Vec<char> = Vec::new();
    let mut i: usize = 0;
    assert(b@.take(0) =~= Seq::<u8>::empty());
    while i < b.len()
        invariant
            i <= b@.len(),
            out@ == spec_hex(b@.take(i as int)),
        decreases b.len() - i,
    {
        let x = b[i];
        out.push(hex_char(x / 16));
        out.push(hex_char(x % 16));
        assert(b@.take(i + 1).drop_last() =~= b@.take(i as int));
        i += 1;
    }
    assert(b@.take(b@.len() as int) =~= b@);
    string_of(&out)
}

/// The SHA-256 digest of bytes, in lowercase hexadecimal (an upload's fingerprint).
pub fn sha256_hex_bytes(data: &[u8]) -> (r: String)
    ensures
        r@ == spec_hex(sha256(data@)),
{
    let d = sha256_digest(data);
    hex_encode(&d)
}

/// The SHA-256 digest of a text's UTF-8 bytes, in lowercase hexadecimal.
pub fn sha256_hex(text: &str) -> (r: String)
    ensures
        r@ == spec_hex(sha256(vstd::utf8::encode_utf8(text@))),
{
    let d = sha256_digest(text.as_bytes());
    hex_encode(&d)
}


// ---------------------------------------------------------------------------
// manifests

pub open spec fn ostr(o: Option<String>) -> Option<Seq<char>> {
    match o {
        Some(s) => Some(s@),
        None => None,
    }
}

fn copy_opt(o: &Option<String>) -> (r: Option<String>)
    ensures
        ostr(r) == ostr(*o),
{
    match o {
        Some(s) => Some(String::from_str(s.as_str())),
        None => None,
    }
}

/// The inline rules TOML of a job request.
pub open spec fn request_toml(body: CreateJobRequest) -> Option<Seq<char>> {
    match body.rules {
        Some(r) => ostr(r.toml),
        None => None,
    }
}

pub open spec fn request_mode(body: CreateJobRequest) -> Seq<char> {
    match body.rules {
        Some(q) => match q.mode {
            Some(m) => m@,
            None => "builtin"@,
        },
        None => "builtin"@,
    }
}

/// The manifest of a job just created: queued, with the upload's digest and size, the
/// rules mode and the digest of the inline rules, and the requested retention (or the
/// server's).
pub fn new_job_manifest(
    job_id: &str,
    body: &CreateJobRequest,
    created_at: &str,
    core_version: &str,
    sha256_hex_of_upload: &str,
    bytes: u64,
    default_retention: u64,
) -> (m: JobManifest)
    ensures
        m.job_id@ == job_id@,
        m.status == JobStatus::Queued,
        ostr(m.display_name) == ostr(body.display_name),
        m.created_at@ == created_at@,
        m.started_at is None,
        m.completed_at is None,
        m.core_version@ == core_version@,
        m.input.original_name@ == body.upload_id@,
        m.input.sha256@ == sha256_hex_of_upload@,
        m.input.bytes == bytes,
        m.input.source_detected is None,
        m.input.vcard_version is None,
        m.input.upload_id@ == body.upload_id@,
        m.rules.mode@ == request_mode(*body),
        ostr(m.rules.sha256) == match request_toml(*body) {
            Some(t) => Some(spec_hex(sha256(vstd::utf8::encode_utf8(t)))),
            None => None,
        },
        m.summary is None,
        m.artifacts@.len() == 0,
        m.error is None,
        m.retention_hours == match body.retention_hours {
            Some(h) => h,
            None => default_retention,
        },
{
    let toml: Option<String> = match &body.rules {
        Some(r) => copy_opt(&r.toml),
        None => None,
    };
    let rules_sha = match &toml {
        Some(t) => Some(sha256_hex(t.as_str())),
        None => None,
    };
    JobManifest {
        job_id: String::from_str(job_id),
        status: JobStatus::Queued,
        display_name: copy_opt(&body.display_name),
        created_at: String::from_str(created_at),
        started_at: None,
        completed_at: None,
        core_version: String::from_str(core_version),
        input: InputMeta {
            original_name: String::from_str(body.upload_id.as_str()),
            sha256: String::from_str(sha256_hex_of_upload),
            bytes,
            source_detected: None,
            vcard_version: None,
            upload_id: String::from_str(body.upload_id.as_str()),
        },
        rules: RulesMeta { mode: rules_mode(&body.rules), sha256: rules_sha },
        summary: None,
        artifacts: Vec::new(),
        error: None,
        retention_hours: match body.retention_hours {
            Some(h) => h,
            None => default_retention,
        },
    }
}

/// The manifest of an audit run: named `audit`, with the rules mode of its TOML.
pub fn audit_manifest(job_id: &str, body: &AuditBody, created_at: &str, core_version: &str, bytes: u64, retention: u64) -> (m: JobManifest)
    ensures
        m.job_id@ == job_id@,
        m.status == JobStatus::Queued,
        ostr(m.display_name) == Some("audit"@),
        m.created_at@ == created_at@,
        m.started_at is None,
        m.completed_at is None,
        m.core_version@ == core_version@,
        m.input.original_name@ == "audit.vcf"@,
        m.input.sha256@.len() == 0,
        m.input.bytes == bytes,
        m.input.source_detected is None,
        m.input.vcard_version is None,
        m.input.upload_id@ == body.upload_id@,
        body.config_toml is Some ==> m.rules.mode@ == "toml_inline"@,
        body.config_toml is None ==> m.rules.mode@ == "builtin"@,
        m.rules.sha256 is None,
        m.summary is None,
        m.artifacts@.len() == 0,
        m.error is None,
        m.retention_hours == retention,
{
    JobManifest {
        job_id: String::from_str(job_id),
        status: JobStatus::Queued,
        display_name: Some(String::from_str("audit")),
        created_at: String::from_str(created_at),
        started_at: None,
        completed_at: None,
        core_version: String::from_str(core_version),
        input: InputMeta {
            original_name: String::from_str("audit.vcf"),
            sha256: String::new(),
            bytes,
            source_detected: None,
            vcard_version: None,
            upload_id: String::from_str(body.upload_id.as_str()),
        },
        rules: RulesMeta { mode: String::from_str(audit_rules_mode(&body.config_toml)), sha256: None },
        summary: None,
        artifacts: Vec::new(),
        error: None,
        retention_hours: retention,
    }
}

/// An audit that ran: completed, with its one artifact.
pub fn complete_audit(m: &mut JobManifest, completed_at: &str)
    ensures
        final(m).status == JobStatus::Completed,
        ostr(final(m).completed_at) == Some(completed_at@),
        string_views(final(m).artifacts@) == seq!["audit_tsv"@],
        *final(m) == (JobManifest {
            status: final(m).status,
            completed_at: final(m).completed_at,
            artifacts: final(m).artifacts,
            ..*old(m)
        }),
{
    m.status = JobStatus::Completed;
    m.completed_at = Some(String::from_str(completed_at));
    let mut a: Vec<String> = Vec::new();
    a.push(String::from_str("audit_tsv"));
    assert(string_views(a@) =~= seq!["audit_tsv"@]);
    m.artifacts = a;
}

/// A job picked up by the worker: validating, with its start time.
pub fn mark_started(m: &mut JobManifest, now: &str)
    ensures
        final(m).status == JobStatus::Validating,
        ostr(final(m).started_at) == Some(now@),
        *final(m) == (JobManifest {
            status: final(m).status,
            started_at: final(m).started_at,
            ..*old(m)
        }),
{
    m.status = JobStatus::Validating;
    m.started_at = Some(String::from_str(now));
}

pub open spec fn descriptor_names(a: Seq<ArtifactDescriptor>) -> Seq<Seq<char>> {
    a.map_values(|d: ArtifactDescriptor| kind_name(d.kind))
}

/// A job whose processing returned: cancelled when the token was set meanwhile (nothing
/// of the result is kept), else completed with its summary and the names of its
/// artifacts; either way with its end time.
pub fn mark_finished(m: &mut JobManifest, cancelled: bool, summary: &ProcessSummary, artifacts: &Vec<ArtifactDescriptor>, now: &str)
    ensures
        cancelled ==> final(m).status == JobStatus::Cancelled && final(m).summary == old(m).summary
            && final(m).artifacts == old(m).artifacts,
        !cancelled ==> final(m).status == JobStatus::Completed && final(m).summary == Some(*summary)
            && string_views(final(m).artifacts@) == descriptor_names(artifacts@),
        ostr(final(m).completed_at) == Some(now@),
        *final(m) == (JobManifest {
            status: final(m).status,
            completed_at: final(m).completed_at,
            summary: final(m).summary,
            artifacts: final(m).artifacts,
            ..*old(m)
        }),
{
    if cancelled {
        m.status = JobStatus::Cancelled;
    } else {
        m.status = JobStatus::Completed;
        m.summary = Some(ProcessSummary {
            input_contacts: summary.input_contacts,
            retained: summary.retained,
            needs_review: summary.needs_review,
            eliminated: summary.eliminated,
            quarantine: summary.quarantine,
            duplicate_groups: summary.duplicate_groups,
        });
        let mut names: Vec<String> = Vec::new();
        let mut i: usize = 0;
        while i < artifacts.len()
            invariant
                i <= artifacts@.len(),
                string_views(names@) == descriptor_names(artifacts@).take(i as int),
            decreases artifacts.len() - i,
        {
            let ghost prev = names@;
            names.push(String::from_str(artifact_kind_str(artifacts[i].kind)));
            assert(string_views(names@) =~= string_views(prev).push(kind_name(artifacts@[i as int].kind)));
            assert(descriptor_names(artifacts@).take(i + 1) =~= descriptor_names(artifacts@).take(i as int).push(kind_name(artifacts@[i as int].kind)));
            i += 1;
        }
        assert(descriptor_names(artifacts@).take(artifacts@.len() as int) =~= descriptor_names(artifacts@));
        m.artifacts = names;
    }
    m.completed_at = Some(String::from_str(now));
}

/// A job cancelled before it ran.
pub fn mark_cancelled(m: &mut JobManifest, now: &str)
    ensures
        final(m).status == JobStatus::Cancelled,
        ostr(final(m).completed_at) == Some(now@),
        *final(m) == (JobManifest {
            status: final(m).status,
            completed_at: final(m).completed_at,
            ..*old(m)
        }),
{
    m.status = JobStatus::Cancelled;
    m.completed_at = Some(String::from_str(now));
}

/// A job whose processing failed: failed, with the error's message and its end time.
pub fn mark_failed(m: &mut JobManifest, error: &str, now: &str)
    ensures
        final(m).status == JobStatus::Failed,
        ostr(final(m).error) == Some(error@),
        ostr(final(m).completed_at) == Some(now@),
        *final(m) == (JobManifest {
            status: final(m).status,
            error: final(m).error,
            completed_at: final(m).completed_at,
            ..*old(m)
        }),
{
    m.status = JobStatus::Failed;
    m.error = Some(String::from_str(error));
    m.completed_at = Some(String::from_str(now));
}


// ---------------------------------------------------------------------------
// artifacts' media types and retention

/// The media type (essence) that mime_guess gives a file name by its extension, or
/// `application/octet-stream`.
pub uninterp spec fn mime_essence(name: Seq<char>) -> Seq<char>;

/// Calls `mime_guess::from_path(..).first_or_octet_stream()` and `essence_str`; the media
/// type is named by `mime_essence`.
#[verifier::external_body]
fn guess_mime(name: &str) -> (r: String)
    ensures
        r@ == mime_essence(name@),
{
    mime_guess::from_path(name).first_or_octet_stream().essence_str().to_string()
}

/// The `Content-Type` of a downloaded artifact.
pub fn artifact_content_type(filename: &str) -> (r: String)
    ensures
        r@ == mime_essence(filename@),
{
    guess_mime(filename)
}

/// The instant an RFC 3339 stamp denotes, as whole seconds since the Unix epoch and the
/// nanoseconds past them, when chrono parses it.
pub uninterp spec fn rfc3339_instant(s: Seq<char>) -> Option<(i64, u32)>;

/// Calls `chrono::DateTime::parse_from_rfc3339`, then `timestamp` and
/// `timestamp_subsec_nanos`; the instant is named by `rfc3339_instant`.
#[verifier::external_body]
fn parse_rfc3339(s: &str) -> (r: Option<(i64, u32)>)
    ensures
        r == rfc3339_instant(s@),
{
    match chrono::DateTime::parse_from_rfc3339(s) {
        Ok(t) => Some((t.timestamp(), t.timestamp_subsec_nanos())),
        Err(_) => None,
    }
}

/// The whole hours from `then` to `now` (rounded toward zero), as chrono's
/// `signed_duration_since(..).num_hours()` counts them.
pub open spec fn whole_hours(now: (i64, u32), then: (i64, u32)) -> int {
    let nanos = (now.0 - then.0) * 1_000_000_000 + (now.1 - then.1);
    let secs = if nanos >= 0 { nanos / 1_000_000_000 } else { -((-nanos) / 1_000_000_000) };
    if secs >= 0 { secs / 3600 } else { -((-secs) / 3600) }
}

/// A job is expired when it has an end time that parses and at least `retention_hours`
/// whole hours have passed since.
pub open spec fn spec_expired(now: (i64, u32), completed_at: Option<Seq<char>>, retention_hours: u64) -> bool {
    match completed_at {
        None => false,
        Some(c) => match rfc3339_instant(c) {
            None => false,
            Some(t) => whole_hours(now, t) >= (retention_hours as i64),
        },
    }
}

/// The retention sweep's decision for one job, at `now` (seconds and nanoseconds).
pub fn job_expired(now: (i64, u32), completed_at: Option<&str>, retention_hours: u64) -> (b: bool)
    ensures
        b == spec_expired(now, opt_text(completed_at), retention_hours),
{
    let c = match completed_at {
        Some(c) => c,
        None => {
            return false;
        },
    };
    let t = match parse_rfc3339(c) {
        Some(t) => t,
        None => {
            return false;
        },
    };
    let nanos: i128 = (now.0 as i128 - t.0 as i128) * 1_000_000_000 + (now.1 as i128 - t.1 as i128);
    let secs: i128 = if nanos >= 0 { nanos / 1_000_000_000 } else { -((-nanos) / 1_000_000_000) };
    let hours: i128 = if secs >= 0 { secs / 3600 } else { -((-secs) / 3600) };
    let limit: i64 = retention_hours as i64;
    hours >= limit as i128
}


/// An instant given as (seconds, nanoseconds), counted in nanoseconds.
pub open spec fn instant_nanos(x: (i64, u32)) -> int {
    x.0 * 1_000_000_000 + x.1
}

spec fn tdiv(d: int, k: int) -> int {
    if d >= 0 {
        d / k
    } else {
        -((-d) / k)
    }
}

proof fn lemma_tdiv_monotone(d1: int, d2: int, k: int)
    requires
        d1 <= d2,
        k > 0,
    ensures
        tdiv(d1, k) <= tdiv(d2, k),
{
    if d1 >= 0 {
        vstd::arithmetic::div_mod::lemma_div_is_ordered(d1, d2, k);
    } else if d2 >= 0 {
        vstd::arithmetic::div_mod::lemma_div_pos_is_pos(-d1, k);
        vstd::arithmetic::div_mod::lemma_div_pos_is_pos(d2, k);
    } else {
        vstd::arithmetic::div_mod::lemma_div_is_ordered(-d2, -d1, k);
    }
}

proof fn lemma_whole_hours_of_span(now: (i64, u32), then: (i64, u32))
    ensures
        whole_hours(now, then) == tdiv(
            tdiv(instant_nanos(now) - instant_nanos(then), 1_000_000_000),
            3600,
        ),
{
    let a: int = now.0 as int;
    let b: int = then.0 as int;
    assert((a - b) * 1_000_000_000 == a * 1_000_000_000 - b * 1_000_000_000) by (nonlinear_arith);
}

/// A finished job whose end time parses is expired once at least `retention_hours` whole
/// hours have passed since that end time.
pub proof fn law_expired_after_retention(
    now: (i64, u32),
    completed_at: Seq<char>,
    retention_hours: u64,
    t: (i64, u32),
)
    requires
        rfc3339_instant(completed_at) == Some(t),
        instant_nanos(now) >= instant_nanos(t) + retention_hours * 3600 * 1_000_000_000,
    ensures
        spec_expired(now, Some(completed_at), retention_hours),
{
    let r: int = retention_hours as int;
    let d: int = instant_nanos(now) - instant_nanos(t);
    lemma_whole_hours_of_span(now, t);
    let n0: int = now.0 as int;
    let t0: int = t.0 as int;
    let hi: int = (0x7fff_ffff_ffff_ffff as int) * 1_000_000_000;
    let lo: int = (0x8000_0000_0000_0000 as int) * 1_000_000_000;
    assert(n0 * 1_000_000_000 <= hi);
    assert(-t0 * 1_000_000_000 <= lo);
    assert(instant_nanos(now) == n0 * 1_000_000_000 + now.1 as int);
    assert(instant_nanos(t) == t0 * 1_000_000_000 + t.1 as int);
    assert(d <= hi + lo + 0xffff_ffff);
    assert(r < 0x4000_0000_0000_0000) by (nonlinear_arith)
        requires
            d >= r * 3600 * 1_000_000_000,
            d <= hi + lo + 0xffff_ffff,
            hi == 0x7fff_ffff_ffff_ffff * 1_000_000_000,
            lo == 0x8000_0000_0000_0000 * 1_000_000_000,
            r >= 0,
    ;
    assert(r * 3600 * 1_000_000_000 == 1_000_000_000 * (r * 3600)) by (nonlinear_arith);
    vstd::arithmetic::div_mod::lemma_div_is_ordered(r * 3600 * 1_000_000_000, d, 1_000_000_000);
    vstd::arithmetic::div_mod::lemma_div_multiples_vanish(r * 3600, 1_000_000_000);
    let secs = d / 1_000_000_000;
    assert(secs >= r * 3600);
    assert(r * 3600 == 3600 * r) by (nonlinear_arith);
    vstd::arithmetic::div_mod::lemma_div_is_ordered(r * 3600, secs, 3600);
    vstd::arithmetic::div_mod::lemma_div_multiples_vanish(r, 3600);
    assert(whole_hours(now, t) >= r);
    assert((retention_hours as i64) as int == r);
}

/// Expiry only grows with time: a job expired at one instant stays expired at every later
/// one.
pub proof fn law_expiry_is_monotone(
    now1: (i64, u32),
    now2: (i64, u32),
    completed_at: Option<Seq<char>>,
    retention_hours: u64,
)
    requires
        spec_expired(now1, completed_at, retention_hours),
        instant_nanos(now1) <= instant_nanos(now2),
    ensures
        spec_expired(now2, completed_at, retention_hours),
{
    let c = completed_at->0;
    let t = rfc3339_instant(c)->0;
    lemma_whole_hours_of_span(now1, t);
    lemma_whole_hours_of_span(now2, t);
    let d1 = instant_nanos(now1) - instant_nanos(t);
    let d2 = instant_nanos(now2) - instant_nanos(t);
    lemma_tdiv_monotone(d1, d2, 1_000_000_000);
    lemma_tdiv_monotone(tdiv(d1, 1_000_000_000), tdiv(d2, 1_000_000_000), 3600);
}

// ---------------------------------------------------------------------------
// server settings

/// A numeric setting from the environment: its value when it parses as a number of the
/// setting's range, else the default.
pub open spec fn spec_setting(raw: Option<Seq<char>>, bound: nat, default: nat) -> nat {
    match raw {
        Some(r) => match spec_parse_uint(r, bound) {
            Some(v) => v,
            None => default,
        },
        None => default,
    }
}

/// `ZEDAZO_JOB_RETENTION_HOURS` and the like (`u64`).
pub fn setting_u64(raw: Option<&str>, default: u64) -> (r: u64)
    ensures
        r == spec_setting(opt_text(raw), u64::MAX as nat + 1, default as nat),
{
    match raw {
        Some(t) => match parse_uint(&chars_of(t), 18446744073709551616u128) {
            Some(v) => v,
            None => default,
        },
        None => default,
    }
}

/// `ZEDAZO_MAX_UPLOAD_BYTES` (`usize`).
pub fn setting_usize(raw: Option<&str>, default: usize) -> (r: usize)
    ensures
        r == spec_setting(opt_text(raw), usize::MAX as nat + 1, default as nat),
{
    let bound: u128 = (usize::MAX as u128) + 1;
    assert(bound <= u64::MAX as u128 + 1);
    match raw {
        Some(t) => match parse_uint(&chars_of(t), bound) {
            Some(v) => v as usize,
            None => default,
        },
        None => default,
    }
}

} // verus!
