//! The processing contract shared by the CLI and the API: artifacts, phases, cancellation,
//! and the views of a processing result.
use vstd::prelude::*;

use std::sync::atomic::AtomicBool;
use std::sync::Arc;

use crate::domain::{AuditAction, AuditEntry, Contact, ScreeningDecision, TypedValue};
use crate::text::{sort_strings, string_views, text_leq};

verus! {

#[verifier::external_type_specification]
#[verifier::external_body]
pub struct ExPathBuf(std::path::PathBuf);

/// `PathBuf::clone` gives a path equal to the original.
pub assume_specification[ <std::path::PathBuf as Clone>::clone ](p: &std::path::PathBuf) -> (r:
    std::path::PathBuf)
    ensures
        r == *p,
;

/// Opaque job identifier (ULID or UUID text).
#[derive(Debug, Clone, PartialEq, Eq, Hash)]
pub struct JobId(pub String);

/// The artifacts that processing can produce.
#[derive(Debug, Clone, Copy, PartialEq, Eq, Structural, PartialOrd, Ord, Hash)]
pub enum ArtifactKind {
    Vcf,
    AuditTsv,
    StatsJson,
    StatsMarkdown,
    Csv,
    Json,
}

/// Where the screening rules come from.
#[derive(Debug, Clone)]
pub enum RulesConfigSource {
    BuiltIn,
    TomlPath(std::path::PathBuf),
    TomlInline(String),
}

/// Cooperative cancellation signal, shared between the worker and whoever cancels.
#[derive(Debug, Clone)]
pub struct CancellationToken {
    cancelled: Arc<AtomicBool>,
}

/// Processing stopped at a safe point because it was cancelled.
#[derive(Debug, Clone, Copy, PartialEq, Eq)]
pub struct Cancelled;

impl Cancelled {
    /// The text of the cancellation.
    pub fn message(&self) -> (r: &'static str)
        ensures
            r@ == "procesamiento cancelado"@,
    {
        "procesamiento cancelado"
    }
}

/// The result of a cancellation check for a flag value: `Err(Cancelled)` exactly when set.
pub fn cancellation_result(cancelled: bool) -> (r: Result<(), Cancelled>)
    ensures
        r is Err <==> cancelled,
{
    if cancelled {
        Err(Cancelled)
    } else {
        Ok(())
    }
}

impl CancellationToken {
    /// A fresh token that is not cancelled. The flag lives in a shared `AtomicBool`, whose
    /// value no specification exposes, so no clause states it.
    pub fn new() -> (r: Self) {
        CancellationToken { cancelled: Arc::new(AtomicBool::new(false)) }
    }

    /// Sets the shared flag; every clone of the token sees it.
    pub fn cancel(&self) {
        self.cancelled.store(true, std::sync::atomic::Ordering::SeqCst);
    }

    /// Reads the shared flag (another thread may set it at any time, so no clause states
    /// what is read).
    pub fn is_cancelled(&self) -> bool {
        self.cancelled.load(std::sync::atomic::Ordering::SeqCst)
    }

    /// `Err(Cancelled)` if the flag read was set, `Ok(())` otherwise: the read is
    /// `is_cancelled`, and what follows it is `cancellation_result`.
    pub fn check(&self) -> Result<(), Cancelled> {
        let c = self.is_cancelled();
        cancellation_result(c)
    }
}

impl Default for CancellationToken {
    fn default() -> Self {
        CancellationToken::new()
    }
}

/// The phases that a processing run reports, in order.
#[derive(Debug, Clone, Copy, PartialEq, Eq, Structural)]
pub enum ProcessPhase {
    Validating,
    Parsing,
    Screening,
    Normalizing,
    Classifying,
    Deduplicating,
    Verifying,
    WritingArtifacts,
    Completed,
    Failed,
    Cancelled,
}

/// Receives the progress of a run (implemented by the CLI, the API and tests).
pub trait ProgressReporter: Send + Sync {
    fn phase(&self, phase: ProcessPhase);

    fn metric(&self, name: &str, value: u64);

    fn message(&self, msg: &str);
}

/// Discards all progress.
#[derive(Debug, Default)]
pub struct NullProgress;

impl ProgressReporter for NullProgress {
    fn phase(&self, _phase: ProcessPhase) {
    }

    fn metric(&self, _name: &str, _value: u64) {
    }

    fn message(&self, _msg: &str) {
    }
}

/// One processing run as the CLI and the API ask for it.
pub struct ProcessRequest {
    pub job_id: JobId,
    pub input_path: std::path::PathBuf,
    pub working_directory: std::path::PathBuf,
    pub config: RulesConfigSource,
    /// The artifacts asked for (each once).
    pub requested_artifacts: Vec<ArtifactKind>,
    pub source_override: String,
    pub dry_run: bool,
    pub strict: bool,
    pub cancellation: CancellationToken,
    pub progress: Arc<dyn ProgressReporter>,
}

/// Counts of a processing run.
#[derive(Debug, Clone, PartialEq, Eq)]
pub struct ProcessSummary {
    pub input_contacts: usize,
    pub retained: usize,
    pub needs_review: usize,
    pub eliminated: usize,
    pub quarantine: usize,
    pub duplicate_groups: usize,
}

#[derive(Debug, Clone, PartialEq, Eq)]
pub struct ProcessWarning {
    pub code: String,
    pub message: String,
}

/// A produced artifact; `bytes` when its size is known.
#[derive(Debug, Clone)]
pub struct ArtifactDescriptor {
    pub kind: ArtifactKind,
    pub path: std::path::PathBuf,
    pub bytes: Option<u64>,
}

/// What a processing run produced.
#[derive(Debug)]
pub struct ProcessResult {
    pub summary: ProcessSummary,
    pub contacts: Vec<Contact>,
    pub contact_views: Vec<ContactView>,
    pub duplicate_groups: Vec<DuplicateGroupView>,
    pub audit_events: Vec<AuditEventView>,
    pub audit_entries: Vec<AuditEntry>,
    pub artifacts: Vec<ArtifactDescriptor>,
    pub warnings: Vec<ProcessWarning>,
}

/// A contact as the API lists it.
#[derive(Debug, Clone, PartialEq, Eq)]
pub struct ContactView {
    pub uid: String,
    pub fn_value: String,
    pub result: String,
    pub screening_rule: Option<String>,
    pub categories: Vec<String>,
    pub emails: Vec<String>,
    pub tels: Vec<String>,
    pub merged_uids: Vec<String>,
}

/// A set of merged duplicates: the surviving contact and all members.
#[derive(Debug, Clone, PartialEq, Eq)]
pub struct DuplicateGroupView {
    pub canonical_uid: String,
    pub member_uids: Vec<String>,
}

/// One audit line as the API lists it.
#[derive(Debug, Clone, PartialEq, Eq)]
pub struct AuditEventView {
    pub uid: String,
    pub action: String,
    pub rule: String,
    pub evidence: String,
}

pub open spec fn decision_label(d: ScreeningDecision) -> Seq<char> {
    match d {
        ScreeningDecision::Conserved => "conserved"@,
        ScreeningDecision::Eliminated(_) => "eliminated"@,
        ScreeningDecision::NeedsReview(_) => "needs_review"@,
        ScreeningDecision::Quarantine(_) => "quarantine"@,
    }
}

pub open spec fn action_label(a: AuditAction) -> Seq<char> {
    match a {
        AuditAction::Conserved => "conserved"@,
        AuditAction::Eliminated => "eliminated"@,
        AuditAction::Quarantine => "quarantine"@,
        AuditAction::NeedsReview => "needs_review"@,
        AuditAction::Merged => "merged"@,
    }
}

pub open spec fn values_of(v: Seq<TypedValue>) -> Seq<Seq<char>> {
    v.map_values(|t: TypedValue| t.value@)
}

/// All category codes of a contact, levels N1, N2, N3 in that order.
pub open spec fn all_categories(c: Contact) -> Seq<Seq<char>> {
    string_views(c.categories.n1@) + string_views(c.categories.n2@) + string_views(
        c.categories.n3@,
    )
}

/// `v` is the API view of contact `c`.
pub open spec fn is_view_of(v: ContactView, c: Contact) -> bool {
    &&& v.uid == c.uid
    &&& v.fn_value == c.fn_value
    &&& v.result@ == decision_label(c.decision)
    &&& v.screening_rule == if c.screening_rule@.len() == 0 {
        None
    } else {
        Some(c.screening_rule)
    }
    &&& vstd::relations::sorted_by(string_views(v.categories@), text_leq())
    &&& string_views(v.categories@).to_multiset() == all_categories(c).to_multiset()
    &&& string_views(v.emails@) == values_of(c.emails@)
    &&& string_views(v.tels@) == values_of(c.tels@)
    &&& v.merged_uids@ == c.merged_uids@
}

fn clone_strings(v: &Vec<String>) -> (r: Vec<String>)
    ensures
        r@ == v@,
{
    let mut r: Vec<String> = Vec::new();
    let mut i: usize = 0;
    while i < v.len()
        invariant
            i <= v@.len(),
            r@ == v@.take(i as int),
        decreases v.len() - i,
    {
        r.push(v[i].clone());
        i += 1;
        assert(r@ =~= v@.take(i as int));
    }
    assert(v@.take(v@.len() as int) =~= v@);
    r
}

fn append_strings(out: &mut Vec<String>, v: &Vec<String>)
    ensures
        final(out)@ == old(out)@ + v@,
{
    let mut i: usize = 0;
    while i < v.len()
        invariant
            i <= v@.len(),
            out@ == old(out)@ + v@.take(i as int),
        decreases v.len() - i,
    {
        out.push(v[i].clone());
        i += 1;
        assert(out@ =~= old(out)@ + v@.take(i as int));
    }
    assert(v@.take(v@.len() as int) =~= v@);
}

fn values_vec(v: &Vec<TypedValue>) -> (r: Vec<String>)
    ensures
        string_views(r@) == values_of(v@),
{
    let mut r: Vec<String> = Vec::new();
    let mut i: usize = 0;
    while i < v.len()
        invariant
            i <= v@.len(),
            string_views(r@) == values_of(v@).take(i as int),
        decreases v.len() - i,
    {
        let s = v[i].value.clone();
        let ghost before = r@;
        r.push(s);
        assert(string_views(r@) =~= string_views(before).push(s@));
        assert(values_of(v@).take(i + 1) =~= values_of(v@).take(i as int).push(v@[i as int].value@));
        i += 1;
    }
    assert(values_of(v@).take(v@.len() as int) =~= values_of(v@));
    r
}

impl ContactView {
    /// The API view of a contact: its decision as a label, its categories sorted, and its
    /// e-mail and telephone values.
    pub fn from_contact(c: &Contact) -> (r: Self)
        ensures
            is_view_of(r, *c),
    {
        let result = match &c.decision {
            ScreeningDecision::Conserved => String::from_str("conserved"),
            ScreeningDecision::Eliminated(_) => String::from_str("eliminated"),
            ScreeningDecision::NeedsReview(_) => String::from_str("needs_review"),
            ScreeningDecision::Quarantine(_) => String::from_str("quarantine"),
        };
        let mut cats: Vec<String> = clone_strings(&c.categories.n1);
        append_strings(&mut cats, &c.categories.n2);
        append_strings(&mut cats, &c.categories.n3);
        assert(string_views(cats@) =~= all_categories(*c));
        let categories = sort_strings(cats);
        let screening_rule = if c.screening_rule.as_str().is_empty() {
            None
        } else {
            Some(c.screening_rule.clone())
        };
        ContactView {
            uid: c.uid.clone(),
            fn_value: c.fn_value.clone(),
            result,
            screening_rule,
            categories,
            emails: values_vec(&c.emails),
            tels: values_vec(&c.tels),
            merged_uids: clone_strings(&c.merged_uids),
        }
    }
}

impl AuditEventView {
    /// The API view of an audit entry; the evidence is the entry's reason.
    pub fn from_entry(e: &AuditEntry) -> (r: Self)
        ensures
            r.uid == e.uid,
            r.action@ == action_label(e.action),
            r.rule == e.rule,
            r.evidence == e.reason,
    {
        let action = match e.action {
            AuditAction::Conserved => "conserved",
            AuditAction::Eliminated => "eliminated",
            AuditAction::Quarantine => "quarantine",
            AuditAction::NeedsReview => "needs_review",
            AuditAction::Merged => "merged",
        };
        AuditEventView {
            uid: e.uid.clone(),
            action: String::from_str(action),
            rule: e.rule.clone(),
            evidence: e.reason.clone(),
        }
    }
}


/// How many contacts got a decision with the given label.
pub open spec fn count_label(cs: Seq<Contact>, label: Seq<char>) -> nat
    decreases cs.len(),
{
    if cs.len() == 0 {
        0
    } else {
        count_label(cs.drop_last(), label) + if decision_label(cs.last().decision) == label {
            1nat
        } else {
            0nat
        }
    }
}

/// How many contacts absorbed duplicates.
pub open spec fn count_merged(cs: Seq<Contact>) -> nat
    decreases cs.len(),
{
    if cs.len() == 0 {
        0
    } else {
        count_merged(cs.drop_last()) + if cs.last().merged_uids@.len() > 0 { 1nat } else { 0nat }
    }
}

/// The summary of a run over `contacts`, with `input_contacts` as parsed.
pub open spec fn summary_of(input_contacts: usize, cs: Seq<Contact>) -> ProcessSummary {
    ProcessSummary {
        input_contacts,
        retained: count_label(cs, "conserved"@) as usize,
        needs_review: count_label(cs, "needs_review"@) as usize,
        eliminated: count_label(cs, "eliminated"@) as usize,
        quarantine: count_label(cs, "quarantine"@) as usize,
        duplicate_groups: count_merged(cs) as usize,
    }
}

proof fn lemma_counts_bounded(cs: Seq<Contact>, label: Seq<char>)
    ensures
        count_label(cs, label) <= cs.len(),
        count_merged(cs) <= cs.len(),
    decreases cs.len(),
{
    if cs.len() > 0 {
        lemma_counts_bounded(cs.drop_last(), label);
    }
}

/// Counts the decisions and the duplicate groups of the screened contacts.
pub fn summarize(input_contacts: usize, contacts: &[Contact]) -> (r: ProcessSummary)
    ensures
        r == summary_of(input_contacts, contacts@),
{
    let mut retained: usize = 0;
    let mut needs_review: usize = 0;
    let mut eliminated: usize = 0;
    let mut quarantine: usize = 0;
    let mut groups: usize = 0;
    let mut i: usize = 0;
    proof {
        reveal_strlit("conserved");
        reveal_strlit("needs_review");
        reveal_strlit("eliminated");
        reveal_strlit("quarantine");
    }
    while i < contacts.len()
        invariant
            i <= contacts@.len(),
            retained == count_label(contacts@.take(i as int), "conserved"@),
            needs_review == count_label(contacts@.take(i as int), "needs_review"@),
            eliminated == count_label(contacts@.take(i as int), "eliminated"@),
            quarantine == count_label(contacts@.take(i as int), "quarantine"@),
            groups == count_merged(contacts@.take(i as int)),
        decreases contacts.len() - i,
    {
        proof {
            lemma_counts_bounded(contacts@.take(i as int), "conserved"@);
            lemma_counts_bounded(contacts@.take(i as int), "needs_review"@);
            lemma_counts_bounded(contacts@.take(i as int), "eliminated"@);
            lemma_counts_bounded(contacts@.take(i as int), "quarantine"@);
            reveal_strlit("conserved");
            reveal_strlit("needs_review");
            reveal_strlit("eliminated");
            reveal_strlit("quarantine");
            assert("conserved"@[0] != "needs_review"@[0]);
            assert("conserved"@[0] != "eliminated"@[0]);
            assert("conserved"@[0] != "quarantine"@[0]);
            assert("needs_review"@[0] != "eliminated"@[0]);
            assert("needs_review"@[0] != "quarantine"@[0]);
            assert("eliminated"@[0] != "quarantine"@[0]);
        }
        assert(contacts@.take(i + 1).drop_last() =~= contacts@.take(i as int));
        assert(contacts@.take(i + 1).last() == contacts@[i as int]);
        let c = &contacts[i];
        match &c.decision {
            ScreeningDecision::Conserved => retained += 1,
            ScreeningDecision::NeedsReview(_) => needs_review += 1,
            ScreeningDecision::Eliminated(_) => eliminated += 1,
            ScreeningDecision::Quarantine(_) => quarantine += 1,
        }
        if c.merged_uids.len() > 0 {
            groups += 1;
        }
        i += 1;
    }
    assert(contacts@.take(contacts@.len() as int) =~= contacts@);
    ProcessSummary {
        input_contacts,
        retained,
        needs_review,
        eliminated,
        quarantine,
        duplicate_groups: groups,
    }
}

/// Every contact carries exactly one of the four decisions, so the four counts add up to
/// the number of contacts.
pub proof fn law_summary_partitions_contacts(cs: Seq<Contact>)
    ensures
        count_label(cs, "conserved"@) + count_label(cs, "needs_review"@) + count_label(
            cs,
            "eliminated"@,
        ) + count_label(cs, "quarantine"@) == cs.len(),
    decreases cs.len(),
{
    reveal_strlit("conserved");
    reveal_strlit("needs_review");
    reveal_strlit("eliminated");
    reveal_strlit("quarantine");
    if cs.len() > 0 {
        law_summary_partitions_contacts(cs.drop_last());
        assert("conserved"@[0] != "needs_review"@[0]);
        assert("conserved"@[0] != "eliminated"@[0]);
        assert("conserved"@[0] != "quarantine"@[0]);
        assert("needs_review"@[0] != "eliminated"@[0]);
        assert("needs_review"@[0] != "quarantine"@[0]);
        assert("eliminated"@[0] != "quarantine"@[0]);
    }
}

/// The duplicate groups in contact order: each merging contact with its absorbed UIDs
/// followed by its own UID.
pub open spec fn dup_groups(cs: Seq<Contact>) -> Seq<(Seq<char>, Seq<Seq<char>>)>
    decreases cs.len(),
{
    if cs.len() == 0 {
        Seq::empty()
    } else {
        let prev = dup_groups(cs.drop_last());
        let c = cs.last();
        if c.merged_uids@.len() > 0 {
            prev.push((c.uid@, string_views(c.merged_uids@).push(c.uid@)))
        } else {
            prev
        }
    }
}

pub open spec fn group_views(v: Seq<DuplicateGroupView>) -> Seq<(Seq<char>, Seq<Seq<char>>)> {
    v.map_values(|g: DuplicateGroupView| (g.canonical_uid@, string_views(g.member_uids@)))
}

/// One group per contact that absorbed duplicates.
pub fn duplicate_group_views(contacts: &[Contact]) -> (r: Vec<DuplicateGroupView>)
    ensures
        group_views(r@) == dup_groups(contacts@),
{
    let mut out: Vec<DuplicateGroupView> = Vec::new();
    let mut i: usize = 0;
    while i < contacts.len()
        invariant
            i <= contacts@.len(),
            group_views(out@) == dup_groups(contacts@.take(i as int)),
        decreases contacts.len() - i,
    {
        assert(contacts@.take(i + 1).drop_last() =~= contacts@.take(i as int));
        assert(contacts@.take(i + 1).last() == contacts@[i as int]);
        let c = &contacts[i];
        if c.merged_uids.len() > 0 {
            let mut members = clone_strings(&c.merged_uids);
            let u = c.uid.clone();
            members.push(u);
            assert(string_views(members@) =~= string_views(c.merged_uids@).push(c.uid@));
            let g = DuplicateGroupView { canonical_uid: c.uid.clone(), member_uids: members };
            let ghost before = out@;
            out.push(g);
            assert(group_views(out@) =~= group_views(before).push(
                (g.canonical_uid@, string_views(g.member_uids@)),
            ));
        }
        i += 1;
    }
    assert(contacts@.take(contacts@.len() as int) =~= contacts@);
    out
}

/// The API views of all contacts, in order.
pub fn contact_views(contacts: &[Contact]) -> (r: Vec<ContactView>)
    ensures
        r@.len() == contacts@.len(),
        forall|i: int| 0 <= i < r@.len() ==> is_view_of(#[trigger] r@[i], contacts@[i]),
{
    let mut out: Vec<ContactView> = Vec::new();
    let mut i: usize = 0;
    while i < contacts.len()
        invariant
            i <= contacts@.len(),
            out@.len() == i,
            forall|k: int| 0 <= k < i ==> is_view_of(#[trigger] out@[k], contacts@[k]),
        decreases contacts.len() - i,
    {
        out.push(ContactView::from_contact(&contacts[i]));
        i += 1;
    }
    out
}

/// The requested set holds `k`.
pub open spec fn requested(req: Seq<ArtifactKind>, k: ArtifactKind) -> bool {
    exists|i: int| 0 <= i < req.len() && req[i] == k
}

pub fn wants(req: &[ArtifactKind], k: ArtifactKind) -> (b: bool)
    ensures
        b == requested(req@, k),
{
    let mut i: usize = 0;
    while i < req.len()
        invariant
            i <= req@.len(),
            forall|j: int| 0 <= j < i ==> req@[j] != k,
        decreases req.len() - i,
    {
        if req[i] == k {
            return true;
        }
        i += 1;
    }
    false
}

/// Whether the pipeline writes its VCF and its audit TSV: only when requested, and never
/// in a dry run.
pub fn pipeline_outputs(req: &[ArtifactKind], dry_run: bool) -> (r: (bool, bool))
    ensures
        r.0 == (requested(req@, ArtifactKind::Vcf) && !dry_run),
        r.1 == (requested(req@, ArtifactKind::AuditTsv) && !dry_run),
{
    let vcf = wants(req, ArtifactKind::Vcf) && !dry_run;
    let audit = wants(req, ArtifactKind::AuditTsv) && !dry_run;
    (vcf, audit)
}

/// The artifacts written after the pipeline, in this order: CSV, JSON, stats JSON,
/// stats Markdown; each only when requested and not in a dry run.
pub open spec fn spec_exports(req: Seq<ArtifactKind>, dry_run: bool) -> Seq<ArtifactKind> {
    if dry_run {
        Seq::empty()
    } else {
        let a = if requested(req, ArtifactKind::Csv) { seq![ArtifactKind::Csv] } else { Seq::empty() };
        let b = if requested(req, ArtifactKind::Json) { seq![ArtifactKind::Json] } else { Seq::empty() };
        let c = if requested(req, ArtifactKind::StatsJson) {
            seq![ArtifactKind::StatsJson]
        } else {
            Seq::empty()
        };
        let d = if requested(req, ArtifactKind::StatsMarkdown) {
            seq![ArtifactKind::StatsMarkdown]
        } else {
            Seq::empty()
        };
        a + b + c + d
    }
}

pub fn exported_artifacts(req: &[ArtifactKind], dry_run: bool) -> (r: Vec<ArtifactKind>)
    ensures
        r@ == spec_exports(req@, dry_run),
{
    let mut out: Vec<ArtifactKind> = Vec::new();
    if dry_run {
        return out;
    }
    if wants(req, ArtifactKind::Csv) {
        out.push(ArtifactKind::Csv);
    }
    if wants(req, ArtifactKind::Json) {
        out.push(ArtifactKind::Json);
    }
    if wants(req, ArtifactKind::StatsJson) {
        out.push(ArtifactKind::StatsJson);
    }
    if wants(req, ArtifactKind::StatsMarkdown) {
        out.push(ArtifactKind::StatsMarkdown);
    }
    assert(out@ =~= spec_exports(req@, dry_run));
    out
}

/// A dry run writes nothing.
pub proof fn law_dry_run_writes_nothing(req: Seq<ArtifactKind>)
    ensures
        spec_exports(req, true).len() == 0,
{
}

} // verus!
