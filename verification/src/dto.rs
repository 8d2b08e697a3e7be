//! Data transfer objects of the HTTP API and the artifact names it uses.
use vstd::prelude::*;

use crate::process::{
    ArtifactKind, CancellationToken, ContactView, DuplicateGroupView, ProcessSummary,
    ProcessWarning,
};
use crate::text::{chars_eq, chars_of};

verus! {

/// The states persisted in a job manifest.
#[derive(Debug, Clone, Copy, PartialEq, Eq, Structural)]
pub enum JobStatus {
    Created,
    Uploading,
    Uploaded,
    Queued,
    Validating,
    Parsing,
    Screening,
    Normalizing,
    Classifying,
    Deduplicating,
    Verifying,
    WritingArtifacts,
    Completed,
    Failed,
    CancelRequested,
    Cancelled,
    Expired,
    Deleted,
}

#[derive(Debug, Clone)]
pub struct InputMeta {
    pub original_name: String,
    pub sha256: String,
    pub bytes: u64,
    pub source_detected: Option<String>,
    pub vcard_version: Option<String>,
    pub upload_id: String,
}

#[derive(Debug, Clone)]
pub struct RulesMeta {
    pub mode: String,
    pub sha256: Option<String>,
}

/// The persisted description of a job.
#[derive(Debug, Clone)]
pub struct JobManifest {
    pub job_id: String,
    pub status: JobStatus,
    pub display_name: Option<String>,
    pub created_at: String,
    pub started_at: Option<String>,
    pub completed_at: Option<String>,
    pub core_version: String,
    pub input: InputMeta,
    pub rules: RulesMeta,
    pub summary: Option<ProcessSummary>,
    pub artifacts: Vec<String>,
    pub error: Option<String>,
    pub retention_hours: u64,
}

/// A job held in memory by the API.
#[derive(Debug, Clone)]
pub struct JobRecord {
    pub manifest: JobManifest,
    pub contact_views: Vec<ContactView>,
    pub duplicate_groups: Vec<DuplicateGroupView>,
    pub warnings: Vec<ProcessWarning>,
    pub cancel: CancellationToken,
    pub requested_artifacts: Vec<ArtifactKind>,
    pub config_toml: Option<String>,
}

#[derive(Debug, Clone)]
pub struct RulesRequest {
    pub mode: Option<String>,
    pub toml: Option<String>,
}

#[derive(Debug, Clone)]
pub struct CreateJobRequest {
    pub upload_id: String,
    pub display_name: Option<String>,
    pub rules: Option<RulesRequest>,
    pub artifacts: Option<Vec<String>>,
    pub retention_hours: Option<u64>,
}

#[derive(Debug, Clone)]
pub struct HealthResponse {
    pub status: String,
    pub api_version: String,
    pub core_version: String,
    pub storage_mode: String,
}

#[derive(Debug, Clone)]
pub struct VersionResponse {
    pub version: String,
    pub git_sha: String,
    pub build_date: String,
    pub schema_version: String,
}

#[derive(Debug, Clone)]
pub struct UploadResponse {
    pub upload_id: String,
    pub original_name: String,
    pub bytes: u64,
    pub sha256: String,
}

/// The wire name of an artifact kind.
pub open spec fn kind_name(k: ArtifactKind) -> Seq<char> {
    match k {
        ArtifactKind::Vcf => "vcf"@,
        ArtifactKind::AuditTsv => "audit_tsv"@,
        ArtifactKind::StatsJson => "stats_json"@,
        ArtifactKind::StatsMarkdown => "stats_markdown"@,
        ArtifactKind::Csv => "csv"@,
        ArtifactKind::Json => "json"@,
    }
}

/// The artifact kind with this wire name, if any.
pub open spec fn spec_parse_kind(s: Seq<char>) -> Option<ArtifactKind> {
    if s == "vcf"@ {
        Some(ArtifactKind::Vcf)
    } else if s == "audit_tsv"@ {
        Some(ArtifactKind::AuditTsv)
    } else if s == "stats_json"@ {
        Some(ArtifactKind::StatsJson)
    } else if s == "stats_markdown"@ {
        Some(ArtifactKind::StatsMarkdown)
    } else if s == "csv"@ {
        Some(ArtifactKind::Csv)
    } else if s == "json"@ {
        Some(ArtifactKind::Json)
    } else {
        None
    }
}

fn is_lit(c: &[char], lit: &str) -> (b: bool)
    ensures
        b == (c@ == lit@),
{
    let l = chars_of(lit);
    chars_eq(c, &l)
}

/// Parses the wire name of an artifact kind (`vcf`, `audit_tsv`, ...).
pub fn parse_artifact_kind(s: &str) -> (r: Option<ArtifactKind>)
    ensures
        r == spec_parse_kind(s@),
{
    let c = chars_of(s);
    if is_lit(&c, "vcf") {
        Some(ArtifactKind::Vcf)
    } else if is_lit(&c, "audit_tsv") {
        Some(ArtifactKind::AuditTsv)
    } else if is_lit(&c, "stats_json") {
        Some(ArtifactKind::StatsJson)
    } else if is_lit(&c, "stats_markdown") {
        Some(ArtifactKind::StatsMarkdown)
    } else if is_lit(&c, "csv") {
        Some(ArtifactKind::Csv)
    } else if is_lit(&c, "json") {
        Some(ArtifactKind::Json)
    } else {
        None
    }
}

/// The wire name of an artifact kind.
pub fn artifact_kind_str(k: ArtifactKind) -> (r: &'static str)
    ensures
        r@ == kind_name(k),
{
    match k {
        ArtifactKind::Vcf => "vcf",
        ArtifactKind::AuditTsv => "audit_tsv",
        ArtifactKind::StatsJson => "stats_json",
        ArtifactKind::StatsMarkdown => "stats_markdown",
        ArtifactKind::Csv => "csv",
        ArtifactKind::Json => "json",
    }
}

/// Parsing the wire name of a kind gives the kind back, and a name parses only to the
/// kind that has it.
pub proof fn law_artifact_kind_roundtrip(k: ArtifactKind, s: Seq<char>)
    ensures
        spec_parse_kind(kind_name(k)) == Some(k),
        spec_parse_kind(s) == Some(k) ==> kind_name(k) == s,
{
    reveal_strlit("vcf");
    reveal_strlit("audit_tsv");
    reveal_strlit("stats_json");
    reveal_strlit("stats_markdown");
    reveal_strlit("csv");
    reveal_strlit("json");
    assert("vcf"@ != "audit_tsv"@ && "vcf"@ != "stats_json"@ && "vcf"@ != "stats_markdown"@
        && "vcf"@ != "csv"@ && "vcf"@ != "json"@) by {
        assert("vcf"@[0] != "audit_tsv"@[0] && "vcf"@[0] != "stats_json"@[0] && "vcf"@[0]
            != "stats_markdown"@[0] && "vcf"@[0] != "csv"@[0] && "vcf"@[0] != "json"@[0]);
    }
    assert("audit_tsv"@ != "stats_json"@ && "audit_tsv"@ != "stats_markdown"@ && "audit_tsv"@
        != "csv"@ && "audit_tsv"@ != "json"@) by {
        assert("audit_tsv"@[0] != "stats_json"@[0] && "audit_tsv"@[0] != "stats_markdown"@[0]
            && "audit_tsv"@[0] != "csv"@[0] && "audit_tsv"@[0] != "json"@[0]);
    }
    assert("stats_json"@ != "stats_markdown"@) by {
        assert("stats_json"@[6] != "stats_markdown"@[6]);
    }
    assert("stats_json"@ != "csv"@ && "stats_json"@ != "json"@ && "stats_markdown"@ != "csv"@
        && "stats_markdown"@ != "json"@ && "csv"@ != "json"@) by {
        assert("stats_json"@[0] != "csv"@[0] && "stats_json"@[0] != "json"@[0]
            && "stats_markdown"@[0] != "csv"@[0] && "stats_markdown"@[0] != "json"@[0]
            && "csv"@[0] != "json"@[0]);
    }
}

} // verus!
