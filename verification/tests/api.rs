use zedazo::api::{
    after_event_id, audit_manifest, audit_rows, audit_rules_mode, content_disposition,
    contact_positions, default_artifacts, download_target, event_is_new, find_contact,
    finished_status, hex_encode, job_status_str, list_order, looks_like_vcf, mark_failed,
    mark_finished, mark_started, new_job_manifest, requested_artifacts, rules_mode, rules_source,
    setting_u64, setting_usize, sha256_hex, sha256_hex_bytes, stats_allowed, status_matches,
    AuditBody, UploadForm, UploadMeter,
};
use zedazo::dto::{CreateJobRequest, JobManifest, JobStatus, RulesRequest};
use zedazo::process::{ArtifactDescriptor, ArtifactKind, ContactView, ProcessSummary, RulesConfigSource};

fn request(upload: &str, toml: Option<&str>, retention: Option<u64>) -> CreateJobRequest {
    CreateJobRequest {
        upload_id: upload.to_string(),
        display_name: Some("lista".to_string()),
        rules: Some(RulesRequest { mode: None, toml: toml.map(str::to_string) }),
        artifacts: None,
        retention_hours: retention,
    }
}

fn manifest(id: &str, created: &str, status: JobStatus) -> JobManifest {
    let mut m = new_job_manifest(id, &request("u1", None, None), created, "0.1.0", "00", 10, 24);
    m.status = status;
    m
}

#[test]
fn job_status_wire_names() {
    assert_eq!(job_status_str(JobStatus::WritingArtifacts), "writing_artifacts");
    assert_eq!(job_status_str(JobStatus::CancelRequested), "cancel_requested");
    assert!(status_matches(JobStatus::Queued, Some("queued")));
    assert!(!status_matches(JobStatus::Queued, Some("Queued")));
    assert!(status_matches(JobStatus::Failed, None));
}

#[test]
fn jobs_are_listed_newest_first() {
    let jobs = vec![
        manifest("a", "2024-01-01T00:00:00Z", JobStatus::Completed),
        manifest("b", "2024-03-01T00:00:00Z", JobStatus::Queued),
        manifest("c", "2024-02-01T00:00:00Z", JobStatus::Completed),
    ];
    assert_eq!(list_order(&jobs, None), vec![1, 2, 0]);
    assert_eq!(list_order(&jobs, Some("completed")), vec![2, 0]);
    assert!(list_order(&jobs, Some("failed")).is_empty());
}

#[test]
fn replay_starts_after_the_last_event_id() {
    assert_eq!(after_event_id(Some("7"), Some("9")), 7);
    assert_eq!(after_event_id(None, Some("9")), 9);
    assert_eq!(after_event_id(Some("x"), Some("9")), 0);
    assert_eq!(after_event_id(None, None), 0);
    assert!(event_is_new(8, 7));
    assert!(!event_is_new(7, 7));
}

#[test]
fn requested_artifacts_default_when_none_known() {
    assert_eq!(requested_artifacts(&None), default_artifacts());
    assert_eq!(
        requested_artifacts(&Some(vec!["bogus".to_string()])),
        vec![ArtifactKind::Vcf, ArtifactKind::AuditTsv, ArtifactKind::StatsJson, ArtifactKind::Csv, ArtifactKind::Json]
    );
    assert_eq!(
        requested_artifacts(&Some(vec!["csv".to_string(), "x".to_string(), "vcf".to_string()])),
        vec![ArtifactKind::Csv, ArtifactKind::Vcf]
    );
}

#[test]
fn rules_modes() {
    assert_eq!(rules_mode(&None), "builtin");
    assert_eq!(rules_mode(&Some(RulesRequest { mode: Some("toml".into()), toml: None })), "toml");
    assert_eq!(audit_rules_mode(&Some("x".into())), "toml_inline");
    assert_eq!(audit_rules_mode(&None), "builtin");
    assert_eq!(finished_status(true), JobStatus::Cancelled);
    assert_eq!(finished_status(false), JobStatus::Completed);
}

#[test]
fn downloads_need_a_completed_job_and_a_known_kind() {
    assert_eq!(download_target(JobStatus::Queued, "vcf"), Err(409));
    assert_eq!(download_target(JobStatus::Completed, "pdf"), Err(400));
    assert_eq!(download_target(JobStatus::Completed, "stats_markdown"), Ok("stats.md"));
    assert_eq!(download_target(JobStatus::Completed, "json"), Ok("contacts.json"));
    assert_eq!(stats_allowed(JobStatus::Failed), Err(409));
    assert!(stats_allowed(JobStatus::Completed).is_ok());
    assert_eq!(content_disposition("audit.tsv"), "attachment; filename=\"audit.tsv\"");
}

#[test]
fn audit_rows_skip_the_header() {
    let rows = audit_rows("uid\taction\r\nu1\tkeep\nu2\tdrop\t\n");
    assert_eq!(
        rows,
        vec![
            vec!["u1".to_string(), "keep".to_string()],
            vec!["u2".to_string(), "drop".to_string(), "".to_string()]
        ]
    );
    assert!(audit_rows("").is_empty());
    assert!(audit_rows("only header").is_empty());
}

fn contact(uid: &str, name: &str, result: &str, emails: &[&str], tels: &[&str]) -> ContactView {
    ContactView {
        uid: uid.to_string(),
        fn_value: name.to_string(),
        result: result.to_string(),
        screening_rule: None,
        categories: vec![],
        emails: emails.iter().map(|e| e.to_string()).collect(),
        tels: tels.iter().map(|t| t.to_string()).collect(),
        merged_uids: vec![],
    }
}

#[test]
fn contacts_are_searched_and_filtered() {
    let items = vec![
        contact("1", "Ana Pérez", "retained", &["ana@example.test"], &["+34 600"]),
        contact("2", "Bruno", "eliminated", &["BRUNO@Example.test"], &[]),
        contact("3", "Carla", "retained", &[], &["+34 611"]),
    ];
    assert_eq!(contact_positions(&items, Some("PÉREZ"), None), vec![0]);
    assert_eq!(contact_positions(&items, Some("example"), None), vec![0, 1]);
    assert_eq!(contact_positions(&items, Some("611"), None), vec![2]);
    assert_eq!(contact_positions(&items, None, Some("retained")), vec![0, 2]);
    assert_eq!(contact_positions(&items, Some("ana"), Some("eliminated")), Vec::<usize>::new());
    assert_eq!(find_contact(&items, "3"), Some(2));
    assert_eq!(find_contact(&items, "9"), None);
}

#[test]
fn uploads_must_look_like_vcf() {
    assert!(looks_like_vcf(b"BEGIN:VCARD\r\nEND:VCARD\r\n"));
    assert!(looks_like_vcf(b"\xef\xbb\xbfbegin:vcard"));
    assert!(!looks_like_vcf(b"hello"));
    let mut late = vec![b' '; 600];
    late.extend_from_slice(b"BEGIN:VCARD");
    assert!(!looks_like_vcf(&late));
    assert!(UploadForm::wants_field(Some("file")));
    assert!(!UploadForm::wants_field(Some("other")));
    assert!(!UploadForm::wants_field(None));
}

#[test]
fn upload_form_field_by_field() {
    let mut f = UploadForm::new();
    assert_eq!(f.accept_file(Some("a b.vcf"), vec![0u8; 20], 10), Err((413, "upload demasiado grande".to_string())));
    assert_eq!(f.accept_file(None, b"not vcf".to_vec(), 100), Err((400, "contenido no parece VCF".to_string())));
    assert!(f.accept_file(None, b"BEGIN:VCARD".to_vec(), 100).is_ok());
    let (name, data) = f.finish().unwrap();
    assert_eq!(name, "a_b.vcf");
    assert_eq!(data, b"BEGIN:VCARD".to_vec());
    assert_eq!(UploadForm::new().finish(), Err((400, "falta campo file".to_string())));
}

#[test]
fn upload_meter_enforces_the_limit() {
    let mut m = UploadMeter::new(10);
    assert!(m.add(6).is_ok());
    assert!(m.add(4).is_ok());
    assert_eq!(m.total(), 10);
    assert_eq!(m.add(1), Err("upload excede límite".to_string()));
}

#[test]
fn hex_and_sha256() {
    assert_eq!(hex_encode(&[0x00, 0x0f, 0xab, 0xff]), "000fabff");
    assert_eq!(
        sha256_hex("abc"),
        "ba7816bf8f01cfea414140de5dae2223b00361a396177a9cb410ff61f20015ad"
    );
}

#[test]
fn new_jobs_record_their_request() {
    let m = new_job_manifest("j1", &request("up-1", Some("[zedazo]\n"), Some(48)), "2024-01-01T00:00:00Z", "0.1.0", "abcd", 99, 24);
    assert_eq!(m.status, JobStatus::Queued);
    assert_eq!(m.input.original_name, "up-1");
    assert_eq!(m.input.upload_id, "up-1");
    assert_eq!(m.input.bytes, 99);
    assert_eq!(m.rules.mode, "builtin");
    assert_eq!(m.rules.sha256, Some(sha256_hex("[zedazo]\n")));
    assert_eq!(m.retention_hours, 48);
    let d = new_job_manifest("j2", &request("up-2", None, None), "t", "v", "s", 1, 24);
    assert_eq!(d.retention_hours, 24);
    assert_eq!(d.rules.sha256, None);
}

#[test]
fn audit_and_state_changes() {
    let body = AuditBody { upload_id: "u9".into(), config_toml: Some("x".into()) };
    let mut m = audit_manifest("a1", &body, "t0", "v", 5, 24);
    assert_eq!(m.display_name.as_deref(), Some("audit"));
    assert_eq!(m.rules.mode, "toml_inline");
    assert_eq!(m.input.original_name, "audit.vcf");
    mark_started(&mut m, "t1");
    assert_eq!(m.status, JobStatus::Validating);
    assert_eq!(m.started_at.as_deref(), Some("t1"));
    mark_failed(&mut m, "boom", "t2");
    assert_eq!(m.status, JobStatus::Failed);
    assert_eq!(m.error.as_deref(), Some("boom"));
}

#[test]
fn finished_jobs_record_their_outcome() {
    let summary = ProcessSummary {
        input_contacts: 3,
        retained: 2,
        needs_review: 0,
        eliminated: 1,
        quarantine: 0,
        duplicate_groups: 0,
    };
    let arts = vec![
        ArtifactDescriptor { kind: ArtifactKind::Vcf, path: "out.vcf".into(), bytes: Some(10) },
        ArtifactDescriptor { kind: ArtifactKind::StatsJson, path: "stats.json".into(), bytes: None },
    ];
    let mut done = manifest("j", "t0", JobStatus::Validating);
    mark_finished(&mut done, false, &summary, &arts, "t9");
    assert_eq!(done.status, JobStatus::Completed);
    assert_eq!(done.summary, Some(summary.clone()));
    assert_eq!(done.artifacts, vec!["vcf".to_string(), "stats_json".to_string()]);
    assert_eq!(done.completed_at.as_deref(), Some("t9"));
    let mut cancelled = manifest("k", "t0", JobStatus::Validating);
    mark_finished(&mut cancelled, true, &summary, &arts, "t9");
    assert_eq!(cancelled.status, JobStatus::Cancelled);
    assert_eq!(cancelled.summary, None);
    assert!(cancelled.artifacts.is_empty());
}

#[test]
fn rules_source_follows_the_inline_toml() {
    assert!(matches!(rules_source(&None), RulesConfigSource::BuiltIn));
    match rules_source(&Some("[zedazo]".into())) {
        RulesConfigSource::TomlInline(t) => assert_eq!(t, "[zedazo]"),
        _ => panic!("expected inline rules"),
    }
    assert_eq!(sha256_hex_bytes(b"abc"), sha256_hex("abc"));
}

#[test]
fn numeric_settings_fall_back_to_defaults() {
    assert_eq!(setting_u64(Some("48"), 24), 48);
    assert_eq!(setting_u64(Some("x"), 24), 24);
    assert_eq!(setting_u64(None, 24), 24);
    assert_eq!(setting_u64(Some(" 5"), 24), 24);
    assert_eq!(setting_usize(Some("1024"), 7), 1024);
    assert_eq!(setting_usize(Some("-1"), 7), 7);
}

#[test]
fn state_changes_keep_other_fields() {
    let body = AuditBody { upload_id: "u9".into(), config_toml: None };
    let mut m = audit_manifest("a1", &body, "t0", "v", 5, 24);
    mark_started(&mut m, "t1");
    assert_eq!(m.display_name.as_deref(), Some("audit"));
    assert_eq!(m.input.bytes, 5);
    assert_eq!(m.created_at, "t0");
    assert_eq!(m.completed_at, None);
    mark_failed(&mut m, "boom", "t2");
    assert_eq!(m.started_at.as_deref(), Some("t1"));
    assert_eq!(m.input.upload_id, "u9");
    assert_eq!(m.retention_hours, 24);
    assert!(m.artifacts.is_empty());
}
