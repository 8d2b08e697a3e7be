use zedazo::domain::{AuditAction, AuditEntry, Categories, Contact, ScreeningDecision, TypedValue};
use zedazo::dto::{artifact_kind_str, parse_artifact_kind};
use zedazo::process::{
    contact_views, duplicate_group_views, exported_artifacts, pipeline_outputs, summarize,
    ArtifactKind, AuditEventView, CancellationToken, Cancelled, ContactView,
};

fn contact(uid: &str, decision: ScreeningDecision, merged: &[&str]) -> Contact {
    Contact {
        uid: uid.to_string(),
        fn_value: format!("Name {uid}"),
        decision,
        screening_rule: String::new(),
        categories: Categories {
            n1: vec!["PROF".to_string()],
            n2: vec!["FIN-CRYPTO".to_string(), "ASOC-X".to_string()],
            n3: vec![],
        },
        emails: vec![TypedValue { value: format!("{uid}@x.test"), types: vec![], pref: 0 }],
        tels: vec![],
        merged_uids: merged.iter().map(|s| s.to_string()).collect(),
    }
}

#[test]
fn artifact_names_roundtrip() {
    for k in [
        ArtifactKind::Vcf,
        ArtifactKind::AuditTsv,
        ArtifactKind::StatsJson,
        ArtifactKind::StatsMarkdown,
        ArtifactKind::Csv,
        ArtifactKind::Json,
    ] {
        assert_eq!(parse_artifact_kind(artifact_kind_str(k)), Some(k));
    }
    assert_eq!(parse_artifact_kind("pdf"), None);
    assert_eq!(artifact_kind_str(ArtifactKind::AuditTsv), "audit_tsv");
}

#[test]
fn contact_view_sorts_categories_and_labels_decision() {
    let mut c = contact("a", ScreeningDecision::NeedsReview("r".into()), &[]);
    c.screening_rule = "R1".to_string();
    let v = ContactView::from_contact(&c);
    assert_eq!(v.result, "needs_review");
    assert_eq!(v.categories, vec!["ASOC-X", "FIN-CRYPTO", "PROF"]);
    assert_eq!(v.screening_rule.as_deref(), Some("R1"));
    assert_eq!(v.emails, vec!["a@x.test"]);
    let v = ContactView::from_contact(&contact("b", ScreeningDecision::Conserved, &[]));
    assert_eq!(v.screening_rule, None);
    assert_eq!(v.result, "conserved");
}

#[test]
fn audit_event_view_maps_action() {
    let e = AuditEntry {
        uid: "u".into(),
        action: AuditAction::Merged,
        rule: "D2".into(),
        reason: "dup".into(),
    };
    let v = AuditEventView::from_entry(&e);
    assert_eq!(v.action, "merged");
    assert_eq!(v.evidence, "dup");
}

#[test]
fn summary_counts_partition_contacts() {
    let cs = vec![
        contact("a", ScreeningDecision::Conserved, &["x", "y"]),
        contact("b", ScreeningDecision::Eliminated("e".into()), &[]),
        contact("c", ScreeningDecision::Quarantine("q".into()), &["z"]),
        contact("d", ScreeningDecision::Conserved, &[]),
    ];
    let s = summarize(5, &cs);
    assert_eq!(s.input_contacts, 5);
    assert_eq!(s.retained, 2);
    assert_eq!(s.eliminated, 1);
    assert_eq!(s.quarantine, 1);
    assert_eq!(s.needs_review, 0);
    assert_eq!(s.duplicate_groups, 2);
    let groups = duplicate_group_views(&cs);
    assert_eq!(groups.len(), 2);
    assert_eq!(groups[0].canonical_uid, "a");
    assert_eq!(groups[0].member_uids, vec!["x", "y", "a"]);
    assert_eq!(contact_views(&cs).len(), 4);
}

#[test]
fn artifacts_planned_by_request_and_dry_run() {
    let req = [ArtifactKind::Json, ArtifactKind::Vcf, ArtifactKind::Csv];
    assert_eq!(pipeline_outputs(&req, false), (true, false));
    assert_eq!(pipeline_outputs(&req, true), (false, false));
    assert_eq!(exported_artifacts(&req, false), vec![ArtifactKind::Csv, ArtifactKind::Json]);
    assert!(exported_artifacts(&req, true).is_empty());
}

#[test]
fn cancellation_token_is_shared_by_clones() {
    let t = CancellationToken::new();
    assert!(!t.is_cancelled());
    assert_eq!(t.check(), Ok(()));
    let c = t.clone();
    c.cancel();
    assert!(t.is_cancelled());
    assert_eq!(t.check(), Err(Cancelled));
}

#[test]
fn cancellation_has_its_message() {
    assert_eq!(zedazo::process::Cancelled.message(), "procesamiento cancelado");
}
