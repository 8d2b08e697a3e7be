//! The screened contact and its audit trail, as the processing contract reports them.
use vstd::prelude::*;

verus! {

/// What screening decided for a contact; all but `Conserved` carry the reason.
#[derive(Debug, Clone, PartialEq, Eq)]
pub enum ScreeningDecision {
    Conserved,
    Eliminated(String),
    NeedsReview(String),
    Quarantine(String),
}

/// Taxonomy codes assigned to a contact, by level.
#[derive(Debug, Clone, PartialEq, Eq, Default)]
pub struct Categories {
    pub n1: Vec<String>,
    pub n2: Vec<String>,
    pub n3: Vec<String>,
}

/// An e-mail address or telephone number of a contact.
#[derive(Debug, Clone, PartialEq, Eq)]
pub struct TypedValue {
    pub value: String,
    pub types: Vec<String>,
    pub pref: u8,
}

/// A contact after screening, classification and deduplication.
#[derive(Debug, Clone, PartialEq, Eq)]
pub struct Contact {
    pub uid: String,
    pub fn_value: String,
    pub decision: ScreeningDecision,
    pub screening_rule: String,
    pub categories: Categories,
    pub emails: Vec<TypedValue>,
    pub tels: Vec<TypedValue>,
    pub merged_uids: Vec<String>,
}

/// The action recorded in the audit trail.
#[derive(Debug, Clone, Copy, PartialEq, Eq)]
pub enum AuditAction {
    Conserved,
    Eliminated,
    Quarantine,
    NeedsReview,
    Merged,
}

/// One line of the audit trail.
#[derive(Debug, Clone, PartialEq, Eq)]
pub struct AuditEntry {
    pub uid: String,
    pub action: AuditAction,
    pub rule: String,
    pub reason: String,
}

} // verus!
