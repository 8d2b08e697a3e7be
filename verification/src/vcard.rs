//! The parsed form of one vCard, as the format adapters see it.
use vstd::prelude::*;

verus! {

/// One parameter of a property (`TYPE=work,voice`).
#[derive(Debug, Clone, PartialEq, Eq)]
pub struct RawParam {
    pub name: String,
    pub values: Vec<String>,
}

/// One property line as parsed, before domain translation.
#[derive(Debug, Clone, PartialEq, Eq)]
pub struct RawProperty {
    pub group: Option<String>,
    pub name: String,
    pub params: Vec<RawParam>,
    pub value: String,
}

/// An e-mail or telephone value with its types and preference (0 = none).
#[derive(Debug, Clone, PartialEq, Eq)]
pub struct RawTypedValue {
    pub value: String,
    pub types: Vec<String>,
    pub pref: u8,
}

/// A parsed vCard.
#[derive(Debug, Clone, PartialEq, Eq)]
pub struct ParsedVCard {
    pub version: Option<String>,
    pub emails_raw: Vec<RawTypedValue>,
    pub tels_raw: Vec<RawTypedValue>,
    pub raw_properties: Vec<RawProperty>,
}

impl Default for ParsedVCard {
    fn default() -> (r: ParsedVCard)
        ensures
            r.version is None,
            r.emails_raw@.len() == 0,
            r.tels_raw@.len() == 0,
            r.raw_properties@.len() == 0,
    {
        ParsedVCard {
            version: None,
            emails_raw: Vec::new(),
            tels_raw: Vec::new(),
            raw_properties: Vec::new(),
        }
    }
}

} // verus!
