//! What is known of a module's exports.

use std::collections::HashMap;
use vstd::prelude::*;

verus! {

/// The exports of a module, by name.
#[derive(Debug, Default, Clone)]
pub struct ExportsInfo {
    pub exports: HashMap<String, ExportInfo>,
}

/// What is known of one export.
#[derive(Debug, Default, Clone)]
pub struct ExportInfo {
    pub name: String,
    pub can_mangle: bool,
    pub used: bool,
    pub used_info: bool,
    pub provided_info: bool,
}

/// Whether an export is provided.
#[derive(Debug, Default, Clone)]
pub struct ProvidedInfo {
    pub provided: bool,
}

} // verus!
