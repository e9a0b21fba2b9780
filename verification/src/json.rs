use vstd::prelude::*;

verus! {

/// The machine readable report of a run.
pub struct ParsiphaeJson {
    pub errors: Vec<JsonError>,
    pub warnings: Vec<JsonWarning>,
}

pub struct JsonError {
    pub message: String,
    pub start: usize,
    pub end: usize,
    pub file_id: usize,
}

pub struct JsonWarning {
    pub message: String,
    pub start: usize,
    pub end: usize,
}

} // verus!
