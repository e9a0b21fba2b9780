use vstd::prelude::*;

verus! {

/// A diagnostic to show to the user: a message, an error code and labelled spans.
pub struct Diagnostic {
    pub message: String,
    pub code: String,
    pub labels: Vec<Label>,
}

/// A span of a file with a message; the primary label marks the error itself.
pub struct Label {
    pub file_id: usize,
    pub span: (usize, usize),
    pub message: String,
    pub primary: bool,
}

pub struct SpecLabel {
    pub file_id: int,
    pub span: (int, int),
    pub message: Seq<char>,
    pub primary: bool,
}

pub struct SpecDiagnostic {
    pub message: Seq<char>,
    pub code: Seq<char>,
    pub labels: Seq<SpecLabel>,
}

impl View for Label {
    type V = SpecLabel;

    open spec fn view(&self) -> SpecLabel {
        SpecLabel {
            file_id: self.file_id as int,
            span: (self.span.0 as int, self.span.1 as int),
            message: self.message@,
            primary: self.primary,
        }
    }
}

impl View for Diagnostic {
    type V = SpecDiagnostic;

    open spec fn view(&self) -> SpecDiagnostic {
        SpecDiagnostic {
            message: self.message@,
            code: self.code@,
            labels: self.labels@.map_values(|l: Label| l@),
        }
    }
}

} // verus!
