use vstd::prelude::*;

verus! {

/// Something went wrong while reading a `.src` file list that is not an I/O failure.
#[derive(Debug)]
pub struct SrcError {
    message: String,
}

impl SrcError {
    pub closed spec fn message_view(&self) -> Seq<char> {
        self.message@
    }

    pub fn new(message: String) -> (e: Self)
        ensures
            e.message_view() == message@,
    {
        SrcError { message }
    }

    pub fn message(&self) -> (m: &String)
        ensures
            m@ == self.message_view(),
    {
        &self.message
    }
}

/// The stage at which the pipeline stopped.
#[derive(Debug, Clone, Copy, PartialEq, Eq)]
pub enum PipelineError {
    LexingFailed,
    ParsingFailed,
    TypecheckFailed,
}

} // verus!
