use vstd::prelude::*;

verus! {

/// What the user asked to process: a `.src` list of files or one `.d` file.
/// Paths are carried as the bytes the user typed.
#[derive(Debug, Clone)]
pub enum InputFile {
    Src(Vec<u8>),
    SingleFile(Vec<u8>),
}

impl InputFile {
    /// The path of the input, whichever kind it is.
    pub fn get(&self) -> (p: &Vec<u8>)
        ensures
            p@ == (match self {
                InputFile::Src(p) => p@,
                InputFile::SingleFile(p) => p@,
            }),
    {
        match self {
            InputFile::Src(p) => p,
            InputFile::SingleFile(p) => p,
        }
    }
}

pub struct Config {
    pub input_file: InputFile,
    pub json: bool,
}

} // verus!
