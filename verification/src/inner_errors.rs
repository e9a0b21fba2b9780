use vstd::prelude::*;

verus! {

/// The errors of the combinator based declaration parser.
#[derive(Debug, Copy, Clone, PartialEq, Eq)]
pub enum ParserError {
    MissingSemi,
    MissingIdentifier,
    VariableDeclaration,
    ClassDeclaration,
    IfClause,
    ElseClause,
    IllegalStatement,
    InvalidCall,
    IllegalExpression,
    Declaration,
    FromNom,
}

impl ParserError {
    /// A human readable description of the error.
    pub fn description(&self) -> (d: &'static str)
        ensures
            d@ == (match *self {
                ParserError::MissingSemi => "Missing semicolon"@,
                ParserError::MissingIdentifier => "Missing identifier"@,
                ParserError::VariableDeclaration => "Error during variable declaration"@,
                ParserError::ClassDeclaration => "Error during class declaration"@,
                ParserError::IfClause => "Error in if-block"@,
                ParserError::ElseClause => "Error in else-block"@,
                ParserError::IllegalStatement => "Error in statement"@,
                ParserError::InvalidCall => "Error in function call"@,
                ParserError::IllegalExpression => "Error in expression"@,
                ParserError::Declaration => "Error in declaration"@,
                ParserError::FromNom => "You should never see this"@,
            }),
    {
        match *self {
            ParserError::MissingSemi => "Missing semicolon",
            ParserError::MissingIdentifier => "Missing identifier",
            ParserError::VariableDeclaration => "Error during variable declaration",
            ParserError::ClassDeclaration => "Error during class declaration",
            ParserError::IfClause => "Error in if-block",
            ParserError::ElseClause => "Error in else-block",
            ParserError::IllegalStatement => "Error in statement",
            ParserError::InvalidCall => "Error in function call",
            ParserError::IllegalExpression => "Error in expression",
            ParserError::Declaration => "Error in declaration",
            ParserError::FromNom => "You should never see this",
        }
    }

    /// Every number converts to the catch-all error.
    pub fn from_code(_code: u32) -> (e: ParserError)
        ensures
            e == ParserError::FromNom,
    {
        ParserError::FromNom
    }
}

} // verus!
