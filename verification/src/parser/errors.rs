//! The errors of the token parser.
use crate::diagnostics::{Diagnostic, Label, SpecDiagnostic, SpecLabel};
use crate::lexer::{join, join_parts, kind_name, spec_kind_name, tokens_view, SpecToken, SpecTokenKind, Token, TokenKind};
use crate::ppa::errors::concat;
use vstd::prelude::*;

verus! {

/// What the parser tried to read.
#[derive(Clone, Copy, Debug, PartialEq, Eq)]
pub enum ParsePossibility {
    IfClause,
    Statement,
    Assignment,
    Expression,
    Declaration,
    VariableAccess,
    Integer,
    Decimal,
    Call,
    StringLiteral,
}

impl ParsePossibility {
    /// The name of what was expected, for messages.
    pub fn reason(&self) -> (r: &'static str)
        ensures
            r@ == (match *self {
                ParsePossibility::IfClause => "If-Clause"@,
                ParsePossibility::Statement => "Statement"@,
                ParsePossibility::Assignment => "Assignment"@,
                ParsePossibility::Expression => "Expression"@,
                ParsePossibility::Declaration => "Declaration"@,
                ParsePossibility::VariableAccess => "Variable Access"@,
                ParsePossibility::Integer => "Integer"@,
                ParsePossibility::Decimal => "Decimal"@,
                ParsePossibility::Call => "Call"@,
                ParsePossibility::StringLiteral => "Stringliteral"@,
            }),
    {
        match self {
            ParsePossibility::IfClause => "If-Clause",
            ParsePossibility::Statement => "Statement",
            ParsePossibility::Assignment => "Assignment",
            ParsePossibility::Expression => "Expression",
            ParsePossibility::Declaration => "Declaration",
            ParsePossibility::VariableAccess => "Variable Access",
            ParsePossibility::Integer => "Integer",
            ParsePossibility::Decimal => "Decimal",
            ParsePossibility::Call => "Call",
            ParsePossibility::StringLiteral => "Stringliteral",
        }
    }
}

#[derive(Debug, PartialEq)]
pub enum ParsingErrorKind {
    Expected(ParsePossibility),
    /// Found, Expected
    UnexpectedToken(TokenKind, TokenKind),
    ExpectedToken(TokenKind),
    ExpectedOneOfToken(Vec<TokenKind>),
    ExpectedOneOf(Vec<ParsePossibility>),
    ReachedEOF,
    InternalParserFailure,
    MissingFunctionName,
    MissingFunctionType,
    MissingInstanceName,
    MissingInstanceType,
    StatementWithoutSemicolon,
}

pub enum SpecParsingErrorKind {
    Expected(ParsePossibility),
    UnexpectedToken(SpecTokenKind, SpecTokenKind),
    ExpectedToken(SpecTokenKind),
    ExpectedOneOfToken(Seq<SpecTokenKind>),
    ExpectedOneOf(Seq<ParsePossibility>),
    ReachedEOF,
    InternalParserFailure,
    MissingFunctionName,
    MissingFunctionType,
    MissingInstanceName,
    MissingInstanceType,
    StatementWithoutSemicolon,
}

impl View for ParsingErrorKind {
    type V = SpecParsingErrorKind;

    open spec fn view(&self) -> SpecParsingErrorKind {
        match self {
            ParsingErrorKind::Expected(p) => SpecParsingErrorKind::Expected(*p),
            ParsingErrorKind::UnexpectedToken(a, b) => SpecParsingErrorKind::UnexpectedToken(a@, b@),
            ParsingErrorKind::ExpectedToken(t) => SpecParsingErrorKind::ExpectedToken(t@),
            ParsingErrorKind::ExpectedOneOfToken(v) => SpecParsingErrorKind::ExpectedOneOfToken(
                v@.map_values(|t: TokenKind| t@),
            ),
            ParsingErrorKind::ExpectedOneOf(v) => SpecParsingErrorKind::ExpectedOneOf(v@),
            ParsingErrorKind::ReachedEOF => SpecParsingErrorKind::ReachedEOF,
            ParsingErrorKind::InternalParserFailure => SpecParsingErrorKind::InternalParserFailure,
            ParsingErrorKind::MissingFunctionName => SpecParsingErrorKind::MissingFunctionName,
            ParsingErrorKind::MissingFunctionType => SpecParsingErrorKind::MissingFunctionType,
            ParsingErrorKind::MissingInstanceName => SpecParsingErrorKind::MissingInstanceName,
            ParsingErrorKind::MissingInstanceType => SpecParsingErrorKind::MissingInstanceType,
            ParsingErrorKind::StatementWithoutSemicolon => SpecParsingErrorKind::StatementWithoutSemicolon,
        }
    }
}

pub open spec fn reason_text(p: ParsePossibility) -> Seq<char> {
    match p {
        ParsePossibility::IfClause => "If-Clause"@,
        ParsePossibility::Statement => "Statement"@,
        ParsePossibility::Assignment => "Assignment"@,
        ParsePossibility::Expression => "Expression"@,
        ParsePossibility::Declaration => "Declaration"@,
        ParsePossibility::VariableAccess => "Variable Access"@,
        ParsePossibility::Integer => "Integer"@,
        ParsePossibility::Decimal => "Decimal"@,
        ParsePossibility::Call => "Call"@,
        ParsePossibility::StringLiteral => "Stringliteral"@,
    }
}

/// The explanation of a kind of parse error.
pub open spec fn spec_reason(k: SpecParsingErrorKind) -> Seq<char> {
    match k {
        SpecParsingErrorKind::Expected(p) => reason_text(p),
        SpecParsingErrorKind::ExpectedOneOf(ps) => join(ps.map_values(|p: ParsePossibility| reason_text(p))),
        SpecParsingErrorKind::ExpectedOneOfToken(ts) => join(ts.map_values(|t: SpecTokenKind| spec_kind_name(t))),
        SpecParsingErrorKind::ExpectedToken(t) => spec_kind_name(t),
        SpecParsingErrorKind::ReachedEOF => "Reached EOF"@,
        SpecParsingErrorKind::InternalParserFailure => "Internal Parser Failure"@,
        SpecParsingErrorKind::MissingFunctionName => "This function is missing a name."@,
        SpecParsingErrorKind::UnexpectedToken(found, expected) => "Unexpected Token "@ + spec_kind_name(found)
            + ", expected "@ + spec_kind_name(expected),
        _ => "missing reason"@,
    }
}

impl ParsingErrorKind {
    /// What went wrong, in words.
    pub fn reason(&self) -> (r: String)
        ensures
            r@ == spec_reason(self@),
    {
        match self {
            ParsingErrorKind::Expected(pp) => pp.reason().to_owned(),
            ParsingErrorKind::ExpectedOneOf(ps) => {
                let mut parts: Vec<String> = Vec::new();
                let mut k: usize = 0;
                while k < ps.len()
                    invariant
                        k <= ps@.len(),
                        parts@.map_values(|s: String| s@) == ps@.take(k as int).map_values(
                            |p: ParsePossibility| reason_text(p),
                        ),
                    decreases ps@.len() - k,
                {
                    let ghost before = parts@.map_values(|s: String| s@);
                    let text = ps[k].reason().to_owned();
                    assert(text@ == reason_text(ps@[k as int]));
                    parts.push(text);
                    assert(parts@.map_values(|s: String| s@) =~= before.push(reason_text(ps@[k as int])));
                    assert(parts@.map_values(|s: String| s@) =~= ps@.take(k as int + 1).map_values(
                        |p: ParsePossibility| reason_text(p),
                    ));
                    k += 1;
                }
                assert(ps@.take(ps@.len() as int) =~= ps@);
                join_parts(&parts)
            },
            ParsingErrorKind::ExpectedOneOfToken(ts) => {
                let ghost tv = ts@.map_values(|t: TokenKind| t@);
                let mut parts: Vec<String> = Vec::new();
                let mut k: usize = 0;
                while k < ts.len()
                    invariant
                        k <= ts@.len(),
                        tv == ts@.map_values(|t: TokenKind| t@),
                        parts@.map_values(|s: String| s@) == tv.take(k as int).map_values(
                            |t: SpecTokenKind| spec_kind_name(t),
                        ),
                    decreases ts@.len() - k,
                {
                    let ghost before = parts@.map_values(|s: String| s@);
                    let text = kind_name(&ts[k]);
                    assert(text@ == spec_kind_name(tv[k as int]));
                    parts.push(text);
                    assert(parts@.map_values(|s: String| s@) =~= before.push(spec_kind_name(tv[k as int])));
                    assert(parts@.map_values(|s: String| s@) =~= tv.take(k as int + 1).map_values(
                        |t: SpecTokenKind| spec_kind_name(t),
                    ));
                    k += 1;
                }
                assert(tv.take(ts@.len() as int) =~= tv);
                join_parts(&parts)
            },
            ParsingErrorKind::ExpectedToken(token) => kind_name(token),
            ParsingErrorKind::ReachedEOF => "Reached EOF".to_owned(),
            ParsingErrorKind::InternalParserFailure => "Internal Parser Failure".to_owned(),
            ParsingErrorKind::MissingFunctionName => "This function is missing a name.".to_owned(),
            ParsingErrorKind::UnexpectedToken(found, expected) => {
                let a = concat("Unexpected Token ", kind_name(found).as_str());
                let b = concat(a.as_str(), ", expected ");
                concat(b.as_str(), kind_name(expected).as_str())
            },
            _ => "missing reason".to_owned(),
        }
    }
}

/// A parse error: what went wrong, the token at which it was noticed (`token_end`), and
/// whether an enclosing alternative may still be tried.
#[derive(Debug, PartialEq)]
pub struct ParsingError {
    pub kind: ParsingErrorKind,
    pub token_start: usize,
    pub token_end: usize,
    pub recoverable: bool,
}

pub struct SpecParsingError {
    pub kind: SpecParsingErrorKind,
    pub token_start: int,
    pub token_end: int,
    pub recoverable: bool,
}

impl View for ParsingError {
    type V = SpecParsingError;

    open spec fn view(&self) -> SpecParsingError {
        SpecParsingError {
            kind: self.kind@,
            token_start: self.token_start as int,
            token_end: self.token_end as int,
            recoverable: self.recoverable,
        }
    }
}

pub open spec fn spec_error(kind: SpecParsingErrorKind, token: int, recoverable: bool) -> SpecParsingError {
    SpecParsingError { kind, token_start: 0, token_end: token, recoverable }
}

impl ParsingError {
    pub fn from_token(kind: ParsingErrorKind, token_id: usize, recoverable: bool) -> (e: Self)
        ensures
            e@ == spec_error(kind@, token_id as int, recoverable),
    {
        ParsingError { kind, token_start: 0, token_end: token_id, recoverable }
    }

    pub fn internal_error() -> (e: Self)
        ensures
            e@ == spec_error(SpecParsingErrorKind::InternalParserFailure, 0, false),
    {
        ParsingError {
            kind: ParsingErrorKind::InternalParserFailure,
            token_start: 0,
            token_end: 0,
            recoverable: false,
        }
    }

    /// The same error, reported as starting at token `start`.
    pub fn with_token_start(self, start: usize) -> (e: Self)
        ensures
            e@ == (SpecParsingError { token_start: start as int, ..self@ }),
    {
        ParsingError { token_start: start, ..self }
    }
}

/// A diagnostic with one primary label.
pub open spec fn one_label_diagnostic(message: Seq<char>, file_id: int, span: (int, int), label: Seq<char>) -> SpecDiagnostic {
    SpecDiagnostic {
        message,
        code: seq![],
        labels: seq![SpecLabel { file_id, span, message: label, primary: true }],
    }
}

/// The place between the token before `e` and token `e`, where something is missing.
pub open spec fn gap(tokens: Seq<SpecToken>, e: int) -> (int, int) {
    (tokens[e - 1].span.1, tokens[e].span.0)
}

/// Whether the tokens around where a parse error was noticed are there, as its diagnostic
/// needs them.
pub open spec fn diagnostic_tokens_present(tokens: Seq<SpecToken>, e: SpecParsingError) -> bool {
    match e.kind {
        SpecParsingErrorKind::MissingFunctionName
        | SpecParsingErrorKind::MissingFunctionType
        | SpecParsingErrorKind::MissingInstanceName
        | SpecParsingErrorKind::MissingInstanceType => 1 <= e.token_end < tokens.len(),
        SpecParsingErrorKind::StatementWithoutSemicolon => 1 <= e.token_end <= tokens.len(),
        _ => true,
    }
}

/// The diagnostic a parse error is shown with, for the kinds that have one: the end of
/// the file, a missing name or type between two tokens, a missing semicolon after a token.
pub open spec fn spec_parse_error_diagnostic(tokens: Seq<SpecToken>, file_id: int, e: SpecParsingError) -> Option<
    SpecDiagnostic,
> {
    let te = e.token_end;
    match e.kind {
        SpecParsingErrorKind::ReachedEOF => Some(
            one_label_diagnostic("Reached End of File"@, file_id, (0, 0), "End of File here"@),
        ),
        SpecParsingErrorKind::MissingFunctionName => Some(
            one_label_diagnostic(
                "A function is missing a name"@,
                file_id,
                gap(tokens, te),
                "The name is missing here"@,
            ),
        ),
        SpecParsingErrorKind::MissingFunctionType => Some(
            one_label_diagnostic(
                "A function is missing a return type"@,
                file_id,
                gap(tokens, te),
                "The type is missing here"@,
            ),
        ),
        SpecParsingErrorKind::MissingInstanceName => Some(
            one_label_diagnostic(
                "An instance is missing a name"@,
                file_id,
                gap(tokens, te),
                "The name is missing here"@,
            ),
        ),
        SpecParsingErrorKind::MissingInstanceType => Some(
            one_label_diagnostic(
                "An instance is missing a type"@,
                file_id,
                gap(tokens, te),
                "The type is missing here"@,
            ),
        ),
        SpecParsingErrorKind::StatementWithoutSemicolon => Some(
            one_label_diagnostic(
                "A statement is missing a semicolon at the end."@,
                file_id,
                (tokens[te - 1].span.1, tokens[te - 1].span.1),
                "The semicolon is missing here"@,
            ),
        ),
        _ => None,
    }
}

fn one_label(message: &str, file_id: usize, span: (usize, usize), label: &str) -> (d: Diagnostic)
    ensures
        d@ == one_label_diagnostic(message@, file_id as int, (span.0 as int, span.1 as int), label@),
{
    let labels = vec![Label { file_id, span, message: label.to_owned(), primary: true }];
    let d = Diagnostic { message: message.to_owned(), code: String::new(), labels };
    assert(d@.labels =~= seq![
        SpecLabel { file_id: file_id as int, span: (span.0 as int, span.1 as int), message: label@, primary: true },
    ]);
    d
}

/// The diagnostic a parse error in a file with the given tokens is shown with, if its
/// kind has one.
pub fn parse_error_diagnostic(tokens: &Vec<Token>, file_id: usize, e: &ParsingError) -> (d: Option<Diagnostic>)
    requires
        diagnostic_tokens_present(tokens_view(tokens@), e@),
    ensures
        match (d, spec_parse_error_diagnostic(tokens_view(tokens@), file_id as int, e@)) {
            (Some(x), Some(y)) => x@ == y,
            (None, None) => true,
            _ => false,
        },
{
    let te = e.token_end;
    match &e.kind {
        ParsingErrorKind::ReachedEOF => Some(one_label("Reached End of File", file_id, (0, 0), "End of File here")),
        ParsingErrorKind::MissingFunctionName => Some(
            one_label(
                "A function is missing a name",
                file_id,
                (tokens[te - 1].span.1, tokens[te].span.0),
                "The name is missing here",
            ),
        ),
        ParsingErrorKind::MissingFunctionType => Some(
            one_label(
                "A function is missing a return type",
                file_id,
                (tokens[te - 1].span.1, tokens[te].span.0),
                "The type is missing here",
            ),
        ),
        ParsingErrorKind::MissingInstanceName => Some(
            one_label(
                "An instance is missing a name",
                file_id,
                (tokens[te - 1].span.1, tokens[te].span.0),
                "The name is missing here",
            ),
        ),
        ParsingErrorKind::MissingInstanceType => Some(
            one_label(
                "An instance is missing a type",
                file_id,
                (tokens[te - 1].span.1, tokens[te].span.0),
                "The type is missing here",
            ),
        ),
        ParsingErrorKind::StatementWithoutSemicolon => {
            let end = tokens[te - 1].span.1;
            Some(
                one_label(
                    "A statement is missing a semicolon at the end.",
                    file_id,
                    (end, end),
                    "The semicolon is missing here",
                ),
            )
        },
        _ => None,
    }
}

} // verus!
