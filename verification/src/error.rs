//! The ways a compilation can fail. The first failure ends the run.
use vstd::prelude::*;
use crate::token::TokenType;

verus! {

/// Malformed source text.
#[derive(Clone, Copy, Debug, PartialEq, Eq, Structural)]
pub enum LexicalError {
    /// A character that starts no token.
    UnrecognizedCharacter { found: char, position: i64 },
    /// The text ended where a token was needed.
    EndOfText { position: i64 },
    /// A line break, carriage return, tab, `%` or backslash inside a string literal.
    InvalidStringCharacter { found: char, position: i64 },
    /// A string literal that the text ends in.
    UnterminatedString { position: i64 },
    /// A `!` that no `=` follows.
    LoneBang { position: i64 },
}

/// A token that the grammar does not allow where it stands.
#[derive(Clone, Copy, Debug, PartialEq, Eq, Structural)]
pub enum SyntaxError {
    /// A token of one kind was required and another was found.
    Expected { expected: TokenType, found: TokenType },
    /// A relational operator was required.
    ExpectedComparison { found: TokenType },
    /// A number or a variable was required.
    ExpectedPrimary { found: TokenType },
    /// A statement cannot begin with this token.
    ExpectedStatement { found: TokenType },
}

/// A well-formed program that misuses a name.
#[derive(Clone, Debug, PartialEq, Eq)]
pub enum SemanticError {
    /// A variable is read before any `LET` or `INPUT` has introduced it.
    UndeclaredVariable { name: String },
    /// A label is declared a second time.
    DuplicateLabel { name: String },
    /// A `GOTO` names a label that the program declares nowhere.
    UnresolvedGoto { name: String },
}

/// Why a compilation failed.
#[derive(Clone, Debug, PartialEq, Eq)]
pub enum CompileError {
    Lexical(LexicalError),
    Syntax(SyntaxError),
    Semantic(SemanticError),
}

/// A semantic error as the contracts see it.
pub enum SemanticFailure {
    UndeclaredVariable { name: Seq<char> },
    DuplicateLabel { name: Seq<char> },
    UnresolvedGoto { name: Seq<char> },
}

/// A compile error as the contracts see it.
pub enum Failure {
    Lexical(LexicalError),
    Syntax(SyntaxError),
    Semantic(SemanticFailure),
}

impl View for SemanticError {
    type V = SemanticFailure;

    open spec fn view(&self) -> SemanticFailure {
        match *self {
            SemanticError::UndeclaredVariable { name } => SemanticFailure::UndeclaredVariable {
                name: name@,
            },
            SemanticError::DuplicateLabel { name } => SemanticFailure::DuplicateLabel {
                name: name@,
            },
            SemanticError::UnresolvedGoto { name } => SemanticFailure::UnresolvedGoto {
                name: name@,
            },
        }
    }
}

impl View for CompileError {
    type V = Failure;

    open spec fn view(&self) -> Failure {
        match *self {
            CompileError::Lexical(e) => Failure::Lexical(e),
            CompileError::Syntax(e) => Failure::Syntax(e),
            CompileError::Semantic(e) => Failure::Semantic(e@),
        }
    }
}

/// The three classes of failure.
#[derive(Clone, Copy, Debug, PartialEq, Eq, Structural)]
pub enum ErrorKind {
    Lexical,
    Syntax,
    Semantic,
}

impl CompileError {
    /// The class this error belongs to.
    pub fn kind(&self) -> (r: ErrorKind)
        ensures
            r == match *self {
                CompileError::Lexical(_) => ErrorKind::Lexical,
                CompileError::Syntax(_) => ErrorKind::Syntax,
                CompileError::Semantic(_) => ErrorKind::Semantic,
            },
    {
        match self {
            CompileError::Lexical(_) => ErrorKind::Lexical,
            CompileError::Syntax(_) => ErrorKind::Syntax,
            CompileError::Semantic(_) => ErrorKind::Semantic,
        }
    }
}

} // verus!
