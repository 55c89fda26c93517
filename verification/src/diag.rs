//! Diagnostics: the error taxonomy of the compiler and the colored
//! location prefix that messages carry.
//!
//! Errors are tagged values with the originating source location; the
//! driver decides how to print them and when to stop the process.

use vstd::prelude::*;
use crate::ast::Type;
use crate::digits::{dec_seq, fmt_usize};

verus! {

/// What a syntax scan expected when it failed.
#[derive(Clone, Copy, PartialEq, Eq, Structural, Debug)]
pub enum Expectation {
    OpenParen,
    CloseParen,
    OpenBracket,
    CloseBracket,
    OpenBrace,
    CloseBrace,
    SemiColon,
    EqualSign,
    Operator,
    ComparisonOperator,
    Comparison,
    TypeName,
    Identifier,
    StringSection,
    ValueTokens,
    Arrow,
    DoubleColon,
    CallEnd,
}

/// A tree-builder failure.
#[derive(Debug)]
pub enum SyntaxKind {
    /// A scan ran out of tokens or met the wrong token.
    Expected(Expectation),
    /// An expression run held no tokens at all.
    EmptyExpression,
    /// An inclusion names a file whose token stream was not supplied.
    MissingSource(String),
    /// Inclusions nest deeper than the supplied budget allows.
    NestingTooDeep,
}

/// A type-checker failure.
#[derive(Debug)]
pub enum TypeKind {
    /// A value of one type stands where another was declared.
    Mismatch { expected: Type, got: Type },
    /// A binary expression was applied to non-integer operands.
    NonIntegerOperands,
    /// A call names a function that was never declared.
    UnknownFunction(String),
    /// A call passes the wrong number of arguments.
    ArityMismatch { expected: usize, got: usize },
    /// An identifier resolves to no visible declaration.
    UnknownIdentifier(String),
    /// A dereference was applied to a non-pointer value.
    DerefNonPointer(Type),
    /// A function name was declared twice.
    FunctionExists(String),
    /// A variable name was declared twice in the visible scope chain.
    VariableExists(String),
    /// A function was declared inside another statement sequence.
    NestedFunction,
    /// A function declares more parameters than registers exist.
    TooManyParameters,
}

/// A failure of any stage, with its source location.
#[derive(Debug)]
pub enum CompileError {
    Syntax { loc: (usize, usize), kind: SyntaxKind },
    Type { loc: (usize, usize), kind: TypeKind },
    /// An invariant of the compiler itself was violated.
    Internal { loc: (usize, usize) },
}

/// Ghost view of a syntax failure.
#[verifier::ext_equal]
pub enum SyntaxKindV {
    Expected(Expectation),
    EmptyExpression,
    MissingSource(Seq<char>),
    NestingTooDeep,
}

/// Ghost view of a type failure.
#[verifier::ext_equal]
pub enum TypeKindV {
    Mismatch { expected: Type, got: Type },
    NonIntegerOperands,
    UnknownFunction(Seq<char>),
    ArityMismatch { expected: nat, got: nat },
    UnknownIdentifier(Seq<char>),
    DerefNonPointer(Type),
    FunctionExists(Seq<char>),
    VariableExists(Seq<char>),
    NestedFunction,
    TooManyParameters,
}

/// Ghost view of a compiler failure.
#[verifier::ext_equal]
pub enum CompileErrorV {
    Syntax { loc: (usize, usize), kind: SyntaxKindV },
    Type { loc: (usize, usize), kind: TypeKindV },
    Internal { loc: (usize, usize) },
}

/// The view of a syntax failure.
pub open spec fn view_syntax(k: SyntaxKind) -> SyntaxKindV {
    match k {
        SyntaxKind::Expected(e) => SyntaxKindV::Expected(e),
        SyntaxKind::EmptyExpression => SyntaxKindV::EmptyExpression,
        SyntaxKind::MissingSource(p) => SyntaxKindV::MissingSource(p@),
        SyntaxKind::NestingTooDeep => SyntaxKindV::NestingTooDeep,
    }
}

/// The view of a type failure.
pub open spec fn view_type_kind(k: TypeKind) -> TypeKindV {
    match k {
        TypeKind::Mismatch { expected, got } => TypeKindV::Mismatch { expected, got },
        TypeKind::NonIntegerOperands => TypeKindV::NonIntegerOperands,
        TypeKind::UnknownFunction(n) => TypeKindV::UnknownFunction(n@),
        TypeKind::ArityMismatch { expected, got } => TypeKindV::ArityMismatch {
            expected: expected as nat,
            got: got as nat,
        },
        TypeKind::UnknownIdentifier(n) => TypeKindV::UnknownIdentifier(n@),
        TypeKind::DerefNonPointer(t) => TypeKindV::DerefNonPointer(t),
        TypeKind::FunctionExists(n) => TypeKindV::FunctionExists(n@),
        TypeKind::VariableExists(n) => TypeKindV::VariableExists(n@),
        TypeKind::NestedFunction => TypeKindV::NestedFunction,
        TypeKind::TooManyParameters => TypeKindV::TooManyParameters,
    }
}

/// The view of a compiler failure.
pub open spec fn view_err(e: CompileError) -> CompileErrorV {
    match e {
        CompileError::Syntax { loc, kind } => CompileErrorV::Syntax {
            loc,
            kind: view_syntax(kind),
        },
        CompileError::Type { loc, kind } => CompileErrorV::Type {
            loc,
            kind: view_type_kind(kind),
        },
        CompileError::Internal { loc } => CompileErrorV::Internal { loc },
    }
}

/// Maps a typing result onto the ghost view of its error.
pub open spec fn res_ty(r: Result<Type, CompileError>) -> Result<Type, CompileErrorV> {
    match r {
        Ok(t) => Ok(t),
        Err(e) => Err(view_err(e)),
    }
}

/// Maps a unit result onto the ghost view of its error.
pub open spec fn res_unit(r: Result<(), CompileError>) -> Result<(), CompileErrorV> {
    match r {
        Ok(u) => Ok(u),
        Err(e) => Err(view_err(e)),
    }
}

/// Forgets which error a result failed with, keeping only the outcome
/// and the successful value.
pub open spec fn res_plain<T>(r: Result<T, CompileError>) -> Result<T, ()> {
    match r {
        Ok(v) => Ok(v),
        Err(_) => Err(()),
    }
}

/// The colored `line:column:` prefix of a diagnostic.
pub open spec fn spec_log_color(loc: (usize, usize)) -> Seq<char> {
    "\x1b[1;31m"@ + dec_seq(loc.0 as nat) + "\x1b[0;0m"@ + ":"@ + "\x1b[1;33m"@ + dec_seq(
        loc.1 as nat,
    ) + "\x1b[0;0m"@ + ":"@ + "\x1b[0;0m"@
}

/// Renders a source location as the colored prefix every diagnostic
/// message starts with.
pub fn log_color(loc: (usize, usize)) -> (r: String)
    ensures
        r@ == spec_log_color(loc),
{
    let mut r = "\x1b[1;31m".to_owned();
    r.append(fmt_usize(loc.0).as_str());
    r.append("\x1b[0;0m");
    r.append(":");
    r.append("\x1b[1;33m");
    r.append(fmt_usize(loc.1).as_str());
    r.append("\x1b[0;0m");
    r.append(":");
    r.append("\x1b[0;0m");
    proof {
        assert(r@ =~= spec_log_color(loc));
    }
    r
}

} // verus!
