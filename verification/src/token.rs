//! The token model the tree builder consumes.
//!
//! The external scanner classifies the source text into keywords, symbols,
//! identifiers, integer literals and bracketed sections; the driver converts
//! its tokens into this plain representation, which carries exactly what the
//! tree builder reads: the classification and a (line, column) location.

use vstd::prelude::*;

verus! {

/// The single-character symbols of the language, by name.
#[derive(Clone, Copy, PartialEq, Eq, Structural, Debug)]
pub enum Symbol {
    Comma,
    Colon,
    SemiColon,
    OpenBrace,
    CloseBrace,
    OpenParen,
    CloseParen,
    OpenBracket,
    CloseBracket,
    Minus,
    Plus,
    Asterisk,
    Slash,
    Bang,
    And,
    Equal,
    BThen,
    SThen,
}

/// The reserved words of the language, the two type names included.
#[derive(Clone, Copy, PartialEq, Eq, Structural, Debug)]
pub enum Keyword {
    Return,
    Let,
    If,
    Else,
    While,
    Include,
    Asm,
    Int,
    Ptr,
}

/// The kinds of bracketed sections the scanner isolates.
#[derive(Clone, Copy, PartialEq, Eq, Structural, Debug)]
pub enum SectionKind {
    Comment,
    Str,
}

/// What a token is, with its payload.
#[derive(Debug)]
pub enum TokenKind {
    Keyword(Keyword),
    Ident(String),
    Int(usize),
    Section(SectionKind, String),
    Symbol(Symbol),
}

/// One classified lexical unit with its source location.
#[derive(Debug)]
pub struct Token {
    pub kind: TokenKind,
    pub line: usize,
    pub col: usize,
}

impl Clone for TokenKind {
    fn clone(&self) -> (r: Self)
        ensures
            r == *self,
    {
        match self {
            TokenKind::Keyword(k) => TokenKind::Keyword(*k),
            TokenKind::Ident(s) => TokenKind::Ident(s.clone()),
            TokenKind::Int(n) => TokenKind::Int(*n),
            TokenKind::Section(k, s) => TokenKind::Section(*k, s.clone()),
            TokenKind::Symbol(s) => TokenKind::Symbol(*s),
        }
    }
}

impl Clone for Token {
    fn clone(&self) -> (r: Self)
        ensures
            r == *self,
    {
        Token { kind: self.kind.clone(), line: self.line, col: self.col }
    }
}

impl Token {
    /// The source location as the diagnostics carry it.
    pub open spec fn sloc(&self) -> (usize, usize) {
        (self.line, self.col)
    }

    /// Whether the token is the given symbol.
    pub open spec fn is_sym(&self, s: Symbol) -> bool {
        match self.kind {
            TokenKind::Symbol(t) => t == s,
            _ => false,
        }
    }

    /// Whether the token is the given keyword.
    pub open spec fn is_kw(&self, k: Keyword) -> bool {
        match self.kind {
            TokenKind::Keyword(t) => t == k,
            _ => false,
        }
    }

    pub fn loc(&self) -> (r: (usize, usize))
        ensures
            r == self.sloc(),
    {
        (self.line, self.col)
    }

    pub fn is_symbol(&self, s: Symbol) -> (r: bool)
        ensures
            r == self.is_sym(s),
    {
        match &self.kind {
            TokenKind::Symbol(t) => *t == s,
            _ => false,
        }
    }

    pub fn is_keyword(&self, k: Keyword) -> (r: bool)
        ensures
            r == self.is_kw(k),
    {
        match &self.kind {
            TokenKind::Keyword(t) => *t == k,
            _ => false,
        }
    }
}

/// The location of the last token of a run, used when a scan runs out of
/// tokens: the diagnostic then points at the end of what was given, or at
/// the origin when the run is empty.
pub open spec fn last_loc(toks: Seq<Token>) -> (usize, usize) {
    if toks.len() == 0 {
        (0usize, 0usize)
    } else {
        toks[toks.len() - 1].sloc()
    }
}

/// Executable counterpart of [`last_loc`].
pub fn last_loc_of(tokens: &Vec<Token>) -> (r: (usize, usize))
    ensures
        r == last_loc(tokens@),
{
    if tokens.len() == 0 {
        (0, 0)
    } else {
        tokens[tokens.len() - 1].loc()
    }
}

} // verus!
