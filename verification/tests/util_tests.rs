//! Exact expected values for the small helpers, and whole-pipeline
//! scenarios.

use langin::ast::{Ast, Type};
use langin::diag::{log_color, CompileError};
use langin::escape::output_string_asm;
use langin::pipeline::compile;
use langin::strutil::get_filename;
use langin::token::{Keyword, Symbol, Token, TokenKind};

#[test]
fn log_color_renders_the_colored_location_prefix() {
    assert_eq!(
        log_color((12, 34)),
        "\x1b[1;31m12\x1b[0;0m:\x1b[1;33m34\x1b[0;0m:\x1b[0;0m",
    );
    assert_eq!(
        log_color((0, 0)),
        "\x1b[1;31m0\x1b[0;0m:\x1b[1;33m0\x1b[0;0m:\x1b[0;0m",
    );
    assert_eq!(
        log_color((105, 7)),
        "\x1b[1;31m105\x1b[0;0m:\x1b[1;33m7\x1b[0;0m:\x1b[0;0m",
    );
}

#[test]
fn escape_expands_newline_pairs_and_drops_other_escapes() {
    assert_eq!(output_string_asm("hello"), "hello");
    assert_eq!(output_string_asm("a\\nb"), "a\", 10, \"b");
    assert_eq!(output_string_asm("x\\qy"), "xy");
    assert_eq!(output_string_asm("tail\\"), "tail");
    assert_eq!(output_string_asm(""), "");
    assert_eq!(output_string_asm("\\n\\n"), "\", 10, \"\", 10, \"");
}

#[test]
fn filename_stem_is_cut_at_the_first_dot() {
    assert_eq!(get_filename("prog.lang"), "prog");
    assert_eq!(get_filename("noext"), "noext");
    assert_eq!(get_filename("a.b.c"), "a");
    assert_eq!(get_filename(""), "");
}

#[test]
fn type_names_map_to_types_and_sizes() {
    assert_eq!(Ast::str_to_type("int"), Type::Int);
    assert_eq!(Ast::str_to_type("ptr"), Type::Ptr);
    assert_eq!(Ast::str_to_type("anything"), Type::Void);
    assert_eq!(Type::Int.size(), 8);
    assert_eq!(Type::Ptr.size(), 8);
    assert_eq!(Type::Void.size(), 0);
}

fn kw(k: Keyword) -> Token {
    Token { kind: TokenKind::Keyword(k), line: 2, col: 3 }
}

fn sym(s: Symbol) -> Token {
    Token { kind: TokenKind::Symbol(s), line: 2, col: 3 }
}

fn ident(n: &str) -> Token {
    Token { kind: TokenKind::Ident(n.to_string()), line: 2, col: 3 }
}

fn int_tok(n: usize) -> Token {
    Token { kind: TokenKind::Int(n), line: 2, col: 3 }
}

fn main_returning(value_tokens: Vec<Token>) -> Vec<Token> {
    let mut toks = vec![
        ident("main"),
        sym(Symbol::Colon),
        sym(Symbol::Colon),
        sym(Symbol::OpenParen),
        sym(Symbol::CloseParen),
        sym(Symbol::Minus),
        sym(Symbol::BThen),
        kw(Keyword::Int),
        sym(Symbol::OpenBrace),
        kw(Keyword::Return),
    ];
    toks.extend(value_tokens);
    toks.push(sym(Symbol::SemiColon));
    toks.push(sym(Symbol::CloseBrace));
    toks
}

#[test]
fn well_formed_program_passes_all_three_stages() {
    let toks = main_returning(vec![int_tok(41), sym(Symbol::Plus), int_tok(1)]);
    let sources: Vec<(String, Vec<Token>)> = Vec::new();
    let (ast, gen) = compile(&toks, &sources, 4, true).unwrap();
    assert_eq!(ast.len(), 1);
    let lines = gen.output();
    assert_eq!(lines[0].as_str(), "format ELF64 executable 3");
    assert!(lines.iter().any(|l| l.as_str() == "    call main"));
}

#[test]
fn ill_typed_program_stops_at_the_type_checker() {
    // return mixes an integer and a string literal in a sum
    let toks = main_returning(vec![
        int_tok(1),
        sym(Symbol::Plus),
        Token {
            kind: TokenKind::Section(langin::token::SectionKind::Str, "s".to_string()),
            line: 2,
            col: 3,
        },
    ]);
    let sources: Vec<(String, Vec<Token>)> = Vec::new();
    match compile(&toks, &sources, 4, true) {
        Err(CompileError::Type { .. }) => {},
        other => panic!("expected a type error, got {:?}", other),
    }
}

#[test]
fn malformed_program_stops_at_the_tree_builder() {
    let toks = vec![kw(Keyword::Let), ident("x"), sym(Symbol::Minus)];
    let sources: Vec<(String, Vec<Token>)> = Vec::new();
    match compile(&toks, &sources, 4, true) {
        Err(CompileError::Syntax { .. }) => {},
        other => panic!("expected a syntax error, got {:?}", other),
    }
}
