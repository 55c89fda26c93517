//! Scenarios for the tree builder: statement forms, the first-operator
//! expression split, `else if` chains, textual inclusion and its
//! flattening, and syntax failures.

use langin::ast::{Ast, ComparisonOp, Operator, Type, Value};
use langin::diag::{CompileError, SyntaxKind};
use langin::token::{Keyword, SectionKind, Symbol, Token, TokenKind};

fn kw(k: Keyword) -> Token {
    Token { kind: TokenKind::Keyword(k), line: 1, col: 1 }
}

fn sym(s: Symbol) -> Token {
    Token { kind: TokenKind::Symbol(s), line: 1, col: 1 }
}

fn ident(n: &str) -> Token {
    Token { kind: TokenKind::Ident(n.to_string()), line: 1, col: 1 }
}

fn int_tok(n: usize) -> Token {
    Token { kind: TokenKind::Int(n), line: 1, col: 1 }
}

fn strlit(s: &str) -> Token {
    Token { kind: TokenKind::Section(SectionKind::Str, s.to_string()), line: 1, col: 1 }
}

fn no_sources() -> Vec<(String, Vec<Token>)> {
    Vec::new()
}

#[test]
fn variable_declaration_parses() {
    // let x -> int = 5;
    let toks = vec![
        kw(Keyword::Let),
        ident("x"),
        sym(Symbol::Minus),
        sym(Symbol::BThen),
        kw(Keyword::Int),
        sym(Symbol::Equal),
        int_tok(5),
        sym(Symbol::SemiColon),
    ];
    let ast = Ast::parse(&toks, &no_sources(), 4).unwrap();
    assert_eq!(ast.len(), 1);
    match &ast[0] {
        Ast::Variable { name, var_t, value, .. } => {
            assert_eq!(name, "x");
            assert_eq!(*var_t, Type::Int);
            assert!(matches!(value, Value::Int(5)));
        },
        other => panic!("expected a variable declaration, got {:?}", other),
    }
}

fn function_tokens() -> Vec<Token> {
    // add :: (a -> int, b -> int) -> int { return a + b; }
    vec![
        ident("add"),
        sym(Symbol::Colon),
        sym(Symbol::Colon),
        sym(Symbol::OpenParen),
        ident("a"),
        sym(Symbol::Minus),
        sym(Symbol::BThen),
        kw(Keyword::Int),
        sym(Symbol::Comma),
        ident("b"),
        sym(Symbol::Minus),
        sym(Symbol::BThen),
        kw(Keyword::Int),
        sym(Symbol::CloseParen),
        sym(Symbol::Minus),
        sym(Symbol::BThen),
        kw(Keyword::Int),
        sym(Symbol::OpenBrace),
        kw(Keyword::Return),
        ident("a"),
        sym(Symbol::Plus),
        ident("b"),
        sym(Symbol::SemiColon),
        sym(Symbol::CloseBrace),
    ]
}

#[test]
fn function_declaration_parses() {
    let ast = Ast::parse(&function_tokens(), &no_sources(), 4).unwrap();
    assert_eq!(ast.len(), 1);
    match &ast[0] {
        Ast::Function { name, param_t, return_t, body, .. } => {
            assert_eq!(name, "add");
            assert_eq!(param_t.len(), 2);
            assert_eq!(param_t[0].0, "a");
            assert_eq!(param_t[0].1, Type::Int);
            assert_eq!(param_t[1].0, "b");
            assert_eq!(*return_t, Type::Int);
            assert_eq!(body.len(), 1);
            match &body[0] {
                Ast::Return { value, .. } => match value {
                    Value::BinaryExpr { op, .. } => assert_eq!(*op, Operator::Plus),
                    other => panic!("expected a binary expression, got {:?}", other),
                },
                other => panic!("expected a return, got {:?}", other),
            }
        },
        other => panic!("expected a function, got {:?}", other),
    }
}

#[test]
fn expression_splits_at_first_operator_without_precedence() {
    // let v -> int = 1 + 2 * 3;  splits at the `+`, not by precedence.
    let toks = vec![
        kw(Keyword::Let),
        ident("v"),
        sym(Symbol::Minus),
        sym(Symbol::BThen),
        kw(Keyword::Int),
        sym(Symbol::Equal),
        int_tok(1),
        sym(Symbol::Plus),
        int_tok(2),
        sym(Symbol::Asterisk),
        int_tok(3),
        sym(Symbol::SemiColon),
    ];
    let ast = Ast::parse(&toks, &no_sources(), 4).unwrap();
    match &ast[0] {
        Ast::Variable { value, .. } => match value {
            Value::BinaryExpr { l_expr, r_expr, op, .. } => {
                assert_eq!(*op, Operator::Plus);
                assert!(matches!(**l_expr, Value::Int(1)));
                match &**r_expr {
                    Value::BinaryExpr { op, .. } => {
                        assert_eq!(*op, Operator::Multiplication)
                    },
                    other => panic!("expected a nested product, got {:?}", other),
                }
            },
            other => panic!("expected a sum, got {:?}", other),
        },
        other => panic!("expected a variable, got {:?}", other),
    }
}

#[test]
fn dereference_and_cast_forms_parse() {
    // let a -> int = int[p]; let b -> int = int(p);
    let base = |open: Symbol, close: Symbol, name: &str| -> Vec<Token> {
        vec![
            kw(Keyword::Let),
            ident(name),
            sym(Symbol::Minus),
            sym(Symbol::BThen),
            kw(Keyword::Int),
            sym(Symbol::Equal),
            kw(Keyword::Int),
            sym(open),
            ident("p"),
            sym(close),
            sym(Symbol::SemiColon),
        ]
    };
    let d = Ast::parse(
        &base(Symbol::OpenBracket, Symbol::CloseBracket, "a"),
        &no_sources(),
        4,
    )
    .unwrap();
    match &d[0] {
        Ast::Variable { value, .. } => {
            assert!(matches!(value, Value::Deref(_, Type::Int)));
        },
        other => panic!("expected a variable, got {:?}", other),
    }
    let c = Ast::parse(
        &base(Symbol::OpenParen, Symbol::CloseParen, "b"),
        &no_sources(),
        4,
    )
    .unwrap();
    match &c[0] {
        Ast::Variable { value, .. } => {
            assert!(matches!(value, Value::Cast(_, Type::Int)));
        },
        other => panic!("expected a variable, got {:?}", other),
    }
}

#[test]
fn else_if_chain_parses_as_nested_if() {
    // if (1 == 1) { } else if (2 == 2) { } else { }
    let cmp = |n: usize| -> Vec<Token> {
        vec![int_tok(n), sym(Symbol::Equal), sym(Symbol::Equal), int_tok(n)]
    };
    let mut toks = vec![kw(Keyword::If)];
    toks.extend(cmp(1));
    toks.push(sym(Symbol::OpenBrace));
    toks.push(sym(Symbol::CloseBrace));
    toks.push(kw(Keyword::Else));
    toks.push(kw(Keyword::If));
    toks.extend(cmp(2));
    toks.push(sym(Symbol::OpenBrace));
    toks.push(sym(Symbol::CloseBrace));
    toks.push(kw(Keyword::Else));
    toks.push(sym(Symbol::OpenBrace));
    toks.push(sym(Symbol::CloseBrace));
    let ast = Ast::parse(&toks, &no_sources(), 4).unwrap();
    assert_eq!(ast.len(), 1);
    match &ast[0] {
        Ast::If { comparison, body, else_body, .. } => {
            assert_eq!(comparison.op, ComparisonOp::Equal);
            assert_eq!(body.len(), 0);
            assert_eq!(else_body.len(), 1);
            match &else_body[0] {
                Ast::If { else_body: inner_else, .. } => {
                    assert_eq!(inner_else.len(), 0);
                },
                other => panic!("expected a nested if, got {:?}", other),
            }
        },
        other => panic!("expected an if, got {:?}", other),
    }
}

#[test]
fn while_statement_parses() {
    // while 1 < 2 { }
    let toks = vec![
        kw(Keyword::While),
        int_tok(1),
        sym(Symbol::SThen),
        int_tok(2),
        sym(Symbol::OpenBrace),
        sym(Symbol::CloseBrace),
    ];
    let ast = Ast::parse(&toks, &no_sources(), 4).unwrap();
    match &ast[0] {
        Ast::While { comparison, body, .. } => {
            assert_eq!(comparison.op, ComparisonOp::Smaller);
            assert_eq!(body.len(), 0);
        },
        other => panic!("expected a while, got {:?}", other),
    }
}

#[test]
fn pointer_mutation_parses() {
    // int[p] = 9;
    let toks = vec![
        kw(Keyword::Int),
        sym(Symbol::OpenBracket),
        ident("p"),
        sym(Symbol::CloseBracket),
        sym(Symbol::Equal),
        int_tok(9),
        sym(Symbol::SemiColon),
    ];
    let ast = Ast::parse(&toks, &no_sources(), 4).unwrap();
    match &ast[0] {
        Ast::MutatePtr { ptr_type, ptr, value, .. } => {
            assert_eq!(*ptr_type, Type::Int);
            assert!(matches!(ptr, Value::Ident(_)));
            assert!(matches!(value, Value::Int(9)));
        },
        other => panic!("expected a pointer mutation, got {:?}", other),
    }
}

#[test]
fn verbatim_escape_parses() {
    // asm("syscall");
    let toks = vec![
        kw(Keyword::Asm),
        sym(Symbol::OpenParen),
        strlit("syscall"),
        sym(Symbol::CloseParen),
        sym(Symbol::SemiColon),
    ];
    let ast = Ast::parse(&toks, &no_sources(), 4).unwrap();
    match &ast[0] {
        Ast::InlineAsm { text, .. } => assert_eq!(text, "syscall"),
        other => panic!("expected an inline escape, got {:?}", other),
    }
}

fn inclusion_of(path: &str) -> Vec<Token> {
    vec![kw(Keyword::Include), strlit(path), sym(Symbol::SemiColon)]
}

#[test]
fn inclusion_splices_the_named_stream_in_place() {
    let mut toks = inclusion_of("lib");
    toks.extend(vec![
        kw(Keyword::Let),
        ident("x"),
        sym(Symbol::Minus),
        sym(Symbol::BThen),
        kw(Keyword::Int),
        sym(Symbol::Equal),
        int_tok(1),
        sym(Symbol::SemiColon),
    ]);
    let sources = vec![("lib".to_string(), function_tokens())];
    let ast = Ast::parse(&toks, &sources, 4).unwrap();
    assert_eq!(ast.len(), 2);
    assert!(matches!(&ast[0], Ast::Function { .. }));
    assert!(matches!(&ast[1], Ast::Variable { .. }));
}

#[test]
fn inclusion_flattening_detects_cross_file_redeclaration() {
    // The included stream declares `add`; the unit declares it again:
    // the flattened sequence is rejected like one concatenated file.
    let mut toks = inclusion_of("lib");
    toks.extend(function_tokens());
    let sources = vec![("lib".to_string(), function_tokens())];
    let ast = Ast::parse(&toks, &sources, 4).unwrap();
    assert_eq!(ast.len(), 2);
    let mut checker = langin::typecheck::TypeChecker::new();
    match checker.check(&ast, false) {
        Err(CompileError::Type { kind: langin::diag::TypeKind::FunctionExists(n), .. }) => {
            assert_eq!(n, "add");
        },
        other => panic!("expected a redeclaration error, got {:?}", other),
    }
}

#[test]
fn inclusion_of_a_missing_stream_is_reported() {
    let toks = inclusion_of("nowhere");
    match Ast::parse(&toks, &no_sources(), 4) {
        Err(CompileError::Syntax { kind: SyntaxKind::MissingSource(p), .. }) => {
            assert_eq!(p, "nowhere");
        },
        other => panic!("expected a missing-source error, got {:?}", other),
    }
}

#[test]
fn cyclic_inclusion_exhausts_the_nesting_budget() {
    let sources = vec![("loop".to_string(), inclusion_of("loop"))];
    match Ast::parse(&inclusion_of("loop"), &sources, 8) {
        Err(CompileError::Syntax { kind: SyntaxKind::NestingTooDeep, .. }) => {},
        other => panic!("expected a nesting-budget error, got {:?}", other),
    }
}

#[test]
fn truncated_declaration_reports_expected_token() {
    // let x -> int =     (nothing follows the equal sign)
    let toks = vec![
        kw(Keyword::Let),
        ident("x"),
        sym(Symbol::Minus),
        sym(Symbol::BThen),
        kw(Keyword::Int),
        sym(Symbol::Equal),
    ];
    match Ast::parse(&toks, &no_sources(), 4) {
        Err(CompileError::Syntax { kind: SyntaxKind::Expected(_), .. }) => {},
        other => panic!("expected a syntax error, got {:?}", other),
    }
}

#[test]
fn empty_initializer_reports_empty_expression() {
    // let x -> int = ;
    let toks = vec![
        kw(Keyword::Let),
        ident("x"),
        sym(Symbol::Minus),
        sym(Symbol::BThen),
        kw(Keyword::Int),
        sym(Symbol::Equal),
        sym(Symbol::SemiColon),
    ];
    match Ast::parse(&toks, &no_sources(), 4) {
        Err(CompileError::Syntax { kind: SyntaxKind::EmptyExpression, .. }) => {},
        other => panic!("expected an empty-expression error, got {:?}", other),
    }
}

#[test]
fn comments_and_stray_tokens_are_skipped() {
    let toks = vec![
        Token { kind: TokenKind::Section(SectionKind::Comment, "note".to_string()), line: 1, col: 1 },
        sym(Symbol::SemiColon),
    ];
    let ast = Ast::parse(&toks, &no_sources(), 4).unwrap();
    assert_eq!(ast.len(), 0);
}

#[test]
fn call_arguments_split_at_commas() {
    // let s -> int = add(1, 2);
    let toks = vec![
        kw(Keyword::Let),
        ident("s"),
        sym(Symbol::Minus),
        sym(Symbol::BThen),
        kw(Keyword::Int),
        sym(Symbol::Equal),
        ident("add"),
        sym(Symbol::OpenParen),
        int_tok(1),
        sym(Symbol::Comma),
        int_tok(2),
        sym(Symbol::CloseParen),
        sym(Symbol::SemiColon),
    ];
    let ast = Ast::parse(&toks, &no_sources(), 4).unwrap();
    match &ast[0] {
        Ast::Variable { value, .. } => match value {
            Value::FunctionCall { name, params, .. } => {
                assert_eq!(name, "add");
                assert_eq!(params.len(), 2);
                assert!(matches!(params[0], Value::Int(1)));
                assert!(matches!(params[1], Value::Int(2)));
            },
            other => panic!("expected a call, got {:?}", other),
        },
        other => panic!("expected a variable, got {:?}", other),
    }
}

#[test]
fn address_of_form_parses() {
    // let p -> ptr = &x;
    let toks = vec![
        kw(Keyword::Let),
        ident("p"),
        sym(Symbol::Minus),
        sym(Symbol::BThen),
        kw(Keyword::Ptr),
        sym(Symbol::Equal),
        sym(Symbol::And),
        ident("x"),
        sym(Symbol::SemiColon),
    ];
    let ast = Ast::parse(&toks, &no_sources(), 4).unwrap();
    match &ast[0] {
        Ast::Variable { var_t, value, .. } => {
            assert_eq!(*var_t, Type::Ptr);
            assert!(matches!(value, Value::Ref(_)));
        },
        other => panic!("expected a variable, got {:?}", other),
    }
}
