//! The tree builder.
//!
//! It consumes the full token sequence of a compilation unit and produces
//! the ordered sequence of top-level statements, or fails with the first
//! location-tagged syntax error.  Nested blocks are isolated with a
//! brace-depth counter; expressions are split at the first operator found
//! scanning left to right, deliberately without precedence.  Textual
//! inclusion is resolved against a caller-supplied table of pre-lexed
//! token streams, with a nesting budget that rejects cyclic inclusion.
//! Every function is mirrored by a spec function and proved to compute
//! exactly what the mirror states.

use vstd::prelude::*;
use crate::token::{Keyword, SectionKind, Symbol, Token, TokenKind, last_loc, last_loc_of};
use crate::ast::{
    Ast, AstV, Comparison, ComparisonOp, ComparisonV, Operator, Type, Value, ValueV, view_ast,
    view_asts,
    view_cmp, view_params, view_value, view_values, lemma_view_asts_concat,
};
use crate::diag::{CompileError, CompileErrorV, Expectation, SyntaxKind, SyntaxKindV, view_err};

verus! {

broadcast use vstd::std_specs::vec::group_vec_axioms;

/// The operator a token stands for, if any.
pub open spec fn spec_operator_of(t: Token) -> Option<Operator> {
    match t.kind {
        TokenKind::Symbol(s) => match s {
            Symbol::Plus => Some(Operator::Plus),
            Symbol::Minus => Some(Operator::Minus),
            Symbol::Asterisk => Some(Operator::Multiplication),
            Symbol::Slash => Some(Operator::Divide),
            _ => None,
        },
        _ => None,
    }
}

/// The type a type-keyword token names, if any.
pub open spec fn spec_type_of(t: Token) -> Option<Type> {
    match t.kind {
        TokenKind::Keyword(k) => match k {
            Keyword::Int => Some(Type::Int),
            Keyword::Ptr => Some(Type::Ptr),
            _ => None,
        },
        _ => None,
    }
}

/// Whether a token can begin a comparison operator.
pub open spec fn spec_is_comp_start(t: Token) -> bool {
    t.is_sym(Symbol::Equal) || t.is_sym(Symbol::Bang) || t.is_sym(Symbol::BThen) || t.is_sym(
        Symbol::SThen,
    )
}

fn operator_of(t: &Token) -> (r: Option<Operator>)
    ensures
        r == spec_operator_of(*t),
{
    match &t.kind {
        TokenKind::Symbol(s) => match s {
            Symbol::Plus => Some(Operator::Plus),
            Symbol::Minus => Some(Operator::Minus),
            Symbol::Asterisk => Some(Operator::Multiplication),
            Symbol::Slash => Some(Operator::Divide),
            _ => None,
        },
        _ => None,
    }
}

fn type_of(t: &Token) -> (r: Option<Type>)
    ensures
        r == spec_type_of(*t),
{
    match &t.kind {
        TokenKind::Keyword(k) => match k {
            Keyword::Int => Some(Type::Int),
            Keyword::Ptr => Some(Type::Ptr),
            _ => None,
        },
        _ => None,
    }
}

fn is_comp_start(t: &Token) -> (r: bool)
    ensures
        r == spec_is_comp_start(*t),
{
    t.is_symbol(Symbol::Equal) || t.is_symbol(Symbol::Bang) || t.is_symbol(Symbol::BThen)
        || t.is_symbol(Symbol::SThen)
}

/// The first position at or after `i` holding the given symbol.
pub open spec fn find_sym(toks: Seq<Token>, i: int, stop: Symbol) -> Option<int>
    decreases toks.len() - i,
{
    if i < 0 || i >= toks.len() {
        None
    } else if toks[i].is_sym(stop) {
        Some(i)
    } else {
        find_sym(toks, i + 1, stop)
    }
}

/// A found symbol lies in range and is the first occurrence.
pub proof fn lemma_find_sym(toks: Seq<Token>, i: int, stop: Symbol)
    requires
        0 <= i,
    ensures
        match find_sym(toks, i, stop) {
            Some(j) => i <= j < toks.len() && toks[j].is_sym(stop),
            None => true,
        },
    decreases toks.len() - i,
{
    if 0 <= i < toks.len() && !toks[i].is_sym(stop) {
        lemma_find_sym(toks, i + 1, stop);
    }
}

/// The first position at or after `i` holding an arithmetic operator.
pub open spec fn find_op(toks: Seq<Token>, i: int) -> Option<int>
    decreases toks.len() - i,
{
    if i < 0 || i >= toks.len() {
        None
    } else if spec_operator_of(toks[i]) is Some {
        Some(i)
    } else {
        find_op(toks, i + 1)
    }
}

/// A found operator lies in range.
pub proof fn lemma_find_op(toks: Seq<Token>, i: int)
    requires
        0 <= i,
    ensures
        match find_op(toks, i) {
            Some(j) => i <= j < toks.len() && spec_operator_of(toks[j]) is Some,
            None => true,
        },
    decreases toks.len() - i,
{
    if 0 <= i < toks.len() && !(spec_operator_of(toks[i]) is Some) {
        lemma_find_op(toks, i + 1);
    }
}

/// The first position at or after `i` that can begin a comparison
/// operator.
pub open spec fn find_comp(toks: Seq<Token>, i: int) -> Option<int>
    decreases toks.len() - i,
{
    if i < 0 || i >= toks.len() {
        None
    } else if spec_is_comp_start(toks[i]) {
        Some(i)
    } else {
        find_comp(toks, i + 1)
    }
}

/// A found comparison start lies in range.
pub proof fn lemma_find_comp(toks: Seq<Token>, i: int)
    requires
        0 <= i,
    ensures
        match find_comp(toks, i) {
            Some(j) => i <= j < toks.len() && spec_is_comp_start(toks[j]),
            None => true,
        },
    decreases toks.len() - i,
{
    if 0 <= i < toks.len() && !spec_is_comp_start(toks[i]) {
        lemma_find_comp(toks, i + 1);
    }
}

/// The position of the close brace that ends the block starting at `i`,
/// given the number of already-open nested braces.
pub open spec fn find_block_end(toks: Seq<Token>, i: int, depth: int) -> Option<int>
    decreases toks.len() - i,
{
    if i < 0 || i >= toks.len() {
        None
    } else if toks[i].is_sym(Symbol::CloseBrace) && depth == 0 {
        Some(i)
    } else {
        find_block_end(
            toks,
            i + 1,
            if toks[i].is_sym(Symbol::OpenBrace) {
                depth + 1
            } else if toks[i].is_sym(Symbol::CloseBrace) {
                depth - 1
            } else {
                depth
            },
        )
    }
}

/// A found block end lies in range.
pub proof fn lemma_find_block_end(toks: Seq<Token>, i: int, depth: int)
    requires
        0 <= i,
    ensures
        match find_block_end(toks, i, depth) {
            Some(j) => i <= j < toks.len(),
            None => true,
        },
    decreases toks.len() - i,
{
    if 0 <= i < toks.len() && !(toks[i].is_sym(Symbol::CloseBrace) && depth == 0) {
        lemma_find_block_end(
            toks,
            i + 1,
            if toks[i].is_sym(Symbol::OpenBrace) {
                depth + 1
            } else if toks[i].is_sym(Symbol::CloseBrace) {
                depth - 1
            } else {
                depth
            },
        );
    }
}

/// The cut that ends an `else if` chain run starting at `i`: the scan
/// keeps going past a block-closing brace that is immediately followed
/// by another `else`, so a whole chain is collected as one run.
pub open spec fn chain_cut(toks: Seq<Token>, i: int, depth: int) -> int
    decreases toks.len() - i,
{
    if i < 0 || i >= toks.len() {
        toks.len() as int
    } else {
        let d2 = if toks[i].is_sym(Symbol::OpenBrace) {
            depth + 1
        } else if toks[i].is_sym(Symbol::CloseBrace) {
            depth - 1
        } else {
            depth
        };
        if toks[i].is_sym(Symbol::CloseBrace) && d2 == 0 && (i + 1 >= toks.len() || !toks[i
            + 1].is_kw(Keyword::Else)) {
            i + 1
        } else {
            chain_cut(toks, i + 1, d2)
        }
    }
}

/// The chain cut lies within the sequence and makes progress.
pub proof fn lemma_chain_cut(toks: Seq<Token>, i: int, depth: int)
    requires
        0 <= i,
    ensures
        i < chain_cut(toks, i, depth) <= toks.len() || (i >= toks.len() && chain_cut(toks, i, depth)
            == toks.len()),
    decreases toks.len() - i,
{
    if 0 <= i < toks.len() {
        let d2 = if toks[i].is_sym(Symbol::OpenBrace) {
            depth + 1
        } else if toks[i].is_sym(Symbol::CloseBrace) {
            depth - 1
        } else {
            depth
        };
        if !(toks[i].is_sym(Symbol::CloseBrace) && d2 == 0 && (i + 1 >= toks.len() || !toks[i
            + 1].is_kw(Keyword::Else))) {
            lemma_chain_cut(toks, i + 1, d2);
        }
    }
}

fn find_sym_from(tokens: &Vec<Token>, i: usize, stop: Symbol) -> (r: Option<usize>)
    ensures
        match r {
            Some(j) => find_sym(tokens@, i as int, stop) == Some(j as int),
            None => find_sym(tokens@, i as int, stop) is None,
        },
{
    let mut k: usize = i;
    while k < tokens.len()
        invariant
            i <= k,
            find_sym(tokens@, i as int, stop) == find_sym(tokens@, k as int, stop),
        decreases tokens.len() - k,
    {
        if tokens[k].is_symbol(stop) {
            return Some(k);
        }
        k = k + 1;
    }
    None
}

fn find_op_from(tokens: &Vec<Token>, i: usize) -> (r: Option<usize>)
    ensures
        match r {
            Some(j) => find_op(tokens@, i as int) == Some(j as int),
            None => find_op(tokens@, i as int) is None,
        },
{
    let mut k: usize = i;
    while k < tokens.len()
        invariant
            i <= k,
            find_op(tokens@, i as int) == find_op(tokens@, k as int),
        decreases tokens.len() - k,
    {
        if operator_of(&tokens[k]).is_some() {
            return Some(k);
        }
        k = k + 1;
    }
    None
}

fn find_comp_from(tokens: &Vec<Token>, i: usize) -> (r: Option<usize>)
    ensures
        match r {
            Some(j) => find_comp(tokens@, i as int) == Some(j as int),
            None => find_comp(tokens@, i as int) is None,
        },
{
    let mut k: usize = i;
    while k < tokens.len()
        invariant
            i <= k,
            find_comp(tokens@, i as int) == find_comp(tokens@, k as int),
        decreases tokens.len() - k,
    {
        if is_comp_start(&tokens[k]) {
            return Some(k);
        }
        k = k + 1;
    }
    None
}

fn find_block_end_from(tokens: &Vec<Token>, i: usize) -> (r: Option<usize>)
    ensures
        match r {
            Some(j) => find_block_end(tokens@, i as int, 0) == Some(j as int),
            None => find_block_end(tokens@, i as int, 0) is None,
        },
{
    let mut k: usize = i;
    let mut depth: i128 = 0;
    while k < tokens.len()
        invariant
            i <= k,
            find_block_end(tokens@, i as int, 0) == find_block_end(tokens@, k as int, depth as int),
            -(k as int) <= depth as int <= k as int,
        decreases tokens.len() - k,
    {
        if tokens[k].is_symbol(Symbol::CloseBrace) && depth == 0 {
            return Some(k);
        }
        if tokens[k].is_symbol(Symbol::OpenBrace) {
            depth = depth + 1;
        } else if tokens[k].is_symbol(Symbol::CloseBrace) {
            depth = depth - 1;
        }
        k = k + 1;
    }
    None
}

fn chain_cut_from(tokens: &Vec<Token>, i: usize) -> (r: usize)
    ensures
        r as int == chain_cut(tokens@, i as int, 0),
        i < r <= tokens.len() || (i >= tokens.len() && r == tokens.len()),
{
    proof {
        lemma_chain_cut(tokens@, i as int, 0);
    }
    if i >= tokens.len() {
        return tokens.len();
    }
    let mut k: usize = i;
    let mut depth: i128 = 0;
    while k < tokens.len()
        invariant
            i <= k <= tokens.len(),
            chain_cut(tokens@, i as int, 0) == chain_cut(tokens@, k as int, depth as int),
            -(k as int) <= depth as int <= k as int,
        decreases tokens.len() - k,
    {
        let d2: i128 = if tokens[k].is_symbol(Symbol::OpenBrace) {
            depth + 1
        } else if tokens[k].is_symbol(Symbol::CloseBrace) {
            depth - 1
        } else {
            depth
        };
        let stop_here = tokens[k].is_symbol(Symbol::CloseBrace) && d2 == 0 && (k + 1
            >= tokens.len() || !tokens[k + 1].is_keyword(Keyword::Else));
        if stop_here {
            return k + 1;
        }
        depth = d2;
        k = k + 1;
    }
    proof {
        lemma_chain_cut(tokens@, i as int, 0);
    }
    tokens.len()
}

/// A fresh vector holding the tokens of the range `[from, to)`.
fn copy_range(tokens: &Vec<Token>, from: usize, to: usize) -> (r: Vec<Token>)
    requires
        from <= to <= tokens.len(),
    ensures
        r@ == tokens@.subrange(from as int, to as int),
{
    let mut r: Vec<Token> = Vec::new();
    let mut k: usize = from;
    while k < to
        invariant
            from <= k <= to <= tokens.len(),
            r@ =~= tokens@.subrange(from as int, k as int),
        decreases to - k,
    {
        r.push(tokens[k].clone());
        proof {
            assert(r@ =~= tokens@.subrange(from as int, k as int + 1));
        }
        k = k + 1;
    }
    proof {
        assert(r@ =~= tokens@.subrange(from as int, to as int));
    }
    r
}


/// Shorthand for a syntax error view.
pub open spec fn syn_v(loc: (usize, usize), e: Expectation) -> CompileErrorV {
    CompileErrorV::Syntax { loc, kind: SyntaxKindV::Expected(e) }
}

fn syn_e(loc: (usize, usize), e: Expectation) -> (r: CompileError)
    ensures
        view_err(r) == syn_v(loc, e),
{
    CompileError::Syntax { loc, kind: SyntaxKind::Expected(e) }
}

/// Maps an expression result onto the ghost views.
pub open spec fn res_val(r: Result<Value, CompileError>) -> Result<ValueV, CompileErrorV> {
    match r {
        Ok(v) => Ok(view_value(v)),
        Err(e) => Err(view_err(e)),
    }
}

/// Maps an argument-list result onto the ghost views.
pub open spec fn res_vals(r: Result<Vec<Value>, CompileError>) -> Result<
    Seq<ValueV>,
    CompileErrorV,
> {
    match r {
        Ok(v) => Ok(view_values(v@)),
        Err(e) => Err(view_err(e)),
    }
}

/// Maps a comparison result onto the ghost views.
pub open spec fn res_cmp(r: Result<Comparison, CompileError>) -> Result<
    ComparisonV,
    CompileErrorV,
> {
    match r {
        Ok(c) => Ok(view_cmp(c)),
        Err(e) => Err(view_err(e)),
    }
}

/// Whether a token run has the shape of a function call: an identifier
/// immediately followed by an open parenthesis.
pub open spec fn spec_is_call(toks: Seq<Token>) -> bool {
    toks.len() >= 2 && (toks[0].kind is Ident) && toks[1].is_sym(Symbol::OpenParen)
}

/// One single expression: an integer, string or identifier literal, a
/// type-keyword-prefixed dereference (brackets) or cast (parentheses),
/// an address-of form, or the void sentinel for anything else.
pub open spec fn spec_single_expr(toks: Seq<Token>, loc: (usize, usize)) -> Result<
    ValueV,
    CompileErrorV,
>
    decreases toks.len(), 0int, 0int,
    via spec_single_expr_dec
{
    if toks.len() == 0 {
        Err(CompileErrorV::Syntax { loc, kind: SyntaxKindV::EmptyExpression })
    } else {
        let t0 = toks[0];
        match t0.kind {
            TokenKind::Int(n) => Ok(ValueV::Int(n)),
            TokenKind::Ident(s) => Ok(ValueV::Ident(s@)),
            TokenKind::Section(k, s) => if k == SectionKind::Str {
                Ok(ValueV::Str(s@))
            } else {
                Ok(ValueV::Null)
            },
            _ => if spec_type_of(t0) is Some {
                let dt = spec_type_of(t0).unwrap();
                let loc0 = t0.sloc();
                if toks.len() <= 1 {
                    Err(syn_v(last_loc(toks), Expectation::OpenBracket))
                } else if toks[1].is_sym(Symbol::OpenBracket) || toks[1].is_sym(
                    Symbol::OpenParen,
                ) {
                    let bracket = toks[1].is_sym(Symbol::OpenBracket);
                    let sep = if bracket {
                        Symbol::CloseBracket
                    } else {
                        Symbol::CloseParen
                    };
                    let sexp = if bracket {
                        Expectation::CloseBracket
                    } else {
                        Expectation::CloseParen
                    };
                    if toks.len() <= 2 {
                        Err(syn_v(last_loc(toks), sexp))
                    } else {
                        match find_sym(toks, 2, sep) {
                            None => Err(syn_v(last_loc(toks), sexp)),
                            Some(j) => match spec_expr(toks.subrange(2, j), loc0) {
                                Err(e) => Err(e),
                                Ok(inner) => if bracket {
                                    Ok(ValueV::Deref(Box::new(inner), dt))
                                } else {
                                    Ok(ValueV::Cast(Box::new(inner), dt))
                                },
                            },
                        }
                    }
                } else {
                    Err(syn_v(loc0, Expectation::OpenBracket))
                }
            } else if t0.is_sym(Symbol::And) {
                let loc0 = t0.sloc();
                if toks.len() <= 1 {
                    Err(syn_v(last_loc(toks), Expectation::ValueTokens))
                } else {
                    match spec_expr(toks.subrange(1, toks.len() as int), loc0) {
                        Err(e) => Err(e),
                        Ok(inner) => Ok(ValueV::Ref(Box::new(inner))),
                    }
                }
            } else {
                Ok(ValueV::Null)
            },
        }
    }
}

#[via_fn]
proof fn spec_single_expr_dec(toks: Seq<Token>, loc: (usize, usize)) {
    lemma_find_sym(toks, 2, Symbol::CloseBracket);
    lemma_find_sym(toks, 2, Symbol::CloseParen);
}

/// One expression: a function-call shape, else a binary expression split
/// at the first operator found scanning left to right, else a single
/// expression.  The first-operator split is a deliberate simplification:
/// the grammar has no operator precedence.
pub open spec fn spec_expr(toks: Seq<Token>, loc: (usize, usize)) -> Result<
    ValueV,
    CompileErrorV,
>
    decreases toks.len(), 1int, 0int,
    via spec_expr_dec
{
    if toks.len() == 0 {
        Err(CompileErrorV::Syntax { loc, kind: SyntaxKindV::EmptyExpression })
    } else if spec_is_call(toks) {
        let loc0 = toks[0].sloc();
        let name = toks[0].kind->Ident_0;
        if toks.len() <= 2 {
            Err(syn_v(last_loc(toks), Expectation::CloseParen))
        } else {
            match find_sym(toks, 2, Symbol::CloseParen) {
                None => Err(syn_v(last_loc(toks), Expectation::CloseParen)),
                Some(j) => match spec_split_params(toks.subrange(2, j), 0, 0) {
                    Err(e) => Err(e),
                    Ok(ps) => Ok(ValueV::FunctionCall { loc: loc0, name: name@, params: ps }),
                },
            }
        }
    } else if find_op(toks, 0) is Some {
        let k = find_op(toks, 0).unwrap();
        let loc0 = toks[0].sloc();
        let op = spec_operator_of(toks[k]).unwrap();
        if k + 1 >= toks.len() {
            Err(syn_v(last_loc(toks), Expectation::SemiColon))
        } else {
            let r_loc = toks[k + 1].sloc();
            match spec_expr(toks.subrange(0, k), loc0) {
                Err(e) => Err(e),
                Ok(lv) => match spec_expr(toks.subrange(k + 1, toks.len() as int), r_loc) {
                    Err(e) => Err(e),
                    Ok(rv) => Ok(ValueV::BinaryExpr {
                        loc: loc0,
                        l_expr: Box::new(lv),
                        r_expr: Box::new(rv),
                        op,
                    }),
                },
            }
        }
    } else {
        spec_single_expr(toks, loc)
    }
}

#[via_fn]
proof fn spec_expr_dec(toks: Seq<Token>, loc: (usize, usize)) {
    lemma_find_sym(toks, 2, Symbol::CloseParen);
    lemma_find_op(toks, 0);
}

/// The arguments of a call: the token run is split at every comma, each
/// piece read as one expression, and a trailing non-empty piece kept.
/// `i` is the scan position, `cs` the start of the piece being scanned.
pub open spec fn spec_split_params(toks: Seq<Token>, i: int, cs: int) -> Result<
    Seq<ValueV>,
    CompileErrorV,
>
    decreases toks.len(), 2int, toks.len() - i,
{
    if !(0 <= cs <= i) {
        Ok(Seq::empty())
    } else if i >= toks.len() {
        if cs < toks.len() {
            match spec_expr(toks.subrange(cs, toks.len() as int), toks[cs].sloc()) {
                Err(e) => Err(e),
                Ok(v) => Ok(seq![v]),
            }
        } else {
            Ok(Seq::empty())
        }
    } else if toks[i].is_sym(Symbol::Comma) {
        match spec_expr(toks.subrange(cs, i), toks[cs].sloc()) {
            Err(e) => Err(e),
            Ok(v) => match spec_split_params(toks, i + 1, i + 1) {
                Err(e) => Err(e),
                Ok(rest) => Ok(seq![v] + rest),
            },
        }
    } else {
        spec_split_params(toks, i + 1, cs)
    }
}

fn single_expr(tokens: &Vec<Token>, loc: (usize, usize)) -> (r: Result<Value, CompileError>)
    ensures
        res_val(r) == spec_single_expr(tokens@, loc),
    decreases tokens@.len(), 0int, 0int,
{
    if tokens.len() == 0 {
        return Err(CompileError::Syntax { loc, kind: SyntaxKind::EmptyExpression });
    }
    match &tokens[0].kind {
        TokenKind::Int(n) => Ok(Value::Int(*n)),
        TokenKind::Ident(s) => Ok(Value::Ident(s.clone())),
        TokenKind::Section(k, s) => {
            if *k == SectionKind::Str {
                Ok(Value::Str(s.clone()))
            } else {
                Ok(Value::Null)
            }
        },
        _ => {
            let dt_opt = type_of(&tokens[0]);
            if let Some(dt) = dt_opt {
                let loc0 = tokens[0].loc();
                if tokens.len() <= 1 {
                    return Err(syn_e(last_loc_of(tokens), Expectation::OpenBracket));
                }
                let is_bracket = tokens[1].is_symbol(Symbol::OpenBracket);
                let is_paren = tokens[1].is_symbol(Symbol::OpenParen);
                if is_bracket || is_paren {
                    let sep = if is_bracket {
                        Symbol::CloseBracket
                    } else {
                        Symbol::CloseParen
                    };
                    let sexp = if is_bracket {
                        Expectation::CloseBracket
                    } else {
                        Expectation::CloseParen
                    };
                    if tokens.len() <= 2 {
                        return Err(syn_e(last_loc_of(tokens), sexp));
                    }
                    match find_sym_from(tokens, 2, sep) {
                        None => Err(syn_e(last_loc_of(tokens), sexp)),
                        Some(j) => {
                            proof {
                                lemma_find_sym(tokens@, 2, sep);
                            }
                            let inner_toks = copy_range(tokens, 2, j);
                            let inner = match expr(&inner_toks, loc0) {
                                Ok(v) => v,
                                Err(e) => {
                                    return Err(e);
                                },
                            };
                            if is_bracket {
                                Ok(Value::Deref(Box::new(inner), dt))
                            } else {
                                Ok(Value::Cast(Box::new(inner), dt))
                            }
                        },
                    }
                } else {
                    Err(syn_e(loc0, Expectation::OpenBracket))
                }
            } else if tokens[0].is_symbol(Symbol::And) {
                let loc0 = tokens[0].loc();
                if tokens.len() <= 1 {
                    return Err(syn_e(last_loc_of(tokens), Expectation::ValueTokens));
                }
                let rest = copy_range(tokens, 1, tokens.len());
                let inner = match expr(&rest, loc0) {
                    Ok(v) => v,
                    Err(e) => {
                        return Err(e);
                    },
                };
                Ok(Value::Ref(Box::new(inner)))
            } else {
                Ok(Value::Null)
            }
        },
    }
}

fn expr(tokens: &Vec<Token>, loc: (usize, usize)) -> (r: Result<Value, CompileError>)
    ensures
        res_val(r) == spec_expr(tokens@, loc),
    decreases tokens@.len(), 1int, 0int,
{
    if tokens.len() == 0 {
        return Err(CompileError::Syntax { loc, kind: SyntaxKind::EmptyExpression });
    }
    let is_ident0 = matches!(&tokens[0].kind, TokenKind::Ident(_));
    if tokens.len() >= 2 && is_ident0 && tokens[1].is_symbol(Symbol::OpenParen) {
        let loc0 = tokens[0].loc();
        let name = match &tokens[0].kind {
            TokenKind::Ident(s) => s.clone(),
            _ => {
                proof {
                    assert(false);
                }
                return Err(CompileError::Internal { loc });
            },
        };
        if tokens.len() <= 2 {
            return Err(syn_e(last_loc_of(tokens), Expectation::CloseParen));
        }
        match find_sym_from(tokens, 2, Symbol::CloseParen) {
            None => Err(syn_e(last_loc_of(tokens), Expectation::CloseParen)),
            Some(j) => {
                proof {
                    lemma_find_sym(tokens@, 2, Symbol::CloseParen);
                }
                let ptoks = copy_range(tokens, 2, j);
                let params = match split_params(&ptoks, 0, 0) {
                    Ok(ps) => ps,
                    Err(e) => {
                        return Err(e);
                    },
                };
                Ok(Value::FunctionCall { loc: loc0, name, params })
            },
        }
    } else {
        match find_op_from(tokens, 0) {
            Some(k) => {
                proof {
                    lemma_find_op(tokens@, 0);
                }
                let loc0 = tokens[0].loc();
                let op = match operator_of(&tokens[k]) {
                    Some(o) => o,
                    None => {
                        proof {
                            assert(false);
                        }
                        return Err(CompileError::Internal { loc });
                    },
                };
                if tokens.len() - k <= 1 {
                    return Err(syn_e(last_loc_of(tokens), Expectation::SemiColon));
                }
                let r_loc = tokens[k + 1].loc();
                let l_toks = copy_range(tokens, 0, k);
                let r_toks = copy_range(tokens, k + 1, tokens.len());
                let lv = match expr(&l_toks, loc0) {
                    Ok(v) => v,
                    Err(e) => {
                        return Err(e);
                    },
                };
                let rv = match expr(&r_toks, r_loc) {
                    Ok(v) => v,
                    Err(e) => {
                        return Err(e);
                    },
                };
                Ok(Value::BinaryExpr {
                    loc: loc0,
                    l_expr: Box::new(lv),
                    r_expr: Box::new(rv),
                    op,
                })
            },
            None => single_expr(tokens, loc),
        }
    }
}

fn split_params(tokens: &Vec<Token>, i: usize, cs: usize) -> (r: Result<Vec<Value>, CompileError>)
    requires
        cs <= i,
    ensures
        res_vals(r) == spec_split_params(tokens@, i as int, cs as int),
    decreases tokens@.len(), 2int, tokens@.len() - i,
{
    if i >= tokens.len() {
        if cs < tokens.len() {
            let chunk = copy_range(tokens, cs, tokens.len());
            let v = match expr(&chunk, tokens[cs].loc()) {
                Ok(v) => v,
                Err(e) => {
                    return Err(e);
                },
            };
            let mut out: Vec<Value> = Vec::new();
            out.push(v);
            proof {
                assert(out@.drop_first() =~= Seq::<Value>::empty());
                assert(view_values(out@.drop_first()) =~= Seq::<ValueV>::empty());
                assert(view_values(out@) =~= seq![view_value(out@[0])]);
            }
            Ok(out)
        } else {
            Ok(Vec::new())
        }
    } else if tokens[i].is_symbol(Symbol::Comma) {
        let chunk = copy_range(tokens, cs, i);
        let v = match expr(&chunk, tokens[cs].loc()) {
            Ok(v) => v,
            Err(e) => {
                return Err(e);
            },
        };
        let mut rest = match split_params(tokens, i + 1, i + 1) {
            Ok(ps) => ps,
            Err(e) => {
                return Err(e);
            },
        };
        let mut out: Vec<Value> = Vec::new();
        out.push(v);
        let ghost rest0 = rest@;
        out.append(&mut rest);
        proof {
            assert(out@.drop_first() =~= rest0);
            assert(view_values(out@) =~= seq![view_value(out@[0])] + view_values(rest0));
        }
        Ok(out)
    } else {
        split_params(tokens, i + 1, cs)
    }
}


/// Maps a statement-step result onto the ghost views.
pub open spec fn res_stmt(r: Result<(Vec<Ast>, usize), CompileError>) -> Result<
    (Seq<AstV>, int),
    CompileErrorV,
> {
    match r {
        Ok((ss, j)) => Ok((view_asts(ss@), j as int)),
        Err(e) => Err(view_err(e)),
    }
}

/// Maps a statement-sequence result onto the ghost views.
pub open spec fn res_asts(r: Result<Vec<Ast>, CompileError>) -> Result<Seq<AstV>, CompileErrorV> {
    match r {
        Ok(v) => Ok(view_asts(v@)),
        Err(e) => Err(view_err(e)),
    }
}

/// Maps a parameter result onto the ghost views.
pub open spec fn res_par(r: Result<(String, Type), CompileError>) -> Result<
    (Seq<char>, Type),
    CompileErrorV,
> {
    match r {
        Ok(p) => Ok((p.0@, p.1)),
        Err(e) => Err(view_err(e)),
    }
}

/// Maps a parameter-list result onto the ghost views.
pub open spec fn res_plist(r: Result<Vec<(String, Type)>, CompileError>) -> Result<
    Seq<(Seq<char>, Type)>,
    CompileErrorV,
> {
    match r {
        Ok(v) => Ok(view_params(v@)),
        Err(e) => Err(view_err(e)),
    }
}

/// One comparison: split at the first comparison-operator token, with
/// `==` and `!=` recognized from the token pair.
pub open spec fn spec_comparison(toks: Seq<Token>, loc: (usize, usize)) -> Result<
    ComparisonV,
    CompileErrorV,
> {
    if toks.len() == 0 {
        Err(syn_v(loc, Expectation::Comparison))
    } else {
        let loc0 = toks[0].sloc();
        match find_comp(toks, 0) {
            None => Err(syn_v(last_loc(toks), Expectation::ComparisonOperator)),
            Some(k) => {
                let two = !(toks[k].is_sym(Symbol::BThen) || toks[k].is_sym(Symbol::SThen));
                if two && k + 1 >= toks.len() {
                    Err(syn_v(last_loc(toks), Expectation::ComparisonOperator))
                } else {
                    let kp = if two {
                        k + 1
                    } else {
                        k
                    };
                    let opv = if kp >= 1 && toks[kp - 1].is_sym(Symbol::Equal) && toks[kp].is_sym(
                        Symbol::Equal,
                    ) {
                        Some(ComparisonOp::Equal)
                    } else if kp >= 1 && toks[kp - 1].is_sym(Symbol::Bang) && toks[kp].is_sym(
                        Symbol::Equal,
                    ) {
                        Some(ComparisonOp::NotEqual)
                    } else if toks[kp].is_sym(Symbol::BThen) {
                        Some(ComparisonOp::Bigger)
                    } else if toks[kp].is_sym(Symbol::SThen) {
                        Some(ComparisonOp::Smaller)
                    } else {
                        None
                    };
                    match opv {
                        None => Err(syn_v(toks[kp].sloc(), Expectation::ComparisonOperator)),
                        Some(op) => if kp + 1 >= toks.len() {
                            Err(syn_v(last_loc(toks), Expectation::ValueTokens))
                        } else {
                            let r_loc = toks[kp + 1].sloc();
                            match spec_expr(toks.subrange(0, k), loc0) {
                                Err(e) => Err(e),
                                Ok(lv) => match spec_expr(
                                    toks.subrange(kp + 1, toks.len() as int),
                                    r_loc,
                                ) {
                                    Err(e) => Err(e),
                                    Ok(rv) => Ok(ComparisonV { l_expr: lv, r_expr: rv, op }),
                                },
                            }
                        },
                    }
                }
            },
        }
    }
}

fn parse_comparison(tokens: &Vec<Token>, loc: (usize, usize)) -> (r: Result<
    Comparison,
    CompileError,
>)
    ensures
        res_cmp(r) == spec_comparison(tokens@, loc),
{
    if tokens.len() == 0 {
        return Err(syn_e(loc, Expectation::Comparison));
    }
    let loc0 = tokens[0].loc();
    let k = match find_comp_from(tokens, 0) {
        None => {
            return Err(syn_e(last_loc_of(tokens), Expectation::ComparisonOperator));
        },
        Some(k) => k,
    };
    proof {
        lemma_find_comp(tokens@, 0);
    }
    let two = !(tokens[k].is_symbol(Symbol::BThen) || tokens[k].is_symbol(Symbol::SThen));
    if two && tokens.len() - k <= 1 {
        return Err(syn_e(last_loc_of(tokens), Expectation::ComparisonOperator));
    }
    let kp = if two {
        k + 1
    } else {
        k
    };
    let opv = if kp >= 1 && tokens[kp - 1].is_symbol(Symbol::Equal) && tokens[kp].is_symbol(
        Symbol::Equal,
    ) {
        Some(ComparisonOp::Equal)
    } else if kp >= 1 && tokens[kp - 1].is_symbol(Symbol::Bang) && tokens[kp].is_symbol(
        Symbol::Equal,
    ) {
        Some(ComparisonOp::NotEqual)
    } else if tokens[kp].is_symbol(Symbol::BThen) {
        Some(ComparisonOp::Bigger)
    } else if tokens[kp].is_symbol(Symbol::SThen) {
        Some(ComparisonOp::Smaller)
    } else {
        None
    };
    let op = match opv {
        None => {
            return Err(syn_e(tokens[kp].loc(), Expectation::ComparisonOperator));
        },
        Some(op) => op,
    };
    if tokens.len() - kp <= 1 {
        return Err(syn_e(last_loc_of(tokens), Expectation::ValueTokens));
    }
    let r_loc = tokens[kp + 1].loc();
    let l_toks = copy_range(tokens, 0, k);
    let r_toks = copy_range(tokens, kp + 1, tokens.len());
    let lv = match expr(&l_toks, loc0) {
        Ok(v) => v,
        Err(e) => {
            return Err(e);
        },
    };
    let rv = match expr(&r_toks, r_loc) {
        Ok(v) => v,
        Err(e) => {
            return Err(e);
        },
    };
    Ok(Comparison { l_expr: Box::new(lv), r_expr: Box::new(rv), op })
}

/// One function parameter, of the shape `name -> type`; tokens past the
/// type are ignored.
pub open spec fn spec_param(toks: Seq<Token>, global_loc: (usize, usize)) -> Result<
    (Seq<char>, Type),
    CompileErrorV,
> {
    if toks.len() == 0 {
        Err(syn_v(global_loc, Expectation::Identifier))
    } else {
        match toks[0].kind {
            TokenKind::Ident(name) => {
                if toks.len() <= 2 {
                    Err(syn_v(last_loc(toks), Expectation::Arrow))
                } else if !(toks[1].is_sym(Symbol::Minus) && toks[2].is_sym(Symbol::BThen)) {
                    Err(syn_v(toks[1].sloc(), Expectation::Arrow))
                } else if toks.len() <= 3 {
                    Err(syn_v(last_loc(toks), Expectation::TypeName))
                } else {
                    match spec_type_of(toks[3]) {
                        Some(t) => Ok((name@, t)),
                        None => Err(syn_v(toks[3].sloc(), Expectation::TypeName)),
                    }
                }
            },
            _ => Err(syn_v(toks[0].sloc(), Expectation::Identifier)),
        }
    }
}

fn param_one(tokens: &Vec<Token>, global_loc: (usize, usize)) -> (r: Result<
    (String, Type),
    CompileError,
>)
    ensures
        res_par(r) == spec_param(tokens@, global_loc),
{
    if tokens.len() == 0 {
        return Err(syn_e(global_loc, Expectation::Identifier));
    }
    match &tokens[0].kind {
        TokenKind::Ident(name) => {
            if tokens.len() <= 2 {
                return Err(syn_e(last_loc_of(tokens), Expectation::Arrow));
            }
            if !(tokens[1].is_symbol(Symbol::Minus) && tokens[2].is_symbol(Symbol::BThen)) {
                return Err(syn_e(tokens[1].loc(), Expectation::Arrow));
            }
            if tokens.len() <= 3 {
                return Err(syn_e(last_loc_of(tokens), Expectation::TypeName));
            }
            match type_of(&tokens[3]) {
                Some(t) => Ok((name.clone(), t)),
                None => Err(syn_e(tokens[3].loc(), Expectation::TypeName)),
            }
        },
        _ => Err(syn_e(tokens[0].loc(), Expectation::Identifier)),
    }
}

/// The declared parameters of a function: the run `[i, stop)` is split
/// at every comma, each piece read as one parameter, and a trailing
/// non-empty piece kept.
pub open spec fn spec_params_list(
    toks: Seq<Token>,
    i: int,
    cs: int,
    stop: int,
    ploc: (usize, usize),
) -> Result<Seq<(Seq<char>, Type)>, CompileErrorV>
    decreases stop - i,
{
    if !(0 <= cs <= i && i <= stop && stop <= toks.len()) {
        Ok(Seq::empty())
    } else if i >= stop {
        if cs < stop {
            match spec_param(toks.subrange(cs, stop), ploc) {
                Err(e) => Err(e),
                Ok(p) => Ok(seq![p]),
            }
        } else {
            Ok(Seq::empty())
        }
    } else if toks[i].is_sym(Symbol::Comma) {
        match spec_param(toks.subrange(cs, i), ploc) {
            Err(e) => Err(e),
            Ok(p) => match spec_params_list(toks, i + 1, i + 1, stop, ploc) {
                Err(e) => Err(e),
                Ok(rest) => Ok(seq![p] + rest),
            },
        }
    } else {
        spec_params_list(toks, i + 1, cs, stop, ploc)
    }
}

fn params_list(
    tokens: &Vec<Token>,
    i: usize,
    cs: usize,
    stop: usize,
    ploc: (usize, usize),
) -> (r: Result<Vec<(String, Type)>, CompileError>)
    requires
        cs <= i <= stop <= tokens.len(),
    ensures
        res_plist(r) == spec_params_list(tokens@, i as int, cs as int, stop as int, ploc),
    decreases stop - i,
{
    if i >= stop {
        if cs < stop {
            let chunk = copy_range(tokens, cs, stop);
            let p = match param_one(&chunk, ploc) {
                Ok(p) => p,
                Err(e) => {
                    return Err(e);
                },
            };
            let mut out: Vec<(String, Type)> = Vec::new();
            out.push(p);
            proof {
                assert(out@.drop_first() =~= Seq::<(String, Type)>::empty());
                assert(view_params(out@.drop_first()) =~= Seq::<(Seq<char>, Type)>::empty());
                assert(view_params(out@) =~= seq![(out@[0].0@, out@[0].1)]);
            }
            Ok(out)
        } else {
            Ok(Vec::new())
        }
    } else if tokens[i].is_symbol(Symbol::Comma) {
        let chunk = copy_range(tokens, cs, i);
        let p = match param_one(&chunk, ploc) {
            Ok(p) => p,
            Err(e) => {
                return Err(e);
            },
        };
        let mut rest = match params_list(tokens, i + 1, i + 1, stop, ploc) {
            Ok(ps) => ps,
            Err(e) => {
                return Err(e);
            },
        };
        let mut out: Vec<(String, Type)> = Vec::new();
        out.push(p);
        let ghost rest0 = rest@;
        out.append(&mut rest);
        proof {
            assert(out@.drop_first() =~= rest0);
            assert(view_params(out@) =~= seq![(out@[0].0@, out@[0].1)] + view_params(rest0));
        }
        Ok(out)
    } else {
        params_list(tokens, i + 1, cs, stop, ploc)
    }
}

/// The pre-lexed token stream supplied for a path, if any.
pub open spec fn env_lookup(
    env: Seq<(String, Vec<Token>)>,
    path: Seq<char>,
    i: int,
) -> Option<Seq<Token>>
    decreases env.len() - i,
{
    if i < 0 || i >= env.len() {
        None
    } else if env[i].0@ == path {
        Some(env[i].1@)
    } else {
        env_lookup(env, path, i + 1)
    }
}

fn env_find<'a>(env: &'a Vec<(String, Vec<Token>)>, path: &String) -> (r: Option<&'a Vec<Token>>)
    ensures
        match r {
            Some(v) => env_lookup(env@, path@, 0) == Some(v@),
            None => env_lookup(env@, path@, 0) is None,
        },
{
    let mut k: usize = 0;
    while k < env.len()
        invariant
            0 <= k,
            env_lookup(env@, path@, 0) == env_lookup(env@, path@, k as int),
        decreases env.len() - k,
    {
        if env[k].0.eq(path) {
            return Some(&env[k].1);
        }
        k = k + 1;
    }
    None
}

/// A fresh vector holding one statement.
fn one_stmt(a: Ast) -> (r: Vec<Ast>)
    ensures
        view_asts(r@) == seq![view_ast(a)],
{
    let mut v: Vec<Ast> = Vec::new();
    v.push(a);
    proof {
        assert(v@.drop_first() =~= Seq::<Ast>::empty());
        assert(view_asts(v@.drop_first()) =~= Seq::<AstV>::empty());
        assert(view_asts(v@) =~= seq![view_ast(v@[0])]);
    }
    v
}

/// How many positions of a run remain at position `i`.
pub open spec fn rem(len: int, i: int) -> int {
    if i <= len {
        len - i
    } else {
        0
    }
}


/// A variable mutation or a function declaration, distinguished by one
/// token of lookahead after the leading identifier.
pub open spec fn spec_stmt_ident(
    toks: Seq<Token>,
    env: Seq<(String, Vec<Token>)>,
    fuel: nat,
    i: int,
) -> Result<(Seq<AstV>, int), CompileErrorV>
    decreases fuel, toks.len(), rem(toks.len() as int, i), 1int,
    via spec_stmt_ident_dec
{
    if i < 0 || i >= toks.len() {
        Ok((Seq::empty(), i + 1))
    } else {
        match toks[i].kind {
            TokenKind::Ident(name) => {
                let loc = toks[i].sloc();
                if i + 1 >= toks.len() {
                    Err(syn_v(last_loc(toks), Expectation::EqualSign))
                } else if toks[i + 1].is_sym(Symbol::Equal) {
                    if i + 2 >= toks.len() {
                        Err(syn_v(last_loc(toks), Expectation::SemiColon))
                    } else {
                        match find_sym(toks, i + 2, Symbol::SemiColon) {
                            None => Err(syn_v(last_loc(toks), Expectation::SemiColon)),
                            Some(j) => match spec_expr(toks.subrange(i + 2, j), loc) {
                                Err(e) => Err(e),
                                Ok(v) => Ok(
                                    (
                                        seq![AstV::MutateVar { loc, name: name@, value: v }],
                                        j + 1,
                                    ),
                                ),
                            },
                        }
                    }
                } else if i + 2 >= toks.len() {
                    Err(syn_v(last_loc(toks), Expectation::DoubleColon))
                } else if !(toks[i + 1].is_sym(Symbol::Colon) && toks[i + 2].is_sym(
                    Symbol::Colon,
                )) {
                    Err(syn_v(toks[i + 1].sloc(), Expectation::DoubleColon))
                } else if i + 3 >= toks.len() {
                    Err(syn_v(last_loc(toks), Expectation::OpenParen))
                } else if !toks[i + 3].is_sym(Symbol::OpenParen) {
                    Err(syn_v(toks[i + 3].sloc(), Expectation::OpenParen))
                } else {
                    let ploc = toks[i + 3].sloc();
                    if i + 4 >= toks.len() {
                        Err(syn_v(last_loc(toks), Expectation::CloseParen))
                    } else {
                        match find_sym(toks, i + 4, Symbol::CloseParen) {
                            None => Err(syn_v(last_loc(toks), Expectation::CloseParen)),
                            Some(p) => match spec_params_list(toks, i + 4, i + 4, p, ploc) {
                                Err(e) => Err(e),
                                Ok(params) => if p + 2 >= toks.len() {
                                    Err(syn_v(last_loc(toks), Expectation::Arrow))
                                } else if !(toks[p + 1].is_sym(Symbol::Minus) && toks[p
                                    + 2].is_sym(Symbol::BThen)) {
                                    Err(syn_v(toks[p + 1].sloc(), Expectation::Arrow))
                                } else if p + 3 >= toks.len() {
                                    Err(syn_v(last_loc(toks), Expectation::TypeName))
                                } else {
                                    match spec_type_of(toks[p + 3]) {
                                        None => Err(
                                            syn_v(toks[p + 3].sloc(), Expectation::TypeName),
                                        ),
                                        Some(ret) => if p + 4 >= toks.len() {
                                            Err(syn_v(last_loc(toks), Expectation::OpenBrace))
                                        } else if !toks[p + 4].is_sym(Symbol::OpenBrace) {
                                            Err(
                                                syn_v(
                                                    toks[p + 4].sloc(),
                                                    Expectation::OpenBrace,
                                                ),
                                            )
                                        } else if p + 5 >= toks.len() {
                                            Err(syn_v(last_loc(toks), Expectation::CloseBrace))
                                        } else {
                                            match find_block_end(toks, p + 5, 0) {
                                                None => Err(
                                                    syn_v(
                                                        last_loc(toks),
                                                        Expectation::CloseBrace,
                                                    ),
                                                ),
                                                Some(b) => match spec_parse(
                                                    toks.subrange(p + 5, b),
                                                    env,
                                                    fuel,
                                                ) {
                                                    Err(e) => Err(e),
                                                    Ok(body) => Ok(
                                                        (
                                                            seq![
                                                                AstV::Function {
                                                                    loc,
                                                                    name: name@,
                                                                    param_t: params,
                                                                    return_t: ret,
                                                                    body,
                                                                }
                                                            ],
                                                            b + 1,
                                                        ),
                                                    ),
                                                },
                                            }
                                        },
                                    }
                                },
                            },
                        }
                    }
                }
            },
            _ => Ok((Seq::empty(), i + 1)),
        }
    }
}

#[via_fn]
proof fn spec_stmt_ident_dec(
    toks: Seq<Token>,
    env: Seq<(String, Vec<Token>)>,
    fuel: nat,
    i: int,
) {
    if 0 <= i {
        lemma_find_sym(toks, i + 4, Symbol::CloseParen);
        match find_sym(toks, i + 4, Symbol::CloseParen) {
            Some(p) => {
                lemma_find_block_end(toks, p + 5, 0);
            },
            None => {},
        }
    }
}

/// A return statement: `return expr;`.
pub open spec fn spec_stmt_return(toks: Seq<Token>, i: int) -> Result<
    (Seq<AstV>, int),
    CompileErrorV,
> {
    if i < 0 || i >= toks.len() {
        Ok((Seq::empty(), i + 1))
    } else {
        let loc = toks[i].sloc();
        if i + 1 >= toks.len() {
            Err(syn_v(last_loc(toks), Expectation::SemiColon))
        } else {
            let vloc = toks[i + 1].sloc();
            match find_sym(toks, i + 1, Symbol::SemiColon) {
                None => Err(syn_v(last_loc(toks), Expectation::SemiColon)),
                Some(j) => match spec_expr(toks.subrange(i + 1, j), vloc) {
                    Err(e) => Err(e),
                    Ok(v) => Ok((seq![AstV::Return { loc, value: v }], j + 1)),
                },
            }
        }
    }
}

/// A variable declaration: `let name -> type = expr;`.
pub open spec fn spec_stmt_let(toks: Seq<Token>, i: int) -> Result<
    (Seq<AstV>, int),
    CompileErrorV,
> {
    if i < 0 || i >= toks.len() {
        Ok((Seq::empty(), i + 1))
    } else {
        let loc = toks[i].sloc();
        if i + 1 >= toks.len() {
            Err(syn_v(last_loc(toks), Expectation::Identifier))
        } else {
            match toks[i + 1].kind {
                TokenKind::Ident(name) => {
                    if i + 3 >= toks.len() {
                        Err(syn_v(last_loc(toks), Expectation::Arrow))
                    } else if !(toks[i + 2].is_sym(Symbol::Minus) && toks[i + 3].is_sym(
                        Symbol::BThen,
                    )) {
                        Err(syn_v(toks[i + 2].sloc(), Expectation::Arrow))
                    } else if i + 4 >= toks.len() {
                        Err(syn_v(last_loc(toks), Expectation::TypeName))
                    } else {
                        match spec_type_of(toks[i + 4]) {
                            None => Err(syn_v(toks[i + 4].sloc(), Expectation::TypeName)),
                            Some(var_t) => if i + 5 >= toks.len() {
                                Err(syn_v(last_loc(toks), Expectation::EqualSign))
                            } else if !toks[i + 5].is_sym(Symbol::Equal) {
                                Err(syn_v(toks[i + 5].sloc(), Expectation::EqualSign))
                            } else if i + 6 >= toks.len() {
                                Err(syn_v(last_loc(toks), Expectation::SemiColon))
                            } else {
                                let vloc = toks[i + 6].sloc();
                                match find_sym(toks, i + 6, Symbol::SemiColon) {
                                    None => Err(syn_v(last_loc(toks), Expectation::SemiColon)),
                                    Some(j) => match spec_expr(toks.subrange(i + 6, j), vloc) {
                                        Err(e) => Err(e),
                                        Ok(v) => Ok(
                                            (
                                                seq![
                                                    AstV::Variable {
                                                        loc,
                                                        name: name@,
                                                        var_t,
                                                        value: v,
                                                    }
                                                ],
                                                j + 1,
                                            ),
                                        ),
                                    },
                                }
                            },
                        }
                    }
                },
                _ => Err(syn_v(toks[i + 1].sloc(), Expectation::Identifier)),
            }
        }
    }
}

/// An `if` statement, with a plain `else` block or an `else if` chain
/// captured as one run and read again as a nested statement.
pub open spec fn spec_stmt_if(
    toks: Seq<Token>,
    env: Seq<(String, Vec<Token>)>,
    fuel: nat,
    i: int,
) -> Result<(Seq<AstV>, int), CompileErrorV>
    decreases fuel, toks.len(), rem(toks.len() as int, i), 1int,
    via spec_stmt_if_dec
{
    if i < 0 || i >= toks.len() {
        Ok((Seq::empty(), i + 1))
    } else {
        let loc = toks[i].sloc();
        if i + 1 >= toks.len() {
            Err(syn_v(last_loc(toks), Expectation::OpenBrace))
        } else {
            let cloc = toks[i + 1].sloc();
            match find_sym(toks, i + 1, Symbol::OpenBrace) {
                None => Err(syn_v(last_loc(toks), Expectation::OpenBrace)),
                Some(c) => if c + 1 >= toks.len() {
                    Err(syn_v(last_loc(toks), Expectation::CloseBrace))
                } else {
                    match find_block_end(toks, c + 1, 0) {
                        None => Err(syn_v(last_loc(toks), Expectation::CloseBrace)),
                        Some(b) => {
                            let e = b + 1;
                            if e >= toks.len() || !toks[e].is_kw(Keyword::Else) {
                                let nxt = if e >= toks.len() {
                                    toks.len() as int
                                } else {
                                    e
                                };
                                match spec_comparison(toks.subrange(i + 1, c), cloc) {
                                    Err(er) => Err(er),
                                    Ok(cmp) => match spec_parse(
                                        toks.subrange(c + 1, b),
                                        env,
                                        fuel,
                                    ) {
                                        Err(er) => Err(er),
                                        Ok(body) => Ok(
                                            (
                                                seq![
                                                    AstV::If {
                                                        loc,
                                                        comparison: cmp,
                                                        body,
                                                        else_body: Seq::empty(),
                                                    }
                                                ],
                                                nxt,
                                            ),
                                        ),
                                    },
                                }
                            } else if e + 1 >= toks.len() {
                                Err(syn_v(last_loc(toks), Expectation::OpenBrace))
                            } else if toks[e + 1].is_kw(Keyword::If) {
                                if e + 2 >= toks.len() {
                                    Err(syn_v(last_loc(toks), Expectation::Comparison))
                                } else {
                                    let cut = chain_cut(toks, e + 2, 0);
                                    match spec_comparison(toks.subrange(i + 1, c), cloc) {
                                        Err(er) => Err(er),
                                        Ok(cmp) => match spec_parse(
                                            toks.subrange(c + 1, b),
                                            env,
                                            fuel,
                                        ) {
                                            Err(er) => Err(er),
                                            Ok(body) => match spec_parse(
                                                toks.subrange(e + 1, cut),
                                                env,
                                                fuel,
                                            ) {
                                                Err(er) => Err(er),
                                                Ok(els) => Ok(
                                                    (
                                                        seq![
                                                            AstV::If {
                                                                loc,
                                                                comparison: cmp,
                                                                body,
                                                                else_body: els,
                                                            }
                                                        ],
                                                        cut,
                                                    ),
                                                ),
                                            },
                                        },
                                    }
                                }
                            } else if e + 2 >= toks.len() {
                                Err(syn_v(last_loc(toks), Expectation::CloseBrace))
                            } else {
                                match find_block_end(toks, e + 2, 0) {
                                    None => Err(syn_v(last_loc(toks), Expectation::CloseBrace)),
                                    Some(be) => match spec_comparison(
                                        toks.subrange(i + 1, c),
                                        cloc,
                                    ) {
                                        Err(er) => Err(er),
                                        Ok(cmp) => match spec_parse(
                                            toks.subrange(c + 1, b),
                                            env,
                                            fuel,
                                        ) {
                                            Err(er) => Err(er),
                                            Ok(body) => match spec_parse(
                                                toks.subrange(e + 2, be),
                                                env,
                                                fuel,
                                            ) {
                                                Err(er) => Err(er),
                                                Ok(els) => Ok(
                                                    (
                                                        seq![
                                                            AstV::If {
                                                                loc,
                                                                comparison: cmp,
                                                                body,
                                                                else_body: els,
                                                            }
                                                        ],
                                                        be + 1,
                                                    ),
                                                ),
                                            },
                                        },
                                    },
                                }
                            }
                        },
                    }
                },
            }
        }
    }
}

#[via_fn]
proof fn spec_stmt_if_dec(
    toks: Seq<Token>,
    env: Seq<(String, Vec<Token>)>,
    fuel: nat,
    i: int,
) {
    if 0 <= i {
        lemma_find_sym(toks, i + 1, Symbol::OpenBrace);
        match find_sym(toks, i + 1, Symbol::OpenBrace) {
            Some(c) => {
                lemma_find_block_end(toks, c + 1, 0);
                match find_block_end(toks, c + 1, 0) {
                    Some(b) => {
                        lemma_chain_cut(toks, b + 3, 0);
                        lemma_find_block_end(toks, b + 3, 0);
                    },
                    None => {},
                }
            },
            None => {},
        }
    }
}

/// A `while` statement.
pub open spec fn spec_stmt_while(
    toks: Seq<Token>,
    env: Seq<(String, Vec<Token>)>,
    fuel: nat,
    i: int,
) -> Result<(Seq<AstV>, int), CompileErrorV>
    decreases fuel, toks.len(), rem(toks.len() as int, i), 1int,
    via spec_stmt_while_dec
{
    if i < 0 || i >= toks.len() {
        Ok((Seq::empty(), i + 1))
    } else {
        let loc = toks[i].sloc();
        if i + 1 >= toks.len() {
            Err(syn_v(last_loc(toks), Expectation::OpenBrace))
        } else {
            let cloc = toks[i + 1].sloc();
            match find_sym(toks, i + 1, Symbol::OpenBrace) {
                None => Err(syn_v(last_loc(toks), Expectation::OpenBrace)),
                Some(c) => if c + 1 >= toks.len() {
                    Err(syn_v(last_loc(toks), Expectation::CloseBrace))
                } else {
                    match find_block_end(toks, c + 1, 0) {
                        None => Err(syn_v(last_loc(toks), Expectation::CloseBrace)),
                        Some(b) => match spec_comparison(toks.subrange(i + 1, c), cloc) {
                            Err(er) => Err(er),
                            Ok(cmp) => match spec_parse(toks.subrange(c + 1, b), env, fuel) {
                                Err(er) => Err(er),
                                Ok(body) => Ok(
                                    (
                                        seq![AstV::While { loc, comparison: cmp, body }],
                                        b + 1,
                                    ),
                                ),
                            },
                        },
                    }
                },
            }
        }
    }
}

#[via_fn]
proof fn spec_stmt_while_dec(
    toks: Seq<Token>,
    env: Seq<(String, Vec<Token>)>,
    fuel: nat,
    i: int,
) {
    if 0 <= i {
        lemma_find_sym(toks, i + 1, Symbol::OpenBrace);
        match find_sym(toks, i + 1, Symbol::OpenBrace) {
            Some(c) => {
                lemma_find_block_end(toks, c + 1, 0);
            },
            None => {},
        }
    }
}

/// A pointer mutation: `type[ptrExpr] = expr;`.
pub open spec fn spec_stmt_ptr(toks: Seq<Token>, i: int) -> Result<
    (Seq<AstV>, int),
    CompileErrorV,
> {
    if i < 0 || i >= toks.len() || !(spec_type_of(toks[i]) is Some) {
        Ok((Seq::empty(), i + 1))
    } else {
        let loc = toks[i].sloc();
        let pt = spec_type_of(toks[i]).unwrap();
        if i + 1 >= toks.len() {
            Err(syn_v(last_loc(toks), Expectation::OpenBracket))
        } else if !toks[i + 1].is_sym(Symbol::OpenBracket) {
            Err(syn_v(loc, Expectation::OpenBracket))
        } else if i + 2 >= toks.len() {
            Err(syn_v(last_loc(toks), Expectation::ValueTokens))
        } else {
            match find_sym(toks, i + 2, Symbol::CloseBracket) {
                None => Err(syn_v(last_loc(toks), Expectation::CloseBracket)),
                Some(j) => if j + 1 >= toks.len() {
                    Err(syn_v(last_loc(toks), Expectation::EqualSign))
                } else if !toks[j + 1].is_sym(Symbol::Equal) {
                    Err(syn_v(loc, Expectation::EqualSign))
                } else if j + 2 >= toks.len() {
                    Err(syn_v(last_loc(toks), Expectation::ValueTokens))
                } else {
                    match find_sym(toks, j + 2, Symbol::SemiColon) {
                        None => Err(syn_v(last_loc(toks), Expectation::SemiColon)),
                        Some(m) => match spec_expr(toks.subrange(i + 2, j), loc) {
                            Err(e) => Err(e),
                            Ok(pv) => match spec_expr(toks.subrange(j + 2, m), loc) {
                                Err(e) => Err(e),
                                Ok(nv) => Ok(
                                    (
                                        seq![
                                            AstV::MutatePtr {
                                                loc,
                                                ptr_type: pt,
                                                ptr: pv,
                                                value: nv,
                                            }
                                        ],
                                        m + 1,
                                    ),
                                ),
                            },
                        },
                    }
                },
            }
        }
    }
}

/// A textual inclusion: the named file's pre-lexed token stream is read
/// as a statement sequence and spliced in place, consuming one unit of
/// the nesting budget.
pub open spec fn spec_stmt_inclusion(
    toks: Seq<Token>,
    env: Seq<(String, Vec<Token>)>,
    fuel: nat,
    i: int,
) -> Result<(Seq<AstV>, int), CompileErrorV>
    decreases fuel, toks.len(), rem(toks.len() as int, i), 1int,
{
    if i < 0 || i >= toks.len() {
        Ok((Seq::empty(), i + 1))
    } else {
        let loc = toks[i].sloc();
        if i + 1 >= toks.len() {
            Err(syn_v(last_loc(toks), Expectation::StringSection))
        } else {
            match toks[i + 1].kind {
                TokenKind::Section(k, path) => if k == SectionKind::Str {
                    match env_lookup(env, path@, 0) {
                        None => Err(
                            CompileErrorV::Syntax {
                                loc,
                                kind: SyntaxKindV::MissingSource(path@),
                            },
                        ),
                        Some(sub) => if fuel == 0 {
                            Err(CompileErrorV::Syntax { loc, kind: SyntaxKindV::NestingTooDeep })
                        } else {
                            match spec_parse(sub, env, (fuel - 1) as nat) {
                                Err(e) => Err(e),
                                Ok(ss) => Ok((ss, i + 2)),
                            }
                        },
                    }
                } else {
                    Err(syn_v(loc, Expectation::StringSection))
                },
                _ => Err(syn_v(loc, Expectation::StringSection)),
            }
        }
    }
}

/// An inline escape: `asm("text");`, kept verbatim.
pub open spec fn spec_stmt_verbatim(toks: Seq<Token>, i: int) -> Result<
    (Seq<AstV>, int),
    CompileErrorV,
> {
    if i < 0 || i >= toks.len() {
        Ok((Seq::empty(), i + 1))
    } else {
        let loc = toks[i].sloc();
        if i + 1 >= toks.len() {
            Err(syn_v(last_loc(toks), Expectation::OpenParen))
        } else if !toks[i + 1].is_sym(Symbol::OpenParen) {
            Err(syn_v(loc, Expectation::OpenParen))
        } else if i + 2 >= toks.len() {
            Err(syn_v(last_loc(toks), Expectation::CloseParen))
        } else {
            match toks[i + 2].kind {
                TokenKind::Section(k, text) => if k == SectionKind::Str {
                    if i + 3 >= toks.len() {
                        Err(syn_v(last_loc(toks), Expectation::CloseParen))
                    } else if i + 4 >= toks.len() {
                        Err(syn_v(last_loc(toks), Expectation::SemiColon))
                    } else if !(toks[i + 3].is_sym(Symbol::CloseParen) && toks[i + 4].is_sym(
                        Symbol::SemiColon,
                    )) {
                        Err(syn_v(toks[i + 3].sloc(), Expectation::CallEnd))
                    } else {
                        Ok((seq![AstV::InlineAsm { loc, text: text@ }], i + 5))
                    }
                } else {
                    Err(syn_v(loc, Expectation::StringSection))
                },
                _ => Err(syn_v(loc, Expectation::StringSection)),
            }
        }
    }
}

/// One statement step at position `i`: the statements it yields and the
/// position of the next step.  Unrecognized tokens are skipped.
pub open spec fn spec_stmt(
    toks: Seq<Token>,
    env: Seq<(String, Vec<Token>)>,
    fuel: nat,
    i: int,
) -> Result<(Seq<AstV>, int), CompileErrorV>
    decreases fuel, toks.len(), rem(toks.len() as int, i), 2int,
{
    if i < 0 || i >= toks.len() {
        Ok((Seq::empty(), i + 1))
    } else {
        let t = toks[i];
        if t.kind is Ident {
            spec_stmt_ident(toks, env, fuel, i)
        } else if t.is_kw(Keyword::Return) {
            spec_stmt_return(toks, i)
        } else if t.is_kw(Keyword::Let) {
            spec_stmt_let(toks, i)
        } else if t.is_kw(Keyword::If) {
            spec_stmt_if(toks, env, fuel, i)
        } else if t.is_kw(Keyword::While) {
            spec_stmt_while(toks, env, fuel, i)
        } else if spec_type_of(t) is Some {
            spec_stmt_ptr(toks, i)
        } else if t.is_kw(Keyword::Include) {
            spec_stmt_inclusion(toks, env, fuel, i)
        } else if t.is_kw(Keyword::Asm) {
            spec_stmt_verbatim(toks, i)
        } else {
            Ok((Seq::empty(), i + 1))
        }
    }
}

/// The statement sequence read from position `i` to the end of the run.
pub open spec fn spec_parse_at(
    toks: Seq<Token>,
    env: Seq<(String, Vec<Token>)>,
    fuel: nat,
    i: int,
) -> Result<Seq<AstV>, CompileErrorV>
    decreases fuel, toks.len(), rem(toks.len() as int, i), 3int,
{
    if i < 0 || i >= toks.len() {
        Ok(Seq::empty())
    } else {
        match spec_stmt(toks, env, fuel, i) {
            Err(e) => Err(e),
            Ok((ss, j)) => if j <= i {
                Ok(ss)
            } else {
                match spec_parse_at(toks, env, fuel, j) {
                    Err(e) => Err(e),
                    Ok(rest) => Ok(ss + rest),
                }
            },
        }
    }
}

/// The statement sequence of a whole token run.
pub open spec fn spec_parse(
    toks: Seq<Token>,
    env: Seq<(String, Vec<Token>)>,
    fuel: nat,
) -> Result<Seq<AstV>, CompileErrorV>
    decreases fuel, toks.len(), toks.len() as int + 1, 0int,
{
    spec_parse_at(toks, env, fuel, 0)
}


fn parse_stmt_ident(
    tokens: &Vec<Token>,
    sources: &Vec<(String, Vec<Token>)>,
    fuel: usize,
    i: usize,
) -> (r: Result<(Vec<Ast>, usize), CompileError>)
    requires
        i < tokens.len(),
        tokens@[i as int].kind is Ident,
    ensures
        res_stmt(r) == spec_stmt_ident(tokens@, sources@, fuel as nat, i as int),
    decreases fuel, tokens@.len(), rem(tokens@.len() as int, i as int), 1int,
{
    let name = match &tokens[i].kind {
        TokenKind::Ident(s) => s.clone(),
        _ => {
            proof {
                assert(false);
            }
            return Err(CompileError::Internal { loc: (0, 0) });
        },
    };
    let loc = tokens[i].loc();
    if tokens.len() - i <= 1 {
        return Err(syn_e(last_loc_of(tokens), Expectation::EqualSign));
    }
    if tokens[i + 1].is_symbol(Symbol::Equal) {
        if tokens.len() - i <= 2 {
            return Err(syn_e(last_loc_of(tokens), Expectation::SemiColon));
        }
        let j = match find_sym_from(tokens, i + 2, Symbol::SemiColon) {
            None => {
                return Err(syn_e(last_loc_of(tokens), Expectation::SemiColon));
            },
            Some(j) => j,
        };
        proof {
            lemma_find_sym(tokens@, i as int + 2, Symbol::SemiColon);
        }
        let vtoks = copy_range(tokens, i + 2, j);
        let v = match expr(&vtoks, loc) {
            Ok(v) => v,
            Err(e) => {
                return Err(e);
            },
        };
        Ok((one_stmt(Ast::MutateVar { loc, name, value: v }), j + 1))
    } else if tokens.len() - i <= 2 {
        Err(syn_e(last_loc_of(tokens), Expectation::DoubleColon))
    } else if !(tokens[i + 1].is_symbol(Symbol::Colon) && tokens[i + 2].is_symbol(Symbol::Colon)) {
        Err(syn_e(tokens[i + 1].loc(), Expectation::DoubleColon))
    } else if tokens.len() - i <= 3 {
        Err(syn_e(last_loc_of(tokens), Expectation::OpenParen))
    } else if !tokens[i + 3].is_symbol(Symbol::OpenParen) {
        Err(syn_e(tokens[i + 3].loc(), Expectation::OpenParen))
    } else {
        let ploc = tokens[i + 3].loc();
        if tokens.len() - i <= 4 {
            return Err(syn_e(last_loc_of(tokens), Expectation::CloseParen));
        }
        let p = match find_sym_from(tokens, i + 4, Symbol::CloseParen) {
            None => {
                return Err(syn_e(last_loc_of(tokens), Expectation::CloseParen));
            },
            Some(p) => p,
        };
        proof {
            lemma_find_sym(tokens@, i as int + 4, Symbol::CloseParen);
        }
        let params = match params_list(tokens, i + 4, i + 4, p, ploc) {
            Ok(ps) => ps,
            Err(e) => {
                return Err(e);
            },
        };
        if tokens.len() - p <= 2 {
            return Err(syn_e(last_loc_of(tokens), Expectation::Arrow));
        }
        if !(tokens[p + 1].is_symbol(Symbol::Minus) && tokens[p + 2].is_symbol(Symbol::BThen)) {
            return Err(syn_e(tokens[p + 1].loc(), Expectation::Arrow));
        }
        if tokens.len() - p <= 3 {
            return Err(syn_e(last_loc_of(tokens), Expectation::TypeName));
        }
        let ret = match type_of(&tokens[p + 3]) {
            None => {
                return Err(syn_e(tokens[p + 3].loc(), Expectation::TypeName));
            },
            Some(t) => t,
        };
        if tokens.len() - p <= 4 {
            return Err(syn_e(last_loc_of(tokens), Expectation::OpenBrace));
        }
        if !tokens[p + 4].is_symbol(Symbol::OpenBrace) {
            return Err(syn_e(tokens[p + 4].loc(), Expectation::OpenBrace));
        }
        if tokens.len() - p <= 5 {
            return Err(syn_e(last_loc_of(tokens), Expectation::CloseBrace));
        }
        let b = match find_block_end_from(tokens, p + 5) {
            None => {
                return Err(syn_e(last_loc_of(tokens), Expectation::CloseBrace));
            },
            Some(b) => b,
        };
        proof {
            lemma_find_block_end(tokens@, p as int + 5, 0);
        }
        let body_toks = copy_range(tokens, p + 5, b);
        let body = match parse_at(&body_toks, sources, fuel, 0) {
            Ok(bd) => bd,
            Err(e) => {
                return Err(e);
            },
        };
        Ok(
            (
                one_stmt(
                    Ast::Function { loc, name, param_t: params, return_t: ret, body },
                ),
                b + 1,
            ),
        )
    }
}

fn parse_stmt_return(tokens: &Vec<Token>, i: usize) -> (r: Result<
    (Vec<Ast>, usize),
    CompileError,
>)
    requires
        i < tokens.len(),
    ensures
        res_stmt(r) == spec_stmt_return(tokens@, i as int),
{
    let loc = tokens[i].loc();
    if tokens.len() - i <= 1 {
        return Err(syn_e(last_loc_of(tokens), Expectation::SemiColon));
    }
    let vloc = tokens[i + 1].loc();
    let j = match find_sym_from(tokens, i + 1, Symbol::SemiColon) {
        None => {
            return Err(syn_e(last_loc_of(tokens), Expectation::SemiColon));
        },
        Some(j) => j,
    };
    proof {
        lemma_find_sym(tokens@, i as int + 1, Symbol::SemiColon);
    }
    let vtoks = copy_range(tokens, i + 1, j);
    let v = match expr(&vtoks, vloc) {
        Ok(v) => v,
        Err(e) => {
            return Err(e);
        },
    };
    Ok((one_stmt(Ast::Return { loc, value: v }), j + 1))
}

fn parse_stmt_let(tokens: &Vec<Token>, i: usize) -> (r: Result<(Vec<Ast>, usize), CompileError>)
    requires
        i < tokens.len(),
    ensures
        res_stmt(r) == spec_stmt_let(tokens@, i as int),
{
    let loc = tokens[i].loc();
    if tokens.len() - i <= 1 {
        return Err(syn_e(last_loc_of(tokens), Expectation::Identifier));
    }
    let name = match &tokens[i + 1].kind {
        TokenKind::Ident(s) => s.clone(),
        _ => {
            return Err(syn_e(tokens[i + 1].loc(), Expectation::Identifier));
        },
    };
    if tokens.len() - i <= 3 {
        return Err(syn_e(last_loc_of(tokens), Expectation::Arrow));
    }
    if !(tokens[i + 2].is_symbol(Symbol::Minus) && tokens[i + 3].is_symbol(Symbol::BThen)) {
        return Err(syn_e(tokens[i + 2].loc(), Expectation::Arrow));
    }
    if tokens.len() - i <= 4 {
        return Err(syn_e(last_loc_of(tokens), Expectation::TypeName));
    }
    let var_t = match type_of(&tokens[i + 4]) {
        None => {
            return Err(syn_e(tokens[i + 4].loc(), Expectation::TypeName));
        },
        Some(t) => t,
    };
    if tokens.len() - i <= 5 {
        return Err(syn_e(last_loc_of(tokens), Expectation::EqualSign));
    }
    if !tokens[i + 5].is_symbol(Symbol::Equal) {
        return Err(syn_e(tokens[i + 5].loc(), Expectation::EqualSign));
    }
    if tokens.len() - i <= 6 {
        return Err(syn_e(last_loc_of(tokens), Expectation::SemiColon));
    }
    let vloc = tokens[i + 6].loc();
    let j = match find_sym_from(tokens, i + 6, Symbol::SemiColon) {
        None => {
            return Err(syn_e(last_loc_of(tokens), Expectation::SemiColon));
        },
        Some(j) => j,
    };
    proof {
        lemma_find_sym(tokens@, i as int + 6, Symbol::SemiColon);
    }
    let vtoks = copy_range(tokens, i + 6, j);
    let v = match expr(&vtoks, vloc) {
        Ok(v) => v,
        Err(e) => {
            return Err(e);
        },
    };
    Ok((one_stmt(Ast::Variable { loc, name, var_t, value: v }), j + 1))
}

fn parse_stmt_if(
    tokens: &Vec<Token>,
    sources: &Vec<(String, Vec<Token>)>,
    fuel: usize,
    i: usize,
) -> (r: Result<(Vec<Ast>, usize), CompileError>)
    requires
        i < tokens.len(),
    ensures
        res_stmt(r) == spec_stmt_if(tokens@, sources@, fuel as nat, i as int),
    decreases fuel, tokens@.len(), rem(tokens@.len() as int, i as int), 1int,
{
    let loc = tokens[i].loc();
    if tokens.len() - i <= 1 {
        return Err(syn_e(last_loc_of(tokens), Expectation::OpenBrace));
    }
    let cloc = tokens[i + 1].loc();
    let c = match find_sym_from(tokens, i + 1, Symbol::OpenBrace) {
        None => {
            return Err(syn_e(last_loc_of(tokens), Expectation::OpenBrace));
        },
        Some(c) => c,
    };
    proof {
        lemma_find_sym(tokens@, i as int + 1, Symbol::OpenBrace);
    }
    if tokens.len() - c <= 1 {
        return Err(syn_e(last_loc_of(tokens), Expectation::CloseBrace));
    }
    let b = match find_block_end_from(tokens, c + 1) {
        None => {
            return Err(syn_e(last_loc_of(tokens), Expectation::CloseBrace));
        },
        Some(b) => b,
    };
    proof {
        lemma_find_block_end(tokens@, c as int + 1, 0);
    }
    let e = b + 1;
    if e >= tokens.len() || !tokens[e].is_keyword(Keyword::Else) {
        let nxt = if e >= tokens.len() {
            tokens.len()
        } else {
            e
        };
        let cmp_toks = copy_range(tokens, i + 1, c);
        let cmp = match parse_comparison(&cmp_toks, cloc) {
            Ok(cm) => cm,
            Err(er) => {
                return Err(er);
            },
        };
        let body_toks = copy_range(tokens, c + 1, b);
        let body = match parse_at(&body_toks, sources, fuel, 0) {
            Ok(bd) => bd,
            Err(er) => {
                return Err(er);
            },
        };
        proof {
            assert(view_asts(Seq::<Ast>::empty()) =~= Seq::<AstV>::empty());
        }
        Ok(
            (
                one_stmt(
                    Ast::If { loc, comparison: cmp, body, else_body: Vec::new() },
                ),
                nxt,
            ),
        )
    } else if tokens.len() - e <= 1 {
        Err(syn_e(last_loc_of(tokens), Expectation::OpenBrace))
    } else if tokens[e + 1].is_keyword(Keyword::If) {
        if tokens.len() - e <= 2 {
            return Err(syn_e(last_loc_of(tokens), Expectation::Comparison));
        }
        let cut = chain_cut_from(tokens, e + 2);
        let cmp_toks = copy_range(tokens, i + 1, c);
        let cmp = match parse_comparison(&cmp_toks, cloc) {
            Ok(cm) => cm,
            Err(er) => {
                return Err(er);
            },
        };
        let body_toks = copy_range(tokens, c + 1, b);
        let body = match parse_at(&body_toks, sources, fuel, 0) {
            Ok(bd) => bd,
            Err(er) => {
                return Err(er);
            },
        };
        let else_toks = copy_range(tokens, e + 1, cut);
        let els = match parse_at(&else_toks, sources, fuel, 0) {
            Ok(es) => es,
            Err(er) => {
                return Err(er);
            },
        };
        Ok((one_stmt(Ast::If { loc, comparison: cmp, body, else_body: els }), cut))
    } else if tokens.len() - e <= 2 {
        Err(syn_e(last_loc_of(tokens), Expectation::CloseBrace))
    } else {
        let be = match find_block_end_from(tokens, e + 2) {
            None => {
                return Err(syn_e(last_loc_of(tokens), Expectation::CloseBrace));
            },
            Some(be) => be,
        };
        proof {
            lemma_find_block_end(tokens@, e as int + 2, 0);
        }
        let cmp_toks = copy_range(tokens, i + 1, c);
        let cmp = match parse_comparison(&cmp_toks, cloc) {
            Ok(cm) => cm,
            Err(er) => {
                return Err(er);
            },
        };
        let body_toks = copy_range(tokens, c + 1, b);
        let body = match parse_at(&body_toks, sources, fuel, 0) {
            Ok(bd) => bd,
            Err(er) => {
                return Err(er);
            },
        };
        let else_toks = copy_range(tokens, e + 2, be);
        let els = match parse_at(&else_toks, sources, fuel, 0) {
            Ok(es) => es,
            Err(er) => {
                return Err(er);
            },
        };
        Ok((one_stmt(Ast::If { loc, comparison: cmp, body, else_body: els }), be + 1))
    }
}

fn parse_stmt_while(
    tokens: &Vec<Token>,
    sources: &Vec<(String, Vec<Token>)>,
    fuel: usize,
    i: usize,
) -> (r: Result<(Vec<Ast>, usize), CompileError>)
    requires
        i < tokens.len(),
    ensures
        res_stmt(r) == spec_stmt_while(tokens@, sources@, fuel as nat, i as int),
    decreases fuel, tokens@.len(), rem(tokens@.len() as int, i as int), 1int,
{
    let loc = tokens[i].loc();
    if tokens.len() - i <= 1 {
        return Err(syn_e(last_loc_of(tokens), Expectation::OpenBrace));
    }
    let cloc = tokens[i + 1].loc();
    let c = match find_sym_from(tokens, i + 1, Symbol::OpenBrace) {
        None => {
            return Err(syn_e(last_loc_of(tokens), Expectation::OpenBrace));
        },
        Some(c) => c,
    };
    proof {
        lemma_find_sym(tokens@, i as int + 1, Symbol::OpenBrace);
    }
    if tokens.len() - c <= 1 {
        return Err(syn_e(last_loc_of(tokens), Expectation::CloseBrace));
    }
    let b = match find_block_end_from(tokens, c + 1) {
        None => {
            return Err(syn_e(last_loc_of(tokens), Expectation::CloseBrace));
        },
        Some(b) => b,
    };
    proof {
        lemma_find_block_end(tokens@, c as int + 1, 0);
    }
    let cmp_toks = copy_range(tokens, i + 1, c);
    let cmp = match parse_comparison(&cmp_toks, cloc) {
        Ok(cm) => cm,
        Err(er) => {
            return Err(er);
        },
    };
    let body_toks = copy_range(tokens, c + 1, b);
    let body = match parse_at(&body_toks, sources, fuel, 0) {
        Ok(bd) => bd,
        Err(er) => {
            return Err(er);
        },
    };
    Ok((one_stmt(Ast::While { loc, comparison: cmp, body }), b + 1))
}

fn parse_stmt_ptr(tokens: &Vec<Token>, i: usize) -> (r: Result<(Vec<Ast>, usize), CompileError>)
    requires
        i < tokens.len(),
        spec_type_of(tokens@[i as int]) is Some,
    ensures
        res_stmt(r) == spec_stmt_ptr(tokens@, i as int),
{
    let loc = tokens[i].loc();
    let pt = match type_of(&tokens[i]) {
        Some(t) => t,
        None => {
            proof {
                assert(false);
            }
            return Err(CompileError::Internal { loc });
        },
    };
    if tokens.len() - i <= 1 {
        return Err(syn_e(last_loc_of(tokens), Expectation::OpenBracket));
    }
    if !tokens[i + 1].is_symbol(Symbol::OpenBracket) {
        return Err(syn_e(loc, Expectation::OpenBracket));
    }
    if tokens.len() - i <= 2 {
        return Err(syn_e(last_loc_of(tokens), Expectation::ValueTokens));
    }
    let j = match find_sym_from(tokens, i + 2, Symbol::CloseBracket) {
        None => {
            return Err(syn_e(last_loc_of(tokens), Expectation::CloseBracket));
        },
        Some(j) => j,
    };
    proof {
        lemma_find_sym(tokens@, i as int + 2, Symbol::CloseBracket);
    }
    if tokens.len() - j <= 1 {
        return Err(syn_e(last_loc_of(tokens), Expectation::EqualSign));
    }
    if !tokens[j + 1].is_symbol(Symbol::Equal) {
        return Err(syn_e(loc, Expectation::EqualSign));
    }
    if tokens.len() - j <= 2 {
        return Err(syn_e(last_loc_of(tokens), Expectation::ValueTokens));
    }
    let m = match find_sym_from(tokens, j + 2, Symbol::SemiColon) {
        None => {
            return Err(syn_e(last_loc_of(tokens), Expectation::SemiColon));
        },
        Some(m) => m,
    };
    proof {
        lemma_find_sym(tokens@, j as int + 2, Symbol::SemiColon);
    }
    let ptoks = copy_range(tokens, i + 2, j);
    let pv = match expr(&ptoks, loc) {
        Ok(v) => v,
        Err(e) => {
            return Err(e);
        },
    };
    let vtoks = copy_range(tokens, j + 2, m);
    let nv = match expr(&vtoks, loc) {
        Ok(v) => v,
        Err(e) => {
            return Err(e);
        },
    };
    Ok((one_stmt(Ast::MutatePtr { loc, ptr_type: pt, ptr: pv, value: nv }), m + 1))
}

fn parse_stmt_inclusion(
    tokens: &Vec<Token>,
    sources: &Vec<(String, Vec<Token>)>,
    fuel: usize,
    i: usize,
) -> (r: Result<(Vec<Ast>, usize), CompileError>)
    requires
        i < tokens.len(),
    ensures
        res_stmt(r) == spec_stmt_inclusion(tokens@, sources@, fuel as nat, i as int),
    decreases fuel, tokens@.len(), rem(tokens@.len() as int, i as int), 1int,
{
    let loc = tokens[i].loc();
    if tokens.len() - i <= 1 {
        return Err(syn_e(last_loc_of(tokens), Expectation::StringSection));
    }
    let path = match &tokens[i + 1].kind {
        TokenKind::Section(k, p) => {
            if *k == SectionKind::Str {
                p.clone()
            } else {
                return Err(syn_e(loc, Expectation::StringSection));
            }
        },
        _ => {
            return Err(syn_e(loc, Expectation::StringSection));
        },
    };
    let sub = match env_find(sources, &path) {
        None => {
            return Err(CompileError::Syntax { loc, kind: SyntaxKind::MissingSource(path) });
        },
        Some(sub) => sub,
    };
    if fuel == 0 {
        return Err(CompileError::Syntax { loc, kind: SyntaxKind::NestingTooDeep });
    }
    let ss = match parse_at(sub, sources, fuel - 1, 0) {
        Ok(ss) => ss,
        Err(e) => {
            return Err(e);
        },
    };
    Ok((ss, i + 2))
}

fn parse_stmt_verbatim(tokens: &Vec<Token>, i: usize) -> (r: Result<
    (Vec<Ast>, usize),
    CompileError,
>)
    requires
        i < tokens.len(),
    ensures
        res_stmt(r) == spec_stmt_verbatim(tokens@, i as int),
{
    let loc = tokens[i].loc();
    if tokens.len() - i <= 1 {
        return Err(syn_e(last_loc_of(tokens), Expectation::OpenParen));
    }
    if !tokens[i + 1].is_symbol(Symbol::OpenParen) {
        return Err(syn_e(loc, Expectation::OpenParen));
    }
    if tokens.len() - i <= 2 {
        return Err(syn_e(last_loc_of(tokens), Expectation::CloseParen));
    }
    let text = match &tokens[i + 2].kind {
        TokenKind::Section(k, t) => {
            if *k == SectionKind::Str {
                t.clone()
            } else {
                return Err(syn_e(loc, Expectation::StringSection));
            }
        },
        _ => {
            return Err(syn_e(loc, Expectation::StringSection));
        },
    };
    if tokens.len() - i <= 3 {
        return Err(syn_e(last_loc_of(tokens), Expectation::CloseParen));
    }
    if tokens.len() - i <= 4 {
        return Err(syn_e(last_loc_of(tokens), Expectation::SemiColon));
    }
    if !(tokens[i + 3].is_symbol(Symbol::CloseParen) && tokens[i + 4].is_symbol(
        Symbol::SemiColon,
    )) {
        return Err(syn_e(tokens[i + 3].loc(), Expectation::CallEnd));
    }
    Ok((one_stmt(Ast::InlineAsm { loc, text }), i + 5))
}

fn parse_stmt(
    tokens: &Vec<Token>,
    sources: &Vec<(String, Vec<Token>)>,
    fuel: usize,
    i: usize,
) -> (r: Result<(Vec<Ast>, usize), CompileError>)
    requires
        i < tokens.len(),
    ensures
        res_stmt(r) == spec_stmt(tokens@, sources@, fuel as nat, i as int),
    decreases fuel, tokens@.len(), rem(tokens@.len() as int, i as int), 2int,
{
    let is_ident = matches!(&tokens[i].kind, TokenKind::Ident(_));
    if is_ident {
        parse_stmt_ident(tokens, sources, fuel, i)
    } else if tokens[i].is_keyword(Keyword::Return) {
        parse_stmt_return(tokens, i)
    } else if tokens[i].is_keyword(Keyword::Let) {
        parse_stmt_let(tokens, i)
    } else if tokens[i].is_keyword(Keyword::If) {
        parse_stmt_if(tokens, sources, fuel, i)
    } else if tokens[i].is_keyword(Keyword::While) {
        parse_stmt_while(tokens, sources, fuel, i)
    } else if type_of(&tokens[i]).is_some() {
        parse_stmt_ptr(tokens, i)
    } else if tokens[i].is_keyword(Keyword::Include) {
        parse_stmt_inclusion(tokens, sources, fuel, i)
    } else if tokens[i].is_keyword(Keyword::Asm) {
        parse_stmt_verbatim(tokens, i)
    } else {
        proof {
            assert(view_asts(Seq::<Ast>::empty()) =~= Seq::<AstV>::empty());
        }
        Ok((Vec::new(), i + 1))
    }
}

fn parse_at(
    tokens: &Vec<Token>,
    sources: &Vec<(String, Vec<Token>)>,
    fuel: usize,
    i: usize,
) -> (r: Result<Vec<Ast>, CompileError>)
    ensures
        res_asts(r) == spec_parse_at(tokens@, sources@, fuel as nat, i as int),
    decreases fuel, tokens@.len(), rem(tokens@.len() as int, i as int), 3int,
{
    if i >= tokens.len() {
        proof {
            assert(view_asts(Seq::<Ast>::empty()) =~= Seq::<AstV>::empty());
        }
        return Ok(Vec::new());
    }
    let (mut ss, j) = match parse_stmt(tokens, sources, fuel, i) {
        Ok(p) => p,
        Err(e) => {
            return Err(e);
        },
    };
    if j <= i {
        return Ok(ss);
    }
    let mut rest = match parse_at(tokens, sources, fuel, j) {
        Ok(rs) => rs,
        Err(e) => {
            return Err(e);
        },
    };
    let ghost s0 = ss@;
    let ghost r0 = rest@;
    ss.append(&mut rest);
    proof {
        assert(ss@ =~= s0 + r0);
        lemma_view_asts_concat(s0, r0);
    }
    Ok(ss)
}

impl Ast {
    /// Builds the statement tree of a compilation unit from its token
    /// run.  `sources` supplies pre-lexed token streams for textual
    /// inclusion, looked up by path; `depth` bounds how deeply
    /// inclusions may nest, so a cyclic inclusion is reported instead of
    /// followed forever.  Computes exactly what [`spec_parse`] states.
    pub fn parse(
        tokens: &Vec<Token>,
        sources: &Vec<(String, Vec<Token>)>,
        depth: usize,
    ) -> (r: Result<Vec<Ast>, CompileError>)
        ensures
            res_asts(r) == spec_parse(tokens@, sources@, depth as nat),
    {
        parse_at(tokens, sources, depth, 0)
    }
}

} // verus!
