//! The statement and expression trees, the type enumeration, and their
//! mathematical views.
//!
//! The executable trees carry `String` names and `Vec` bodies; the ghost
//! views mirror them over `Seq<char>` and `Seq`, and every contract of the
//! tree builder, the type checker and the code generator speaks over the
//! views.

use vstd::prelude::*;
use crate::strutil::str_eq;

verus! {

/// The closed type enumeration of the language.
#[derive(Clone, Copy, PartialEq, Eq, Structural, Debug)]
pub enum Type {
    Int,
    Ptr,
    Void,
}

/// The storage size of a type in bytes: integers and pointers take one
/// 8-byte stack slot, void takes none.
pub open spec fn spec_size(t: Type) -> usize {
    match t {
        Type::Int => 8usize,
        Type::Ptr => 8usize,
        Type::Void => 0usize,
    }
}

impl Type {
    pub fn size(&self) -> (r: usize)
        ensures
            r == spec_size(*self),
    {
        match self {
            Type::Int | Type::Ptr => 8,
            Type::Void => 0,
        }
    }
}

/// The four arithmetic operators of binary expressions.
#[derive(Clone, Copy, PartialEq, Eq, Structural, Debug)]
pub enum Operator {
    Plus,
    Minus,
    Multiplication,
    Divide,
}

/// The four comparison operators of `if` and `while` conditions.
#[derive(Clone, Copy, PartialEq, Eq, Structural, Debug)]
pub enum ComparisonOp {
    Equal,
    NotEqual,
    Bigger,
    Smaller,
}

/// An expression tree.
#[derive(Debug)]
pub enum Value {
    BinaryExpr { loc: (usize, usize), l_expr: Box<Value>, r_expr: Box<Value>, op: Operator },
    FunctionCall { loc: (usize, usize), name: String, params: Vec<Value> },
    Cast(Box<Value>, Type),
    Deref(Box<Value>, Type),
    Ref(Box<Value>),
    Int(usize),
    Str(String),
    Ident(String),
    Null,
}

/// A comparison between two expressions.
#[derive(Debug)]
pub struct Comparison {
    pub l_expr: Box<Value>,
    pub r_expr: Box<Value>,
    pub op: ComparisonOp,
}

/// A statement tree node.
#[derive(Debug)]
pub enum Ast {
    Function {
        loc: (usize, usize),
        name: String,
        param_t: Vec<(String, Type)>,
        return_t: Type,
        body: Vec<Ast>,
    },
    Return { loc: (usize, usize), value: Value },
    Variable { loc: (usize, usize), name: String, var_t: Type, value: Value },
    MutateVar { loc: (usize, usize), name: String, value: Value },
    MutatePtr { loc: (usize, usize), ptr_type: Type, ptr: Value, value: Value },
    If { loc: (usize, usize), comparison: Comparison, body: Vec<Ast>, else_body: Vec<Ast> },
    While { loc: (usize, usize), comparison: Comparison, body: Vec<Ast> },
    InlineAsm { loc: (usize, usize), text: String },
}

/// The ghost view of an expression: names and literals as `Seq<char>`,
/// argument lists as `Seq`.
#[verifier::ext_equal]
pub enum ValueV {
    BinaryExpr { loc: (usize, usize), l_expr: Box<ValueV>, r_expr: Box<ValueV>, op: Operator },
    FunctionCall { loc: (usize, usize), name: Seq<char>, params: Seq<ValueV> },
    Cast(Box<ValueV>, Type),
    Deref(Box<ValueV>, Type),
    Ref(Box<ValueV>),
    Int(usize),
    Str(Seq<char>),
    Ident(Seq<char>),
    Null,
}

/// The ghost view of a comparison.
#[verifier::ext_equal]
pub struct ComparisonV {
    pub l_expr: ValueV,
    pub r_expr: ValueV,
    pub op: ComparisonOp,
}

/// The ghost view of a statement.
#[verifier::ext_equal]
pub enum AstV {
    Function {
        loc: (usize, usize),
        name: Seq<char>,
        param_t: Seq<(Seq<char>, Type)>,
        return_t: Type,
        body: Seq<AstV>,
    },
    Return { loc: (usize, usize), value: ValueV },
    Variable { loc: (usize, usize), name: Seq<char>, var_t: Type, value: ValueV },
    MutateVar { loc: (usize, usize), name: Seq<char>, value: ValueV },
    MutatePtr { loc: (usize, usize), ptr_type: Type, ptr: ValueV, value: ValueV },
    If { loc: (usize, usize), comparison: ComparisonV, body: Seq<AstV>, else_body: Seq<AstV> },
    While { loc: (usize, usize), comparison: ComparisonV, body: Seq<AstV> },
    InlineAsm { loc: (usize, usize), text: Seq<char> },
}

/// The view of an expression tree.
pub open spec fn view_value(v: Value) -> ValueV
    decreases v, 0nat,
{
    match v {
        Value::BinaryExpr { loc, l_expr, r_expr, op } => ValueV::BinaryExpr {
            loc,
            l_expr: Box::new(view_value(*l_expr)),
            r_expr: Box::new(view_value(*r_expr)),
            op,
        },
        Value::FunctionCall { loc, name, params } => ValueV::FunctionCall {
            loc,
            name: name@,
            params: view_values(params@),
        },
        Value::Cast(inner, t) => ValueV::Cast(Box::new(view_value(*inner)), t),
        Value::Deref(inner, t) => ValueV::Deref(Box::new(view_value(*inner)), t),
        Value::Ref(inner) => ValueV::Ref(Box::new(view_value(*inner))),
        Value::Int(n) => ValueV::Int(n),
        Value::Str(s) => ValueV::Str(s@),
        Value::Ident(s) => ValueV::Ident(s@),
        Value::Null => ValueV::Null,
    }
}

/// The view of a sequence of expressions, element by element.
pub open spec fn view_values(s: Seq<Value>) -> Seq<ValueV>
    decreases s, 1nat,
{
    if s.len() == 0 {
        Seq::empty()
    } else {
        seq![view_value(s[0])] + view_values(s.drop_first())
    }
}

/// The view of a comparison.
pub open spec fn view_cmp(c: Comparison) -> ComparisonV {
    ComparisonV { l_expr: view_value(*c.l_expr), r_expr: view_value(*c.r_expr), op: c.op }
}

/// The view of a parameter list, element by element.
pub open spec fn view_params(s: Seq<(String, Type)>) -> Seq<(Seq<char>, Type)>
    decreases s.len(),
{
    if s.len() == 0 {
        Seq::empty()
    } else {
        seq![(s[0].0@, s[0].1)] + view_params(s.drop_first())
    }
}

/// `view_params` maps element by element.
pub proof fn lemma_view_params_index(s: Seq<(String, Type)>)
    ensures
        view_params(s).len() == s.len(),
        forall|i: int| 0 <= i < s.len() ==> view_params(s)[i] == (s[i].0@, s[i].1),
    decreases s.len(),
{
    if s.len() > 0 {
        lemma_view_params_index(s.drop_first());
    }
}

/// The view of a statement tree.
pub open spec fn view_ast(a: Ast) -> AstV
    decreases a, 0nat,
{
    match a {
        Ast::Function { loc, name, param_t, return_t, body } => AstV::Function {
            loc,
            name: name@,
            param_t: view_params(param_t@),
            return_t,
            body: view_asts(body@),
        },
        Ast::Return { loc, value } => AstV::Return { loc, value: view_value(value) },
        Ast::Variable { loc, name, var_t, value } => AstV::Variable {
            loc,
            name: name@,
            var_t,
            value: view_value(value),
        },
        Ast::MutateVar { loc, name, value } => AstV::MutateVar {
            loc,
            name: name@,
            value: view_value(value),
        },
        Ast::MutatePtr { loc, ptr_type, ptr, value } => AstV::MutatePtr {
            loc,
            ptr_type,
            ptr: view_value(ptr),
            value: view_value(value),
        },
        Ast::If { loc, comparison, body, else_body } => AstV::If {
            loc,
            comparison: view_cmp(comparison),
            body: view_asts(body@),
            else_body: view_asts(else_body@),
        },
        Ast::While { loc, comparison, body } => AstV::While {
            loc,
            comparison: view_cmp(comparison),
            body: view_asts(body@),
        },
        Ast::InlineAsm { loc, text } => AstV::InlineAsm { loc, text: text@ },
    }
}

/// The view of a statement sequence, element by element.
pub open spec fn view_asts(s: Seq<Ast>) -> Seq<AstV>
    decreases s, 1nat,
{
    if s.len() == 0 {
        Seq::empty()
    } else {
        seq![view_ast(s[0])] + view_asts(s.drop_first())
    }
}

/// `view_values` maps element by element.
pub proof fn lemma_view_values_index(s: Seq<Value>)
    ensures
        view_values(s).len() == s.len(),
        forall|i: int| 0 <= i < s.len() ==> view_values(s)[i] == view_value(s[i]),
    decreases s.len(),
{
    if s.len() > 0 {
        lemma_view_values_index(s.drop_first());
    }
}

/// `view_asts` maps element by element.
pub proof fn lemma_view_asts_index(s: Seq<Ast>)
    ensures
        view_asts(s).len() == s.len(),
        forall|i: int| 0 <= i < s.len() ==> view_asts(s)[i] == view_ast(s[i]),
    decreases s.len(),
{
    if s.len() > 0 {
        lemma_view_asts_index(s.drop_first());
    }
}

/// Concatenation of statement sequences concatenates their views.
pub proof fn lemma_view_asts_concat(a: Seq<Ast>, b: Seq<Ast>)
    ensures
        view_asts(a + b) == view_asts(a) + view_asts(b),
    decreases a.len(),
{
    if a.len() == 0 {
        assert(a + b =~= b);
        assert(view_asts(a + b) =~= view_asts(a) + view_asts(b));
    } else {
        lemma_view_asts_concat(a.drop_first(), b);
        assert((a + b).drop_first() =~= a.drop_first() + b);
        assert(view_asts(a + b) =~= view_asts(a) + view_asts(b));
    }
}

impl Ast {
    /// The type named by a type keyword's spelling; any other spelling is
    /// read as void.
    pub open spec fn spec_str_to_type(s: Seq<char>) -> Type {
        if s == "int"@ {
            Type::Int
        } else if s == "ptr"@ {
            Type::Ptr
        } else {
            Type::Void
        }
    }

    pub fn str_to_type(str_t: &str) -> (r: Type)
        ensures
            r == Self::spec_str_to_type(str_t@),
    {
        if str_eq(str_t, "int") {
            Type::Int
        } else if str_eq(str_t, "ptr") {
            Type::Ptr
        } else {
            Type::Void
        }
    }
}

} // verus!
