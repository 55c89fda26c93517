//! The type checker.
//!
//! It walks the statement tree once, keeps a global function signature
//! table and a scope stack of variable bindings, and validates every
//! expression, assignment, comparison and call against the type system.
//! The whole pass is mirrored by spec functions; every method's contract
//! states that it computes exactly what the mirror computes.

use vstd::prelude::*;
use crate::ast::{
    Ast, AstV, Comparison, ComparisonV, Type, Value, ValueV, view_ast, view_asts, view_cmp,
    view_params, view_value, view_values, lemma_view_asts_index, lemma_view_params_index,
    lemma_view_values_index,
};
use crate::diag::{CompileError, CompileErrorV, TypeKind, TypeKindV, res_ty, res_unit, view_err};

verus! {

broadcast use vstd::std_specs::vec::group_vec_axioms;

/// A registered function signature: return type and ordered parameters.
#[derive(Debug)]
pub struct FnSig {
    pub ret: Type,
    pub params: Vec<(String, Type)>,
}

/// Ghost view of a signature.
#[verifier::ext_equal]
pub struct SigV {
    pub ret: Type,
    pub params: Seq<(Seq<char>, Type)>,
}

/// Ghost view of the checker state: the current function, the signature
/// table in declaration order, and the scope stack, innermost frame last.
#[verifier::ext_equal]
pub struct CheckerV {
    pub cur: Option<Seq<char>>,
    pub fns: Seq<(Seq<char>, SigV)>,
    pub scopes: Seq<Seq<(Seq<char>, Type)>>,
}

/// The view of a signature.
pub open spec fn view_sig(s: FnSig) -> SigV {
    SigV { ret: s.ret, params: view_params(s.params@) }
}

/// The view of the signature table, element by element.
pub open spec fn view_fn_table(s: Seq<(String, FnSig)>) -> Seq<(Seq<char>, SigV)>
    decreases s.len(),
{
    if s.len() == 0 {
        Seq::empty()
    } else {
        seq![(s[0].0@, view_sig(s[0].1))] + view_fn_table(s.drop_first())
    }
}

/// `view_fn_table` maps element by element.
pub proof fn lemma_view_fn_table_index(s: Seq<(String, FnSig)>)
    ensures
        view_fn_table(s).len() == s.len(),
        forall|i: int| 0 <= i < s.len() ==> view_fn_table(s)[i] == (s[i].0@, view_sig(s[i].1)),
    decreases s.len(),
{
    if s.len() > 0 {
        lemma_view_fn_table_index(s.drop_first());
    }
}

/// The view of the scope stack, frame by frame.
pub open spec fn view_scope_chain(s: Seq<Vec<(String, Type)>>) -> Seq<Seq<(Seq<char>, Type)>>
    decreases s.len(),
{
    if s.len() == 0 {
        Seq::empty()
    } else {
        seq![view_params(s[0]@)] + view_scope_chain(s.drop_first())
    }
}

/// `view_scope_chain` maps frame by frame.
pub proof fn lemma_view_scope_chain_index(s: Seq<Vec<(String, Type)>>)
    ensures
        view_scope_chain(s).len() == s.len(),
        forall|i: int| 0 <= i < s.len() ==> view_scope_chain(s)[i] == view_params(s[i]@),
    decreases s.len(),
{
    if s.len() > 0 {
        lemma_view_scope_chain_index(s.drop_first());
    }
}

/// The first signature registered under a name, if any.
pub open spec fn lookup_fn_from(fns: Seq<(Seq<char>, SigV)>, name: Seq<char>, i: int) -> Option<
    SigV,
>
    decreases fns.len() - i,
{
    if i < 0 || i >= fns.len() {
        None
    } else if fns[i].0 == name {
        Some(fns[i].1)
    } else {
        lookup_fn_from(fns, name, i + 1)
    }
}

/// Signature lookup over the whole table.
pub open spec fn lookup_fn(fns: Seq<(Seq<char>, SigV)>, name: Seq<char>) -> Option<SigV> {
    lookup_fn_from(fns, name, 0)
}

/// The binding a frame holds for a name; the latest binding wins.
pub open spec fn frame_lookup_upto(frame: Seq<(Seq<char>, Type)>, name: Seq<char>, i: int) -> Option<
    Type,
>
    decreases i,
{
    if i <= 0 || i > frame.len() {
        None
    } else if frame[i - 1].0 == name {
        Some(frame[i - 1].1)
    } else {
        frame_lookup_upto(frame, name, i - 1)
    }
}

/// The binding a whole frame holds for a name.
pub open spec fn frame_lookup(frame: Seq<(Seq<char>, Type)>, name: Seq<char>) -> Option<Type> {
    frame_lookup_upto(frame, name, frame.len() as int)
}

/// The binding the scope chain holds for a name, innermost frame first.
pub open spec fn lookup_var_upto(
    scopes: Seq<Seq<(Seq<char>, Type)>>,
    name: Seq<char>,
    i: int,
) -> Option<Type>
    decreases i,
{
    if i <= 0 || i > scopes.len() {
        None
    } else {
        match frame_lookup(scopes[i - 1], name) {
            Some(t) => Some(t),
            None => lookup_var_upto(scopes, name, i - 1),
        }
    }
}

/// The binding the whole scope chain holds for a name.
pub open spec fn lookup_var(scopes: Seq<Seq<(Seq<char>, Type)>>, name: Seq<char>) -> Option<Type> {
    lookup_var_upto(scopes, name, scopes.len() as int)
}

/// The state with one fresh empty frame pushed.
pub open spec fn push_frame(st: CheckerV) -> CheckerV {
    CheckerV { scopes: st.scopes.push(Seq::empty()), ..st }
}

/// The state with the innermost frame torn down.
pub open spec fn pop_frame(st: CheckerV) -> CheckerV {
    if st.scopes.len() == 0 {
        st
    } else {
        CheckerV { scopes: st.scopes.drop_last(), ..st }
    }
}

/// The state with one binding added to the innermost frame.
pub open spec fn bind_var(st: CheckerV, name: Seq<char>, t: Type) -> CheckerV {
    if st.scopes.len() == 0 {
        st
    } else {
        CheckerV {
            scopes: st.scopes.update(
                st.scopes.len() - 1,
                st.scopes.last().push((name, t)),
            ),
            ..st
        }
    }
}

/// The state with a run of parameters bound in declaration order,
/// starting at position `i`.
pub open spec fn bind_params(st: CheckerV, params: Seq<(Seq<char>, Type)>, i: int) -> CheckerV
    decreases params.len() - i,
{
    if i < 0 || i >= params.len() {
        st
    } else {
        bind_params(bind_var(st, params[i].0, params[i].1), params, i + 1)
    }
}

/// The type of an expression under given tables, or the first error the
/// checker reports for it.  `loc` is the location blamed for failures of
/// sub-expressions that carry no location of their own.
pub open spec fn spec_value_type(
    fns: Seq<(Seq<char>, SigV)>,
    scopes: Seq<Seq<(Seq<char>, Type)>>,
    v: ValueV,
    loc: (usize, usize),
) -> Result<Type, CompileErrorV>
    decreases v, 0int,
{
    match v {
        ValueV::BinaryExpr { loc: bloc, l_expr, r_expr, op } => match spec_value_type(
            fns,
            scopes,
            *l_expr,
            bloc,
        ) {
            Err(e) => Err(e),
            Ok(lt) => match spec_value_type(fns, scopes, *r_expr, bloc) {
                Err(e) => Err(e),
                Ok(rt) => if lt != rt || rt != Type::Int || lt != Type::Int {
                    Err(CompileErrorV::Type { loc: bloc, kind: TypeKindV::NonIntegerOperands })
                } else {
                    Ok(Type::Int)
                },
            },
        },
        ValueV::FunctionCall { loc: cloc, name, params } => match lookup_fn(fns, name) {
            None => Err(CompileErrorV::Type { loc: cloc, kind: TypeKindV::UnknownFunction(name) }),
            Some(sig) => if params.len() != sig.params.len() {
                Err(CompileErrorV::Type {
                    loc: cloc,
                    kind: TypeKindV::ArityMismatch {
                        expected: sig.params.len(),
                        got: params.len(),
                    },
                })
            } else {
                spec_params_check(fns, scopes, params, sig.params, 0, cloc, sig.ret)
            },
        },
        ValueV::Ident(name) => match lookup_var(scopes, name) {
            Some(t) => Ok(t),
            None => Err(CompileErrorV::Type { loc, kind: TypeKindV::UnknownIdentifier(name) }),
        },
        ValueV::Deref(inner, deref_type) => match spec_value_type(fns, scopes, *inner, loc) {
            Err(e) => Err(e),
            Ok(t) => if t != Type::Ptr {
                Err(CompileErrorV::Type { loc, kind: TypeKindV::DerefNonPointer(t) })
            } else {
                Ok(deref_type)
            },
        },
        ValueV::Cast(_, cast_type) => Ok(cast_type),
        ValueV::Ref(_) => Ok(Type::Ptr),
        ValueV::Str(_) => Ok(Type::Ptr),
        ValueV::Int(_) => Ok(Type::Int),
        ValueV::Null => Ok(Type::Void),
    }
}

/// Checks call arguments from position `i` on against the declared
/// parameter types, yielding the declared return type when all match.
pub open spec fn spec_params_check(
    fns: Seq<(Seq<char>, SigV)>,
    scopes: Seq<Seq<(Seq<char>, Type)>>,
    params: Seq<ValueV>,
    decl: Seq<(Seq<char>, Type)>,
    i: int,
    cloc: (usize, usize),
    ret: Type,
) -> Result<Type, CompileErrorV>
    decreases params, params.len() - i,
{
    if i < 0 || i >= params.len() || params.len() != decl.len() {
        Ok(ret)
    } else {
        match spec_value_type(fns, scopes, params[i], cloc) {
            Err(e) => Err(e),
            Ok(t) => if t != decl[i].1 {
                Err(CompileErrorV::Type {
                    loc: cloc,
                    kind: TypeKindV::Mismatch { expected: decl[i].1, got: t },
                })
            } else {
                spec_params_check(fns, scopes, params, decl, i + 1, cloc, ret)
            },
        }
    }
}

/// Both sides of a comparison must have the same type.
pub open spec fn spec_comparison_check(
    fns: Seq<(Seq<char>, SigV)>,
    scopes: Seq<Seq<(Seq<char>, Type)>>,
    c: ComparisonV,
    loc: (usize, usize),
) -> Result<(), CompileErrorV> {
    match spec_value_type(fns, scopes, c.l_expr, loc) {
        Err(e) => Err(e),
        Ok(lt) => match spec_value_type(fns, scopes, c.r_expr, loc) {
            Err(e) => Err(e),
            Ok(rt) => if lt != rt {
                Err(CompileErrorV::Type {
                    loc,
                    kind: TypeKindV::Mismatch { expected: lt, got: rt },
                })
            } else {
                Ok(())
            },
        },
    }
}

/// One statement checked under a state; yields the state after it and
/// the outcome.
pub open spec fn spec_check_stmt(st: CheckerV, stmt: AstV, nested: bool) -> (
    CheckerV,
    Result<(), CompileErrorV>,
)
    decreases stmt, 2int,
{
    match stmt {
        AstV::Function { loc, name, param_t, return_t, body } => {
            if lookup_fn(st.fns, name) is Some {
                (st, Err(CompileErrorV::Type { loc, kind: TypeKindV::FunctionExists(name) }))
            } else if param_t.len() > 6 {
                (st, Err(CompileErrorV::Type { loc, kind: TypeKindV::TooManyParameters }))
            } else if nested {
                (st, Err(CompileErrorV::Type { loc, kind: TypeKindV::NestedFunction }))
            } else {
                let st1 = bind_params(push_frame(st), param_t, 0);
                let st2 = CheckerV {
                    fns: st1.fns.push((name, SigV { ret: return_t, params: param_t })),
                    cur: Some(name),
                    ..st1
                };
                let (st3, r) = spec_check_block(st2, body, true);
                (CheckerV { cur: st.cur, ..pop_frame(st3) }, r)
            }
        },
        AstV::Return { loc, value } => match st.cur {
            None => (st, Err(CompileErrorV::Internal { loc })),
            Some(cur) => match lookup_fn(st.fns, cur) {
                None => (st, Err(CompileErrorV::Internal { loc })),
                Some(sig) => match spec_value_type(st.fns, st.scopes, value, loc) {
                    Err(e) => (st, Err(e)),
                    Ok(t) => if t != sig.ret {
                        (
                            st,
                            Err(CompileErrorV::Type {
                                loc,
                                kind: TypeKindV::Mismatch { expected: sig.ret, got: t },
                            }),
                        )
                    } else {
                        (st, Ok(()))
                    },
                },
            },
        },
        AstV::Variable { loc, name, var_t, value } => match spec_value_type(
            st.fns,
            st.scopes,
            value,
            loc,
        ) {
            Err(e) => (st, Err(e)),
            Ok(vt) => if var_t != vt {
                (
                    st,
                    Err(CompileErrorV::Type {
                        loc,
                        kind: TypeKindV::Mismatch { expected: var_t, got: vt },
                    }),
                )
            } else if lookup_var(st.scopes, name) is Some {
                (st, Err(CompileErrorV::Type { loc, kind: TypeKindV::VariableExists(name) }))
            } else {
                (bind_var(st, name, var_t), Ok(()))
            },
        },
        AstV::MutateVar { loc, name, value } => match spec_value_type(
            st.fns,
            st.scopes,
            value,
            loc,
        ) {
            Err(e) => (st, Err(e)),
            Ok(vt) => match lookup_var(st.scopes, name) {
                None => (
                    st,
                    Err(CompileErrorV::Type { loc, kind: TypeKindV::UnknownIdentifier(name) }),
                ),
                Some(t) => if t != vt {
                    (
                        st,
                        Err(CompileErrorV::Type {
                            loc,
                            kind: TypeKindV::Mismatch { expected: t, got: vt },
                        }),
                    )
                } else {
                    (st, Ok(()))
                },
            },
        },
        AstV::MutatePtr { loc, ptr_type, ptr, value } => match spec_value_type(
            st.fns,
            st.scopes,
            ptr,
            loc,
        ) {
            Err(e) => (st, Err(e)),
            Ok(pt) => if pt != Type::Ptr {
                (
                    st,
                    Err(CompileErrorV::Type {
                        loc,
                        kind: TypeKindV::Mismatch { expected: Type::Ptr, got: pt },
                    }),
                )
            } else {
                match spec_value_type(st.fns, st.scopes, value, loc) {
                    Err(e) => (st, Err(e)),
                    Ok(nt) => if ptr_type != nt {
                        (
                            st,
                            Err(CompileErrorV::Type {
                                loc,
                                kind: TypeKindV::Mismatch { expected: ptr_type, got: nt },
                            }),
                        )
                    } else {
                        (st, Ok(()))
                    },
                }
            },
        },
        AstV::If { loc, comparison, body, else_body } => match spec_comparison_check(
            st.fns,
            st.scopes,
            comparison,
            loc,
        ) {
            Err(e) => (st, Err(e)),
            Ok(_) => {
                let (st1, r1) = spec_check_block(st, body, true);
                match r1 {
                    Err(e) => (st1, Err(e)),
                    Ok(_) => spec_check_block(st1, else_body, true),
                }
            },
        },
        AstV::While { loc, comparison, body } => match spec_comparison_check(
            st.fns,
            st.scopes,
            comparison,
            loc,
        ) {
            Err(e) => (st, Err(e)),
            Ok(_) => spec_check_block(st, body, true),
        },
        AstV::InlineAsm { .. } => (st, Ok(())),
    }
}

/// A run of statements checked in order; stops at the first failure.
pub open spec fn spec_check_stmts(st: CheckerV, stmts: Seq<AstV>, nested: bool) -> (
    CheckerV,
    Result<(), CompileErrorV>,
)
    decreases stmts, 0int,
{
    if stmts.len() == 0 {
        (st, Ok(()))
    } else {
        let (st1, r) = spec_check_stmt(st, stmts[0], nested);
        match r {
            Err(e) => (st1, Err(e)),
            Ok(_) => spec_check_stmts(st1, stmts.drop_first(), nested),
        }
    }
}

/// A nested statement sequence checked in a fresh scope frame; the frame
/// is torn down whether or not checking succeeded.
pub open spec fn spec_check_block(st: CheckerV, stmts: Seq<AstV>, nested: bool) -> (
    CheckerV,
    Result<(), CompileErrorV>,
)
    decreases stmts, 1int,
{
    let (st1, r) = spec_check_stmts(push_frame(st), stmts, nested);
    (pop_frame(st1), r)
}


/// Binding parameters changes only the innermost frame.
pub proof fn lemma_bind_params_shape(st: CheckerV, params: Seq<(Seq<char>, Type)>, i: int)
    ensures
        bind_params(st, params, i).scopes.len() == st.scopes.len(),
        st.scopes.len() > 0 ==> bind_params(st, params, i).scopes.drop_last()
            == st.scopes.drop_last(),
        bind_params(st, params, i).fns == st.fns,
        bind_params(st, params, i).cur == st.cur,
    decreases params.len() - i,
{
    if 0 <= i < params.len() {
        lemma_bind_params_shape(bind_var(st, params[i].0, params[i].1), params, i + 1);
        if st.scopes.len() > 0 {
            assert(bind_var(st, params[i].0, params[i].1).scopes.drop_last()
                =~= st.scopes.drop_last());
        }
    }
}

/// One checked statement changes only the innermost frame of the scope
/// stack: outer frames survive untouched, whatever the outcome.
pub proof fn lemma_scopes_shape_stmt(st: CheckerV, stmt: AstV, nested: bool)
    ensures
        spec_check_stmt(st, stmt, nested).0.scopes.len() == st.scopes.len(),
        st.scopes.len() > 0 ==> spec_check_stmt(st, stmt, nested).0.scopes.drop_last()
            == st.scopes.drop_last(),
    decreases stmt, 3int,
{
    match stmt {
        AstV::Function { loc, name, param_t, return_t, body } => {
            if lookup_fn(st.fns, name) is Some || param_t.len() > 6 || nested {
            } else {
                let st1 = bind_params(push_frame(st), param_t, 0);
                lemma_bind_params_shape(push_frame(st), param_t, 0);
                let st2 = CheckerV {
                    fns: st1.fns.push((name, SigV { ret: return_t, params: param_t })),
                    cur: Some(name),
                    ..st1
                };
                lemma_check_block_scopes(st2, body, true);
                let (st3, r) = spec_check_block(st2, body, true);
                assert(st3.scopes == st2.scopes);
                assert(st1.scopes.drop_last() == push_frame(st).scopes.drop_last());
                assert(push_frame(st).scopes.drop_last() =~= st.scopes);
                assert(pop_frame(st3).scopes == st.scopes);
            }
        },
        AstV::Variable { loc, name, var_t, value } => {
            if st.scopes.len() > 0 {
                assert(bind_var(st, name, var_t).scopes.drop_last() =~= st.scopes.drop_last());
            }
        },
        AstV::If { loc, comparison, body, else_body } => {
            match spec_comparison_check(st.fns, st.scopes, comparison, loc) {
                Err(_) => {},
                Ok(_) => {
                    lemma_check_block_scopes(st, body, true);
                    let (st1, r1) = spec_check_block(st, body, true);
                    lemma_check_block_scopes(st1, else_body, true);
                },
            }
        },
        AstV::While { loc, comparison, body } => {
            match spec_comparison_check(st.fns, st.scopes, comparison, loc) {
                Err(_) => {},
                Ok(_) => {
                    lemma_check_block_scopes(st, body, true);
                },
            }
        },
        _ => {},
    }
}

/// A checked run of statements changes only the innermost frame.
pub proof fn lemma_scopes_shape_stmts(st: CheckerV, stmts: Seq<AstV>, nested: bool)
    ensures
        spec_check_stmts(st, stmts, nested).0.scopes.len() == st.scopes.len(),
        st.scopes.len() > 0 ==> spec_check_stmts(st, stmts, nested).0.scopes.drop_last()
            == st.scopes.drop_last(),
    decreases stmts, 0int,
{
    if stmts.len() > 0 {
        lemma_scopes_shape_stmt(st, stmts[0], nested);
        let (st1, r) = spec_check_stmt(st, stmts[0], nested);
        match r {
            Err(_) => {},
            Ok(_) => {
                lemma_scopes_shape_stmts(st1, stmts.drop_first(), nested);
            },
        }
    }
}

/// Scope discipline: checking a nested statement sequence leaves the
/// scope stack exactly as it was, whether or not checking succeeded.  A
/// variable declared inside the sequence is therefore unresolvable as
/// soon as the sequence has been checked.
pub proof fn lemma_check_block_scopes(st: CheckerV, stmts: Seq<AstV>, nested: bool)
    ensures
        spec_check_block(st, stmts, nested).0.scopes == st.scopes,
    decreases stmts, 1int,
{
    lemma_scopes_shape_stmts(push_frame(st), stmts, nested);
    let (st1, r) = spec_check_stmts(push_frame(st), stmts, nested);
    assert(push_frame(st).scopes.drop_last() =~= st.scopes);
    assert(pop_frame(st1).scopes == st.scopes);
}

/// Scope discipline, stated on name resolution: after a nested
/// statement sequence has been checked, every name resolves exactly as
/// it did before, so a variable declared inside the sequence is
/// unresolvable once the sequence is done, whatever the outcome was.
pub proof fn lemma_scope_discipline(
    st: CheckerV,
    stmts: Seq<AstV>,
    nested: bool,
    name: Seq<char>,
)
    ensures
        lookup_var(spec_check_block(st, stmts, nested).0.scopes, name) == lookup_var(
            st.scopes,
            name,
        ),
{
    lemma_check_block_scopes(st, stmts, nested);
}

/// Parameter-count boundary: a function declaration with more than six
/// parameters is rejected with the parameter-count error at its own
/// location, and one with at most six passes that check and is judged
/// by its body alone.
pub proof fn lemma_parameter_limit(
    st: CheckerV,
    loc: (usize, usize),
    name: Seq<char>,
    params: Seq<(Seq<char>, Type)>,
    ret: Type,
    body: Seq<AstV>,
)
    requires
        lookup_fn(st.fns, name) is None,
    ensures
        ({
            let stmt = AstV::Function { loc, name, param_t: params, return_t: ret, body };
            let (st1, r) = spec_check_stmt(st, stmt, false);
            &&& (params.len() > 6 ==> r == Err::<(), CompileErrorV>(
                CompileErrorV::Type { loc, kind: TypeKindV::TooManyParameters },
            ))
            &&& (params.len() <= 6 ==> {
                let st2 = CheckerV {
                    fns: bind_params(push_frame(st), params, 0).fns.push(
                        (name, SigV { ret, params }),
                    ),
                    cur: Some(name),
                    ..bind_params(push_frame(st), params, 0)
                };
                r == spec_check_block(st2, body, true).1
            })
        }),
{
}

/// Concatenation law: checking a concatenated statement run is checking
/// the first part and then, from the state it leaves behind, the second
/// part; the first failure wins.  A statement sequence spliced together
/// from several sources is therefore checked exactly as if all its
/// statements had been written in one sequence, in splice order.
pub proof fn lemma_check_stmts_concat(st: CheckerV, a: Seq<AstV>, b: Seq<AstV>, nested: bool)
    ensures
        ({
            let (st1, r1) = spec_check_stmts(st, a, nested);
            spec_check_stmts(st, a + b, nested) == (match r1 {
                Err(e) => (st1, Err::<(), CompileErrorV>(e)),
                Ok(_) => spec_check_stmts(st1, b, nested),
            })
        }),
    decreases a.len(),
{
    if a.len() == 0 {
        assert(a + b =~= b);
    } else {
        assert((a + b)[0] == a[0]);
        assert((a + b).drop_first() =~= a.drop_first() + b);
        let (st1, r1) = spec_check_stmt(st, a[0], nested);
        match r1 {
            Err(_) => {},
            Ok(_) => {
                lemma_check_stmts_concat(st1, a.drop_first(), b, nested);
            },
        }
    }
}

/// The type checker: a signature table, a scope stack, and the name of
/// the function whose body is being checked.
pub struct TypeChecker {
    current_fn: Option<String>,
    functions: Vec<(String, FnSig)>,
    scopes: Vec<Vec<(String, Type)>>,
}

impl View for TypeChecker {
    type V = CheckerV;

    closed spec fn view(&self) -> CheckerV {
        CheckerV {
            cur: match self.current_fn {
                Some(ref s) => Some(s@),
                None => None,
            },
            fns: view_fn_table(self.functions@),
            scopes: view_scope_chain(self.scopes@),
        }
    }
}

impl TypeChecker {
    /// A fresh checker: no current function, no signatures, no scopes.
    pub fn new() -> (r: TypeChecker)
        ensures
            r@ == (CheckerV { cur: None, fns: Seq::empty(), scopes: Seq::empty() }),
    {
        let r = TypeChecker { current_fn: None, functions: Vec::new(), scopes: Vec::new() };
        proof {
            assert(r@ =~= CheckerV { cur: None, fns: Seq::empty(), scopes: Seq::empty() });
        }
        r
    }

    /// First registered signature under a name.
    fn find_function(&self, name: &String) -> (r: Option<&FnSig>)
        ensures
            match r {
                Some(sig) => lookup_fn(self@.fns, name@) == Some(view_sig(*sig)),
                None => lookup_fn(self@.fns, name@) is None,
            },
    {
        proof {
            lemma_view_fn_table_index(self.functions@);
        }
        let mut i: usize = 0;
        while i < self.functions.len()
            invariant
                0 <= i <= self.functions.len(),
                lookup_fn(self@.fns, name@) == lookup_fn_from(self@.fns, name@, i as int),
                self@.fns.len() == self.functions@.len(),
                forall|x: int| 0 <= x < self.functions@.len() ==> self@.fns[x] == (
                    self.functions@[x].0@,
                    view_sig(self.functions@[x].1),
                ),
            decreases self.functions.len() - i,
        {
            if self.functions[i].0.eq(name) {
                return Some(&self.functions[i].1);
            }
            i = i + 1;
        }
        None
    }

    /// The binding the scope chain holds for a name, innermost frame
    /// first, latest binding first inside a frame.
    fn find_variable(&self, name: &String) -> (r: Option<Type>)
        ensures
            r == lookup_var(self@.scopes, name@),
    {
        proof {
            lemma_view_scope_chain_index(self.scopes@);
        }
        let mut k: usize = self.scopes.len();
        while k > 0
            invariant
                0 <= k <= self.scopes.len(),
                lookup_var(self@.scopes, name@) == lookup_var_upto(self@.scopes, name@, k as int),
                self@.scopes.len() == self.scopes@.len(),
                forall|x: int| 0 <= x < self.scopes@.len() ==> self@.scopes[x] == view_params(
                    self.scopes@[x]@,
                ),
            decreases k,
        {
            let frame = &self.scopes[k - 1];
            proof {
                lemma_view_params_index(frame@);
                assert(self@.scopes[k - 1] == view_params(self.scopes@[k - 1]@));
            }
            let mut j: usize = frame.len();
            while j > 0
                invariant
                    0 <= j <= frame.len(),
                    0 < k <= self.scopes.len(),
                    self@.scopes.len() == self.scopes@.len(),
                    self@.scopes[k - 1] == view_params(frame@),
                    lookup_var(self@.scopes, name@) == lookup_var_upto(
                        self@.scopes,
                        name@,
                        k as int,
                    ),
                    frame_lookup(self@.scopes[k - 1], name@) == frame_lookup_upto(
                        self@.scopes[k - 1],
                        name@,
                        j as int,
                    ),
                    view_params(frame@).len() == frame@.len(),
                    forall|x: int| 0 <= x < frame@.len() ==> view_params(frame@)[x] == (
                        frame@[x].0@,
                        frame@[x].1,
                    ),
                decreases j,
            {
                if frame[j - 1].0.eq(name) {
                    return Some(frame[j - 1].1);
                }
                j = j - 1;
            }
            k = k - 1;
        }
        None
    }

    /// The type of an expression under the current tables, or the first
    /// error found in it.  Computes exactly what [`spec_value_type`]
    /// states.
    pub fn value_type(&self, value: &Value, loc: (usize, usize)) -> (r: Result<Type, CompileError>)
        ensures
            res_ty(r) == spec_value_type(self@.fns, self@.scopes, view_value(*value), loc),
        decreases *value, 0int,
    {
        match value {
            Value::BinaryExpr { loc: bloc, l_expr, r_expr, op: _ } => {
                let lt = match self.value_type(l_expr, *bloc) {
                    Ok(t) => t,
                    Err(e) => {
                        return Err(e);
                    },
                };
                let rt = match self.value_type(r_expr, *bloc) {
                    Ok(t) => t,
                    Err(e) => {
                        return Err(e);
                    },
                };
                if lt != rt || rt != Type::Int || lt != Type::Int {
                    Err(CompileError::Type { loc: *bloc, kind: TypeKind::NonIntegerOperands })
                } else {
                    Ok(Type::Int)
                }
            },
            Value::FunctionCall { loc: cloc, name, params } => {
                match self.find_function(name) {
                    None => Err(CompileError::Type {
                        loc: *cloc,
                        kind: TypeKind::UnknownFunction(name.clone()),
                    }),
                    Some(sig) => {
                        proof {
                            lemma_view_values_index(params@);
                            lemma_view_params_index(sig.params@);
                        }
                        if params.len() != sig.params.len() {
                            Err(CompileError::Type {
                                loc: *cloc,
                                kind: TypeKind::ArityMismatch {
                                    expected: sig.params.len(),
                                    got: params.len(),
                                },
                            })
                        } else {
                            self.check_call_params(params, &sig.params, 0, *cloc, sig.ret)
                        }
                    },
                }
            },
            Value::Ident(name) => match self.find_variable(name) {
                Some(t) => Ok(t),
                None => Err(CompileError::Type {
                    loc,
                    kind: TypeKind::UnknownIdentifier(name.clone()),
                }),
            },
            Value::Deref(inner, deref_type) => {
                let t = match self.value_type(inner, loc) {
                    Ok(t) => t,
                    Err(e) => {
                        return Err(e);
                    },
                };
                if t != Type::Ptr {
                    Err(CompileError::Type { loc, kind: TypeKind::DerefNonPointer(t) })
                } else {
                    Ok(*deref_type)
                }
            },
            Value::Cast(_, cast_type) => Ok(*cast_type),
            Value::Ref(_) => Ok(Type::Ptr),
            Value::Str(_) => Ok(Type::Ptr),
            Value::Int(_) => Ok(Type::Int),
            Value::Null => Ok(Type::Void),
        }
    }

    /// Call arguments checked positionally against declared parameters.
    fn check_call_params(
        &self,
        params: &Vec<Value>,
        decl: &Vec<(String, Type)>,
        i: usize,
        cloc: (usize, usize),
        ret: Type,
    ) -> (r: Result<Type, CompileError>)
        requires
            i <= params.len(),
            params.len() == decl.len(),
        ensures
            res_ty(r) == spec_params_check(
                self@.fns,
                self@.scopes,
                view_values(params@),
                view_params(decl@),
                i as int,
                cloc,
                ret,
            ),
        decreases *params, params.len() - i,
    {
        proof {
            lemma_view_values_index(params@);
            lemma_view_params_index(decl@);
        }
        if i == params.len() {
            Ok(ret)
        } else {
            let t = match self.value_type(&params[i], cloc) {
                Ok(t) => t,
                Err(e) => {
                    return Err(e);
                },
            };
            if t != decl[i].1 {
                Err(CompileError::Type {
                    loc: cloc,
                    kind: TypeKind::Mismatch { expected: decl[i].1, got: t },
                })
            } else {
                self.check_call_params(params, decl, i + 1, cloc, ret)
            }
        }
    }

    /// Both sides of a comparison must have the same type.  Computes
    /// exactly what [`spec_comparison_check`] states.
    pub fn comparison_check(&self, comparison: &Comparison, loc: (usize, usize)) -> (r: Result<
        (),
        CompileError,
    >)
        ensures
            res_unit(r) == spec_comparison_check(
                self@.fns,
                self@.scopes,
                view_cmp(*comparison),
                loc,
            ),
    {
        let lt = match self.value_type(&comparison.l_expr, loc) {
            Ok(t) => t,
            Err(e) => {
                return Err(e);
            },
        };
        let rt = match self.value_type(&comparison.r_expr, loc) {
            Ok(t) => t,
            Err(e) => {
                return Err(e);
            },
        };
        if lt != rt {
            Err(CompileError::Type { loc, kind: TypeKind::Mismatch { expected: lt, got: rt } })
        } else {
            Ok(())
        }
    }

    /// Adds a binding to the innermost frame.
    fn bind(&mut self, name: String, t: Type)
        requires
            old(self).scopes.len() > 0,
        ensures
            final(self)@ == bind_var(old(self)@, name@, t),
            final(self).scopes.len() == old(self).scopes.len(),
    {
        let mut top = match self.scopes.pop() {
            Some(f) => f,
            None => Vec::new(),
        };
        top.push((name, t));
        self.scopes.push(top);
        proof {
            let target = bind_var(old(self)@, name@, t);
            let n = old(self).scopes@.len();
            lemma_view_scope_chain_index(self.scopes@);
            lemma_view_scope_chain_index(old(self).scopes@);
            lemma_view_params_index(self.scopes@[n - 1]@);
            lemma_view_params_index(old(self).scopes@[n - 1]@);
            assert(self.scopes@.len() == n);
            assert(self.scopes@[n - 1]@ =~= old(self).scopes@[n - 1]@.push((name, t)));
            assert(view_params(self.scopes@[n - 1]@) =~= view_params(
                old(self).scopes@[n - 1]@,
            ).push((name@, t)));
            assert(old(self)@.scopes.last() == view_params(old(self).scopes@[n - 1]@));
            assert(self@.scopes =~= target.scopes);
            assert(self@ =~= target);
        }
    }

    /// Checks a statement sequence as one nested scope: a fresh frame is
    /// pushed, the statements are checked in order stopping at the first
    /// failure, and the frame is torn down whether or not checking
    /// succeeded.  Computes exactly what [`spec_check_block`] states.
    pub fn check(&mut self, ast: &Vec<Ast>, nested: bool) -> (r: Result<(), CompileError>)
        ensures
            ({
                let (st, rr) = spec_check_block(old(self)@, view_asts(ast@), nested);
                final(self)@ == st && res_unit(r) == rr
            }),
        decreases *ast, ast.len() + 1, 1int,
    {
        self.scopes.push(Vec::new());
        proof {
            lemma_view_scope_chain_index(self.scopes@);
            lemma_view_scope_chain_index(old(self).scopes@);
            assert(view_params(self.scopes@.last()@) =~= Seq::<(Seq<char>, Type)>::empty());
            assert(self@.scopes =~= push_frame(old(self)@).scopes);
            assert(self@ =~= push_frame(old(self)@));
        }
        let r = self.check_stmts_from(ast, 0, nested);
        let ghost pre_pop = self.scopes@;
        proof {
            lemma_scopes_shape_stmts(push_frame(old(self)@), view_asts(ast@), nested);
            lemma_view_scope_chain_index(pre_pop);
        }
        let _ = self.scopes.pop();
        proof {
            let (st1, rr) = spec_check_stmts(push_frame(old(self)@), view_asts(ast@), nested);
            assert(view_asts(ast@.subrange(0, ast@.len() as int)) == view_asts(ast@)) by {
                assert(ast@.subrange(0, ast@.len() as int) =~= ast@);
            }
            lemma_view_scope_chain_index(self.scopes@);
            lemma_view_scope_chain_index(pre_pop);
            assert(self.scopes@ =~= pre_pop.take(pre_pop.len() - 1));
            assert(self@.scopes =~= pop_frame(st1).scopes);
            assert(self@ =~= pop_frame(st1));
        }
        r
    }

    /// Checks the statements of a run from position `i` on, in order,
    /// inside the current frame.
    fn check_stmts_from(&mut self, ast: &Vec<Ast>, i: usize, nested: bool) -> (r: Result<
        (),
        CompileError,
    >)
        requires
            i <= ast.len(),
            old(self).scopes.len() > 0,
        ensures
            ({
                let (st, rr) = spec_check_stmts(
                    old(self)@,
                    view_asts(ast@.subrange(i as int, ast@.len() as int)),
                    nested,
                );
                final(self)@ == st && res_unit(r) == rr && final(self).scopes.len() == old(
                    self,
                ).scopes.len()
            }),
        decreases *ast, ast.len() - i, 0int,
    {
        proof {
            lemma_view_asts_index(ast@.subrange(i as int, ast@.len() as int));
        }
        if i == ast.len() {
            return Ok(());
        }
        let ghost rest = view_asts(ast@.subrange(i as int, ast@.len() as int));
        proof {
            assert(ast@.subrange(i as int, ast@.len() as int)[0] == ast@[i as int]);
            assert(rest[0] == view_ast(ast@[i as int]));
            assert(ast@.subrange(i as int, ast@.len() as int).drop_first() =~= ast@.subrange(
                i as int + 1,
                ast@.len() as int,
            ));
            assert(rest.drop_first() == view_asts(
                ast@.subrange(i as int + 1, ast@.len() as int),
            ));
        }
        let r = self.check_one(&ast[i], nested);
        match r {
            Err(e) => Err(e),
            Ok(_) => self.check_stmts_from(ast, i + 1, nested),
        }
    }

    /// Checks one statement inside the current frame.
    #[verifier::rlimit(80)]
    fn check_one(&mut self, stmt: &Ast, nested: bool) -> (r: Result<(), CompileError>)
        requires
            old(self).scopes.len() > 0,
        ensures
            ({
                let (st, rr) = spec_check_stmt(old(self)@, view_ast(*stmt), nested);
                final(self)@ == st && res_unit(r) == rr && final(self).scopes.len() == old(
                    self,
                ).scopes.len()
            }),
        decreases *stmt, 2int,
    {
        match stmt {
            Ast::Function { loc, name, param_t, return_t, body } => {
                proof {
                    lemma_view_params_index(param_t@);
                }
                if self.find_function(name).is_some() {
                    return Err(CompileError::Type {
                        loc: *loc,
                        kind: TypeKind::FunctionExists(name.clone()),
                    });
                }
                if param_t.len() > 6 {
                    return Err(CompileError::Type {
                        loc: *loc,
                        kind: TypeKind::TooManyParameters,
                    });
                }
                if nested {
                    return Err(CompileError::Type { loc: *loc, kind: TypeKind::NestedFunction });
                }
                self.scopes.push(Vec::new());
                proof {
                    lemma_view_scope_chain_index(self.scopes@);
                    lemma_view_scope_chain_index(old(self).scopes@);
                    assert(view_params(self.scopes@.last()@) =~= Seq::<
                        (Seq<char>, Type),
                    >::empty());
                    assert(self@.scopes =~= push_frame(old(self)@).scopes);
                    assert(self@ =~= push_frame(old(self)@));
                }
                let ghost st1 = push_frame(old(self)@);
                proof {
                    lemma_view_params_index(param_t@);
                }
                let mut j: usize = 0;
                while j < param_t.len()
                    invariant
                        0 <= j <= param_t.len(),
                        self.scopes.len() > 0,
                        view_params(param_t@).len() == param_t@.len(),
                        forall|x: int| 0 <= x < param_t@.len() ==> view_params(param_t@)[x] == (
                            param_t@[x].0@,
                            param_t@[x].1,
                        ),
                        bind_params(st1, view_params(param_t@), 0) == bind_params(
                            self@,
                            view_params(param_t@),
                            j as int,
                        ),
                        self@.fns == st1.fns,
                        self@.cur == st1.cur,
                    decreases param_t.len() - j,
                {
                    let ghost before = self@;
                    self.bind(param_t[j].0.clone(), param_t[j].1);
                    proof {
                        assert(self@ == bind_var(before, param_t@[j as int].0@, param_t@[
                            j as int
                        ].1));
                        assert(bind_params(before, view_params(param_t@), j as int)
                            == bind_params(self@, view_params(param_t@), j as int + 1));
                    }
                    j = j + 1;
                }
                proof {
                    lemma_view_params_index(param_t@);
                }
                let mut sig_params: Vec<(String, Type)> = Vec::new();
                let mut k: usize = 0;
                while k < param_t.len()
                    invariant
                        0 <= k <= param_t.len(),
                        sig_params@.len() == k as int,
                        view_params(sig_params@) == view_params(
                            param_t@.subrange(0, k as int),
                        ),
                    decreases param_t.len() - k,
                {
                    let ghost sp0 = sig_params@;
                    sig_params.push((param_t[k].0.clone(), param_t[k].1));
                    proof {
                        lemma_view_params_index(sp0);
                        lemma_view_params_index(sig_params@);
                        lemma_view_params_index(param_t@.subrange(0, k as int + 1));
                        lemma_view_params_index(param_t@.subrange(0, k as int));
                        assert forall|x: int| 0 <= x < sig_params@.len() implies view_params(
                            sig_params@,
                        )[x] == view_params(param_t@.subrange(0, k as int + 1))[x] by {
                            assert(param_t@.subrange(0, k as int + 1)[x] == param_t@[x]);
                            if x < k as int {
                                assert(sig_params@[x] == sp0[x]);
                                assert(param_t@.subrange(0, k as int)[x] == param_t@[x]);
                                assert(view_params(param_t@.subrange(0, k as int))[x]
                                    == view_params(sp0)[x]);
                            }
                        }
                        assert(view_params(sig_params@) =~= view_params(
                            param_t@.subrange(0, k as int + 1),
                        ));
                    }
                    k = k + 1;
                }
                proof {
                    assert(param_t@.subrange(0, param_t@.len() as int) =~= param_t@);
                    assert(view_params(sig_params@) == view_params(param_t@));
                }
                let ghost fns_before = self.functions@;
                let sig = FnSig { ret: *return_t, params: sig_params };
                self.functions.push((name.clone(), sig));
                let saved = self.current_fn.take();
                self.current_fn = Some(name.clone());
                proof {
                    lemma_view_fn_table_index(fns_before);
                    lemma_view_fn_table_index(self.functions@);
                    assert(view_fn_table(self.functions@) =~= view_fn_table(fns_before).push(
                        (name@, SigV { ret: *return_t, params: view_params(param_t@) }),
                    ));
                    let st2 = CheckerV {
                        fns: bind_params(st1, view_params(param_t@), 0).fns.push(
                            (name@, SigV { ret: *return_t, params: view_params(param_t@) }),
                        ),
                        cur: Some(name@),
                        ..bind_params(st1, view_params(param_t@), 0)
                    };
                    assert(self@.scopes =~= st2.scopes);
                    assert(self@ =~= st2);
                }
                let r = self.check(body, true);
                let ghost st_mid = self@;
                let ghost pre_pop = self.scopes@;
                proof {
                    let st2 = CheckerV {
                        fns: bind_params(st1, view_params(param_t@), 0).fns.push(
                            (name@, SigV { ret: *return_t, params: view_params(param_t@) }),
                        ),
                        cur: Some(name@),
                        ..bind_params(st1, view_params(param_t@), 0)
                    };
                    lemma_check_block_scopes(st2, view_asts(body@), true);
                    lemma_bind_params_shape(push_frame(old(self)@), view_params(param_t@), 0);
                    lemma_view_scope_chain_index(pre_pop);
                    assert(st_mid.scopes.len() > 0);
                    assert(pre_pop.len() > 0);
                }
                let _ = self.scopes.pop();
                self.current_fn = saved;
                proof {
                    lemma_view_scope_chain_index(pre_pop);
                    lemma_view_scope_chain_index(self.scopes@);
                    lemma_view_scope_chain_index(old(self).scopes@);
                    assert(self.scopes@ =~= pre_pop.take(pre_pop.len() - 1));
                    let st2 = CheckerV {
                        fns: bind_params(st1, view_params(param_t@), 0).fns.push(
                            (name@, SigV { ret: *return_t, params: view_params(param_t@) }),
                        ),
                        cur: Some(name@),
                        ..bind_params(st1, view_params(param_t@), 0)
                    };
                    let (st3, rr) = spec_check_block(st2, view_asts(body@), true);
                    lemma_view_scope_chain_index(self.scopes@);
                    lemma_view_scope_chain_index(old(self).scopes@);
                    assert(st_mid == st3);
                    assert(self@.scopes =~= pop_frame(st3).scopes);
                    assert(self@ =~= CheckerV { cur: old(self)@.cur, ..pop_frame(st3) });
                }
                r
            },
            Ast::Return { loc, value } => {
                let cur = match &self.current_fn {
                    None => {
                        return Err(CompileError::Internal { loc: *loc });
                    },
                    Some(c) => c.clone(),
                };
                let ret = match self.find_function(&cur) {
                    None => {
                        return Err(CompileError::Internal { loc: *loc });
                    },
                    Some(sig) => sig.ret,
                };
                let t = match self.value_type(value, *loc) {
                    Ok(t) => t,
                    Err(e) => {
                        return Err(e);
                    },
                };
                if t != ret {
                    Err(CompileError::Type {
                        loc: *loc,
                        kind: TypeKind::Mismatch { expected: ret, got: t },
                    })
                } else {
                    Ok(())
                }
            },
            Ast::Variable { loc, name, var_t, value } => {
                let vt = match self.value_type(value, *loc) {
                    Ok(t) => t,
                    Err(e) => {
                        return Err(e);
                    },
                };
                if *var_t != vt {
                    return Err(CompileError::Type {
                        loc: *loc,
                        kind: TypeKind::Mismatch { expected: *var_t, got: vt },
                    });
                }
                if self.find_variable(name).is_some() {
                    return Err(CompileError::Type {
                        loc: *loc,
                        kind: TypeKind::VariableExists(name.clone()),
                    });
                }
                self.bind(name.clone(), *var_t);
                Ok(())
            },
            Ast::MutateVar { loc, name, value } => {
                let vt = match self.value_type(value, *loc) {
                    Ok(t) => t,
                    Err(e) => {
                        return Err(e);
                    },
                };
                match self.find_variable(name) {
                    None => Err(CompileError::Type {
                        loc: *loc,
                        kind: TypeKind::UnknownIdentifier(name.clone()),
                    }),
                    Some(t) => if t != vt {
                        Err(CompileError::Type {
                            loc: *loc,
                            kind: TypeKind::Mismatch { expected: t, got: vt },
                        })
                    } else {
                        Ok(())
                    },
                }
            },
            Ast::MutatePtr { loc, ptr_type, ptr, value } => {
                let pt = match self.value_type(ptr, *loc) {
                    Ok(t) => t,
                    Err(e) => {
                        return Err(e);
                    },
                };
                if pt != Type::Ptr {
                    return Err(CompileError::Type {
                        loc: *loc,
                        kind: TypeKind::Mismatch { expected: Type::Ptr, got: pt },
                    });
                }
                let nt = match self.value_type(value, *loc) {
                    Ok(t) => t,
                    Err(e) => {
                        return Err(e);
                    },
                };
                if *ptr_type != nt {
                    Err(CompileError::Type {
                        loc: *loc,
                        kind: TypeKind::Mismatch { expected: *ptr_type, got: nt },
                    })
                } else {
                    Ok(())
                }
            },
            Ast::If { loc, comparison, body, else_body } => {
                match self.comparison_check(comparison, *loc) {
                    Err(e) => {
                        return Err(e);
                    },
                    Ok(_) => {},
                }
                let ghost st0 = self@;
                let r1 = self.check(body, true);
                proof {
                    lemma_check_block_scopes(st0, view_asts(body@), true);
                    lemma_view_scope_chain_index(self.scopes@);
                    lemma_view_scope_chain_index(old(self).scopes@);
                }
                match r1 {
                    Err(e) => {
                        return Err(e);
                    },
                    Ok(_) => {},
                }
                let ghost stm = self@;
                let r2 = self.check(else_body, true);
                proof {
                    lemma_check_block_scopes(stm, view_asts(else_body@), true);
                    lemma_view_scope_chain_index(self.scopes@);
                    lemma_view_scope_chain_index(old(self).scopes@);
                }
                r2
            },
            Ast::While { loc, comparison, body } => {
                match self.comparison_check(comparison, *loc) {
                    Err(e) => {
                        return Err(e);
                    },
                    Ok(_) => {},
                }
                let ghost st0 = self@;
                let r1 = self.check(body, true);
                proof {
                    lemma_check_block_scopes(st0, view_asts(body@), true);
                    lemma_view_scope_chain_index(self.scopes@);
                    lemma_view_scope_chain_index(old(self).scopes@);
                }
                r1
            },
            Ast::InlineAsm { .. } => Ok(()),
        }
    }
}

} // verus!
