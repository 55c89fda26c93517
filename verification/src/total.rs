//! Totality of the code generator: on a tree the type checker accepted,
//! code generation cannot fail, as long as the machine counters fit and
//! every cast or address-of operand is itself well typed.
//!
//! The two caveats are real boundaries of the language, not proof
//! conveniences.  The checker erases a cast without reading its operand
//! and types an address-of as a pointer without reading its operand, so
//! `cast(y, int)` with `y` undeclared type-checks and still stops the
//! generator with an internal error; and the stack cursor and the label
//! counter are machine integers, so a program whose lowering outgrows
//! them is refused at the guard rather than wrapped.  Both boundaries
//! are stated here as hypotheses: a bound on the bytes and labels a
//! lowering can consume, and a predicate asking the erased operands to
//! be well typed too.

use vstd::prelude::*;
use crate::ast::{AstV, ComparisonV, Operator, Type, ValueV, spec_size};
use crate::codegen::{
    CodeGenV, reg_text, slot_lookup, slot_lookup_upto, slots_lookup_upto, spec_arith, spec_bind,
    spec_bind_params, spec_cmp_lower, spec_emit, spec_entry, spec_eval_args, spec_gen_seq,
    spec_gen_stmt, spec_generate_at, spec_force_stack, spec_in_reg, spec_move_args, spec_push,
    spec_release, spec_value,
};
use crate::digits::dec_seq;
use crate::pipeline::{initial_checker, initial_gen};
use crate::typecheck::{
    CheckerV, SigV, bind_params, bind_var, frame_lookup, frame_lookup_upto,
    lemma_bind_params_shape, lemma_scopes_shape_stmt, lookup_fn, lookup_fn_from, lookup_var,
    lookup_var_upto, pop_frame, push_frame, spec_check_block, spec_check_stmt, spec_check_stmts,
    spec_params_check, spec_value_type,
};

verus! {

/// The most bytes the stack cursor can grow by while one expression is
/// lowered: one 8-byte slot per forced temporary, counted over the
/// whole subtree.
pub open spec fn bump_value(v: ValueV) -> nat
    decreases v, 0int,
{
    match v {
        ValueV::BinaryExpr { l_expr, r_expr, .. } => bump_value(*l_expr) + bump_value(*r_expr)
            + 16,
        ValueV::FunctionCall { params, .. } => bump_values(params, 0),
        ValueV::Cast(inner, _) => bump_value(*inner),
        ValueV::Deref(inner, _) => bump_value(*inner),
        ValueV::Ref(inner) => bump_value(*inner),
        _ => 0,
    }
}

/// The cursor growth of an argument run from position `i` on: each
/// argument's own growth plus its stashing slot.
pub open spec fn bump_values(s: Seq<ValueV>, i: int) -> nat
    decreases s, s.len() - i,
{
    if i < 0 || i >= s.len() {
        0
    } else {
        bump_value(s[i]) + 8 + bump_values(s, i + 1)
    }
}

/// The cursor growth of lowering a comparison: both sides and their
/// two stashing slots.
pub open spec fn bump_cmp(c: ComparisonV) -> nat {
    bump_value(c.l_expr) + bump_value(c.r_expr) + 16
}

/// The bytes a parameter run binds, in declaration order.
pub open spec fn param_sizes(params: Seq<(Seq<char>, Type)>, i: int) -> nat
    decreases params.len() - i,
{
    if i < 0 || i >= params.len() {
        0
    } else {
        spec_size(params[i].1) as nat + param_sizes(params, i + 1)
    }
}

/// The most bytes the stack cursor can grow by while one statement is
/// lowered.
pub open spec fn bump_stmt(a: AstV) -> nat
    decreases a, 2int,
{
    match a {
        AstV::Function { param_t, body, .. } => param_sizes(param_t, 0) + bump_seq(body, 0),
        AstV::Return { value, .. } => bump_value(value),
        AstV::Variable { var_t, value, .. } => spec_size(var_t) as nat + bump_value(value),
        AstV::MutateVar { value, .. } => bump_value(value),
        AstV::MutatePtr { ptr, value, .. } => bump_value(value) + bump_value(ptr) + 16,
        AstV::If { comparison, body, else_body, .. } => bump_cmp(comparison) + bump_seq(body, 0)
            + bump_seq(else_body, 0),
        AstV::While { comparison, body, .. } => bump_cmp(comparison) + bump_seq(body, 0),
        AstV::InlineAsm { .. } => 0,
    }
}

/// The cursor growth of a statement run from position `i` on.
pub open spec fn bump_seq(s: Seq<AstV>, i: int) -> nat
    decreases s, 0int, s.len() - i,
{
    if i < 0 || i >= s.len() {
        0
    } else {
        bump_stmt(s[i]) + bump_seq(s, i + 1)
    }
}

/// The basic-block labels one statement can mint: two per `if` or
/// `while`, over the whole subtree.
pub open spec fn labels_stmt(a: AstV) -> nat
    decreases a, 2int,
{
    match a {
        AstV::Function { body, .. } => labels_seq(body, 0),
        AstV::If { body, else_body, .. } => 2 + labels_seq(body, 0) + labels_seq(else_body, 0),
        AstV::While { body, .. } => 2 + labels_seq(body, 0),
        _ => 0,
    }
}

/// The labels a statement run from position `i` on can mint.
pub open spec fn labels_seq(s: Seq<AstV>, i: int) -> nat
    decreases s, 0int, s.len() - i,
{
    if i < 0 || i >= s.len() {
        0
    } else {
        labels_stmt(s[i]) + labels_seq(s, i + 1)
    }
}

/// The checker's scope chain and the generator's frame stack agree:
/// frame for frame, every name the checker can resolve has a slot.
pub open spec fn env_ok(
    scopes: Seq<Seq<(Seq<char>, Type)>>,
    vars: Seq<Seq<(Seq<char>, usize, usize)>>,
) -> bool {
    &&& scopes.len() == vars.len()
    &&& forall|i: int, name: Seq<char>|
        0 <= i < scopes.len() && (#[trigger] frame_lookup_upto(
            scopes[i],
            name,
            scopes[i].len() as int,
        )) is Some ==> slots_lookup_upto(vars[i], name, vars[i].len() as int) is Some
}

/// Every signature in the table declares at most six parameters — the
/// invariant the checker's declaration rule maintains.
pub open spec fn fns_wf(fns: Seq<(Seq<char>, SigV)>) -> bool {
    forall|j: int| 0 <= j < fns.len() ==> (#[trigger] fns[j]).1.params.len() <= 6
}

/// The operands the checker erases are themselves well typed: a cast's
/// operand and an address-of operand must type-check on their own for
/// the generator to resolve the identifiers inside them.  Everything
/// else is what the checker already reads.
pub open spec fn deep_value(
    fns: Seq<(Seq<char>, SigV)>,
    scopes: Seq<Seq<(Seq<char>, Type)>>,
    v: ValueV,
    loc: (usize, usize),
) -> bool
    decreases v, 0int,
{
    match v {
        ValueV::BinaryExpr { loc: bloc, l_expr, r_expr, .. } => deep_value(
            fns,
            scopes,
            *l_expr,
            bloc,
        ) && deep_value(fns, scopes, *r_expr, bloc),
        ValueV::FunctionCall { loc: cloc, params, .. } => deep_values(fns, scopes, params, 0, cloc),
        ValueV::Cast(inner, _) => spec_value_type(fns, scopes, *inner, loc) is Ok && deep_value(
            fns,
            scopes,
            *inner,
            loc,
        ),
        ValueV::Ref(inner) => spec_value_type(fns, scopes, *inner, loc) is Ok && deep_value(
            fns,
            scopes,
            *inner,
            loc,
        ),
        ValueV::Deref(inner, _) => deep_value(fns, scopes, *inner, loc),
        _ => true,
    }
}

/// `deep_value` over an argument run from position `i` on.
pub open spec fn deep_values(
    fns: Seq<(Seq<char>, SigV)>,
    scopes: Seq<Seq<(Seq<char>, Type)>>,
    s: Seq<ValueV>,
    i: int,
    loc: (usize, usize),
) -> bool
    decreases s, s.len() - i,
{
    if i < 0 || i >= s.len() {
        true
    } else {
        deep_value(fns, scopes, s[i], loc) && deep_values(fns, scopes, s, i + 1, loc)
    }
}

/// `deep_value` over one statement, under the checker state the
/// statement is reached in.
pub open spec fn deep_stmt(st: CheckerV, a: AstV, nested: bool) -> bool
    decreases a, 2int,
{
    match a {
        AstV::Function { name, param_t, return_t, body, .. } => {
            let st1 = bind_params(push_frame(st), param_t, 0);
            let st2 = CheckerV {
                fns: st1.fns.push((name, SigV { ret: return_t, params: param_t })),
                cur: Some(name),
                ..st1
            };
            deep_block(st2, body, true)
        },
        AstV::Return { loc, value } => deep_value(st.fns, st.scopes, value, loc),
        AstV::Variable { loc, value, .. } => deep_value(st.fns, st.scopes, value, loc),
        AstV::MutateVar { loc, value, .. } => deep_value(st.fns, st.scopes, value, loc),
        AstV::MutatePtr { loc, ptr, value, .. } => deep_value(st.fns, st.scopes, value, loc)
            && deep_value(st.fns, st.scopes, ptr, loc),
        AstV::If { loc, comparison, body, else_body } => {
            let after = spec_check_block(st, body, true).0;
            deep_value(st.fns, st.scopes, comparison.l_expr, loc) && deep_value(
                st.fns,
                st.scopes,
                comparison.r_expr,
                loc,
            ) && deep_block(st, body, true) && deep_block(after, else_body, true)
        },
        AstV::While { loc, comparison, body } => deep_value(st.fns, st.scopes, comparison.l_expr, loc)
            && deep_value(st.fns, st.scopes, comparison.r_expr, loc) && deep_block(st, body, true),
        AstV::InlineAsm { .. } => true,
    }
}

/// `deep_stmt` over a run, threading the checker state statement by
/// statement.
pub open spec fn deep_stmts(st: CheckerV, stmts: Seq<AstV>, nested: bool) -> bool
    decreases stmts, 0int, 0int,
{
    if stmts.len() == 0 {
        true
    } else {
        deep_stmt(st, stmts[0], nested) && deep_stmts(
            spec_check_stmt(st, stmts[0], nested).0,
            stmts.drop_first(),
            nested,
        )
    }
}

/// `deep_stmts` under the fresh frame a block opens.
pub open spec fn deep_block(st: CheckerV, stmts: Seq<AstV>, nested: bool) -> bool
    decreases stmts, 1int, 0int,
{
    deep_stmts(push_frame(st), stmts, nested)
}

/// A signature found in a well-formed table declares at most six
/// parameters.
proof fn lemma_lookup_fn_wf(fns: Seq<(Seq<char>, SigV)>, name: Seq<char>, i: int)
    requires
        fns_wf(fns),
        lookup_fn_from(fns, name, i) is Some,
    ensures
        lookup_fn_from(fns, name, i)->Some_0.params.len() <= 6,
    decreases fns.len() - i,
{
    if 0 <= i < fns.len() && fns[i].0 != name {
        lemma_lookup_fn_wf(fns, name, i + 1);
    }
}

/// Pushing a binding on a checker frame leaves every earlier lookup
/// prefix unchanged.
proof fn lemma_frame_lookup_push(
    f: Seq<(Seq<char>, Type)>,
    e: (Seq<char>, Type),
    name: Seq<char>,
    i: int,
)
    requires
        0 <= i <= f.len(),
    ensures
        frame_lookup_upto(f.push(e), name, i) == frame_lookup_upto(f, name, i),
    decreases i,
{
    if i > 0 {
        lemma_frame_lookup_push(f, e, name, i - 1);
    }
}

/// Pushing a binding on a generator frame leaves every earlier lookup
/// prefix unchanged.
proof fn lemma_slots_lookup_push(
    f: Seq<(Seq<char>, usize, usize)>,
    e: (Seq<char>, usize, usize),
    name: Seq<char>,
    i: int,
)
    requires
        0 <= i <= f.len(),
    ensures
        slots_lookup_upto(f.push(e), name, i) == slots_lookup_upto(f, name, i),
    decreases i,
{
    if i > 0 {
        lemma_slots_lookup_push(f, e, name, i - 1);
    }
}

/// Under agreeing environments, a name the checker resolves in the
/// first `i` frames has a slot in the first `i` frames.
proof fn lemma_env_lookup_upto(
    scopes: Seq<Seq<(Seq<char>, Type)>>,
    vars: Seq<Seq<(Seq<char>, usize, usize)>>,
    name: Seq<char>,
    i: int,
)
    requires
        env_ok(scopes, vars),
        lookup_var_upto(scopes, name, i) is Some,
        i <= scopes.len(),
    ensures
        slot_lookup_upto(vars, name, i) is Some,
    decreases i,
{
    if 0 < i <= scopes.len() {
        if frame_lookup(scopes[i - 1], name) is Some {
            assert(frame_lookup_upto(scopes[i - 1], name, scopes[i - 1].len() as int) is Some);
        } else {
            lemma_env_lookup_upto(scopes, vars, name, i - 1);
        }
    }
}

/// Under agreeing environments, every name the checker resolves has a
/// slot.
proof fn lemma_env_lookup(
    scopes: Seq<Seq<(Seq<char>, Type)>>,
    vars: Seq<Seq<(Seq<char>, usize, usize)>>,
    name: Seq<char>,
)
    requires
        env_ok(scopes, vars),
        lookup_var(scopes, name) is Some,
    ensures
        slot_lookup(vars, name) is Some,
{
    lemma_env_lookup_upto(scopes, vars, name, scopes.len() as int);
}

/// Binding the same name on both innermost frames keeps the
/// environments agreeing.
proof fn lemma_env_bind(
    scopes: Seq<Seq<(Seq<char>, Type)>>,
    vars: Seq<Seq<(Seq<char>, usize, usize)>>,
    name: Seq<char>,
    t: Type,
    off: usize,
    size: usize,
)
    requires
        env_ok(scopes, vars),
        scopes.len() > 0,
    ensures
        env_ok(
            scopes.update(scopes.len() - 1, scopes.last().push((name, t))),
            vars.update(vars.len() - 1, vars.last().push((name, off, size))),
        ),
{
    let scopes2 = scopes.update(scopes.len() - 1, scopes.last().push((name, t)));
    let vars2 = vars.update(vars.len() - 1, vars.last().push((name, off, size)));
    assert forall|i: int, x: Seq<char>|
        0 <= i < scopes2.len() && (#[trigger] frame_lookup_upto(
            scopes2[i],
            x,
            scopes2[i].len() as int,
        )) is Some implies slots_lookup_upto(vars2[i], x, vars2[i].len() as int) is Some by {
        if i < scopes.len() - 1 {
            assert(frame_lookup_upto(scopes[i], x, scopes[i].len() as int) is Some);
        } else {
            let f = scopes.last();
            let vf = vars.last();
            if x == name {
                assert(slots_lookup_upto(vf.push((name, off, size)), x, vf.len() as int + 1)
                    is Some);
            } else {
                lemma_frame_lookup_push(f, (name, t), x, f.len() as int);
                assert(frame_lookup_upto(f, x, f.len() as int) is Some);
                assert(slots_lookup_upto(vf, x, vf.len() as int) is Some);
                lemma_slots_lookup_push(vf, (name, off, size), x, vf.len() as int);
            }
        }
    }
}

/// Moving stashed arguments into registers only appends output lines.
proof fn lemma_move_args_shape(g: CodeGenV, offs: Seq<usize>, i: int)
    ensures
        ({
            let g1 = spec_move_args(g, offs, i);
            &&& g1.vars == g.vars
            &&& g1.strings == g.strings
            &&& g1.block_count == g.block_count
            &&& g1.stack_offset == g.stack_offset
            &&& g1.cur == g.cur
        }),
    decreases offs.len() - i,
{
    if 0 <= i < offs.len() {
        lemma_move_args_shape(
            spec_emit(g, "    mov "@ + reg_text(i) + ", [rbp-"@ + dec_seq(offs[i] as nat) + "]"@),
            offs,
            i + 1,
        );
    }
}

/// The accumulator instructions of a binary operator only append
/// output lines.
proof fn lemma_arith_shape(g: CodeGenV, op: Operator, r_off: usize)
    ensures
        ({
            let g1 = spec_arith(g, op, r_off);
            &&& g1.vars == g.vars
            &&& g1.strings == g.strings
            &&& g1.block_count == g.block_count
            &&& g1.stack_offset == g.stack_offset
            &&& g1.cur == g.cur
        }),
{
    match op {
        Operator::Plus => {},
        Operator::Minus => {},
        Operator::Multiplication => {},
        Operator::Divide => {},
    }
}

/// Lowering one expression cannot fail when the expression type-checks,
/// its erased operands type-check too, the environments agree and the
/// cursor has room; the frames, the label counter and the current
/// function survive, and the cursor grows by at most the expression's
/// measure.
pub proof fn lemma_value_total(
    fns: Seq<(Seq<char>, SigV)>,
    scopes: Seq<Seq<(Seq<char>, Type)>>,
    g: CodeGenV,
    v: ValueV,
    loc: (usize, usize),
)
    requires
        spec_value_type(fns, scopes, v, loc) is Ok,
        deep_value(fns, scopes, v, loc),
        fns_wf(fns),
        env_ok(scopes, g.vars),
        g.stack_offset + bump_value(v) <= usize::MAX,
    ensures
        ({
            let (g1, r) = spec_value(g, v);
            &&& r is Ok
            &&& g1.vars == g.vars
            &&& g1.block_count == g.block_count
            &&& g1.cur == g.cur
            &&& g1.stack_offset <= g.stack_offset + bump_value(v)
        }),
    decreases v, 0int,
{
    match v {
        ValueV::BinaryExpr { loc: bloc, l_expr, r_expr, op } => {
            lemma_value_total(fns, scopes, g, *l_expr, bloc);
            let (g1, rl) = spec_value(g, *l_expr);
            lemma_value_total(fns, scopes, g1, *r_expr, bloc);
            let (g2, rr) = spec_value(g1, *r_expr);
            let g3 = spec_emit(g2, "    ;; -- BINARY EXPRESSION --"@);
            let (g4, _) = spec_force_stack(g3, rl->Ok_0);
            let (g5, _) = spec_force_stack(g4, rr->Ok_0);
            let g6 = spec_emit(g5, "    mov rax, [rbp-"@ + dec_seq(
                spec_force_stack(g3, rl->Ok_0).1->Ok_0 as nat,
            ) + "]"@);
            lemma_arith_shape(g6, op, spec_force_stack(g4, rr->Ok_0).1->Ok_0);
        },
        ValueV::FunctionCall { loc: cloc, name, params } => {
            let sig = lookup_fn(fns, name)->Some_0;
            lemma_lookup_fn_wf(fns, name, 0);
            let g1 = spec_emit(g, "    ;; -- FUNCTION CALL --"@);
            lemma_eval_args_total(fns, scopes, params, sig.params, 0, cloc, sig.ret, g1);
            let (g2, ra) = spec_eval_args(g1, params, 0);
            lemma_move_args_shape(g2, ra->Ok_0, 0);
        },
        ValueV::Cast(inner, _) => {
            lemma_value_total(fns, scopes, g, *inner, loc);
        },
        ValueV::Deref(inner, _) => {
            let g1 = spec_emit(g, "    ;; -- DEREFERENCE --"@);
            lemma_value_total(fns, scopes, g1, *inner, loc);
        },
        ValueV::Ref(inner) => {
            let g1 = spec_emit(g, "    ;; -- REFERENCE --"@);
            lemma_value_total(fns, scopes, g1, *inner, loc);
        },
        ValueV::Ident(name) => {
            lemma_env_lookup(scopes, g.vars, name);
        },
        _ => {},
    }
}

/// Evaluating and stashing an argument run cannot fail when every
/// argument type-checks against its declared parameter.
pub proof fn lemma_eval_args_total(
    fns: Seq<(Seq<char>, SigV)>,
    scopes: Seq<Seq<(Seq<char>, Type)>>,
    params: Seq<ValueV>,
    decl: Seq<(Seq<char>, Type)>,
    i: int,
    cloc: (usize, usize),
    ret: Type,
    g: CodeGenV,
)
    requires
        0 <= i,
        params.len() == decl.len(),
        spec_params_check(fns, scopes, params, decl, i, cloc, ret) is Ok,
        deep_values(fns, scopes, params, i, cloc),
        fns_wf(fns),
        env_ok(scopes, g.vars),
        g.stack_offset + bump_values(params, i) <= usize::MAX,
    ensures
        ({
            let (g1, r) = spec_eval_args(g, params, i);
            &&& r is Ok
            &&& g1.vars == g.vars
            &&& g1.block_count == g.block_count
            &&& g1.cur == g.cur
            &&& g1.stack_offset <= g.stack_offset + bump_values(params, i)
        }),
    decreases params, params.len() - i,
{
    if i < params.len() {
        lemma_value_total(fns, scopes, g, params[i], cloc);
        let (g1, _) = spec_value(g, params[i]);
        let (g2, _) = spec_force_stack(g1, spec_value(g, params[i]).1->Ok_0);
        lemma_eval_args_total(fns, scopes, params, decl, i + 1, cloc, ret, g2);
    }
}

/// Lowering a comparison cannot fail when both sides type-check and
/// their erased operands do too; the cursor comes back where it was.
pub proof fn lemma_cmp_total(
    fns: Seq<(Seq<char>, SigV)>,
    scopes: Seq<Seq<(Seq<char>, Type)>>,
    g: CodeGenV,
    c: ComparisonV,
    loc: (usize, usize),
)
    requires
        spec_value_type(fns, scopes, c.l_expr, loc) is Ok,
        spec_value_type(fns, scopes, c.r_expr, loc) is Ok,
        deep_value(fns, scopes, c.l_expr, loc),
        deep_value(fns, scopes, c.r_expr, loc),
        fns_wf(fns),
        env_ok(scopes, g.vars),
        g.stack_offset + bump_cmp(c) <= usize::MAX,
    ensures
        ({
            let (g1, r) = spec_cmp_lower(g, c);
            &&& r is Ok
            &&& g1.vars == g.vars
            &&& g1.block_count == g.block_count
            &&& g1.cur == g.cur
            &&& g1.stack_offset == g.stack_offset
        }),
{
    lemma_value_total(fns, scopes, g, c.l_expr, loc);
    let (g1, rl) = spec_value(g, c.l_expr);
    lemma_value_total(fns, scopes, g1, c.r_expr, loc);
}

/// An empty frame pushed on both sides keeps the environments
/// agreeing.
proof fn lemma_env_push(
    scopes: Seq<Seq<(Seq<char>, Type)>>,
    vars: Seq<Seq<(Seq<char>, usize, usize)>>,
)
    requires
        env_ok(scopes, vars),
    ensures
        env_ok(scopes.push(Seq::empty()), vars.push(Seq::empty())),
{
    let s2 = scopes.push(Seq::empty());
    let v2 = vars.push(Seq::empty());
    assert forall|i: int, x: Seq<char>|
        0 <= i < s2.len() && (#[trigger] frame_lookup_upto(s2[i], x, s2[i].len() as int)) is Some
        implies slots_lookup_upto(v2[i], x, v2[i].len() as int) is Some by {
        if i < scopes.len() {
            assert(frame_lookup_upto(scopes[i], x, scopes[i].len() as int) is Some);
        }
    }
}

/// The innermost frame torn down on both sides keeps the environments
/// agreeing.
proof fn lemma_env_drop(
    scopes: Seq<Seq<(Seq<char>, Type)>>,
    vars: Seq<Seq<(Seq<char>, usize, usize)>>,
)
    requires
        env_ok(scopes, vars),
        scopes.len() > 0,
    ensures
        env_ok(scopes.drop_last(), vars.drop_last()),
{
    let s2 = scopes.drop_last();
    let v2 = vars.drop_last();
    assert forall|i: int, x: Seq<char>|
        0 <= i < s2.len() && (#[trigger] frame_lookup_upto(s2[i], x, s2[i].len() as int)) is Some
        implies slots_lookup_upto(v2[i], x, v2[i].len() as int) is Some by {
        assert(s2[i] == scopes[i]);
        assert(v2[i] == vars[i]);
        assert(frame_lookup_upto(scopes[i], x, scopes[i].len() as int) is Some);
    }
}

/// Binding a parameter run on both sides cannot fail while the cursor
/// has room, and keeps the environments agreeing.
proof fn lemma_bind_params_total(st: CheckerV, g: CodeGenV, params: Seq<(Seq<char>, Type)>, i: int)
    requires
        env_ok(st.scopes, g.vars),
        st.scopes.len() > 0,
        0 <= i,
        g.stack_offset + param_sizes(params, i) <= usize::MAX,
    ensures
        ({
            let (g1, r) = spec_bind_params(g, params, i);
            let st1 = bind_params(st, params, i);
            &&& r is Ok
            &&& env_ok(st1.scopes, g1.vars)
            &&& st1.scopes.len() == st.scopes.len()
            &&& g1.stack_offset <= g.stack_offset + param_sizes(params, i)
            &&& g1.block_count == g.block_count
            &&& g1.cur == g.cur
        }),
    decreases params.len() - i,
{
    if i < params.len() {
        let size = spec_size(params[i].1);
        let off = (g.stack_offset + size) as usize;
        let g1 = spec_emit(
            CodeGenV { stack_offset: off, ..g },
            "    mov [rbp-"@ + dec_seq(off as nat) + "], "@ + reg_text(i),
        );
        lemma_env_bind(st.scopes, g1.vars, params[i].0, params[i].1, off, size);
        let st0 = bind_var(st, params[i].0, params[i].1);
        let g2 = spec_bind(g1, params[i].0, off, size);
        assert(st0.scopes == st.scopes.update(
            st.scopes.len() - 1,
            st.scopes.last().push((params[i].0, params[i].1)),
        ));
        assert(g2.vars == g1.vars.update(
            g1.vars.len() - 1,
            g1.vars.last().push((params[i].0, off, size)),
        ));
        lemma_bind_params_total(st0, g2, params, i + 1);
    }
}

/// `spec_gen_seq` from position `i + 1` is `spec_gen_seq` of the run
/// without its first statement, from position `i`.
proof fn lemma_gen_seq_shift(g: CodeGenV, stmts: Seq<AstV>, i: int)
    requires
        0 <= i,
        stmts.len() > 0,
    ensures
        spec_gen_seq(g, stmts, i + 1) == spec_gen_seq(g, stmts.drop_first(), i),
    decreases stmts.len() - i,
{
    if i + 1 < stmts.len() {
        assert(stmts.drop_first()[i] == stmts[i + 1]);
        let (g1, r) = spec_gen_stmt(g, stmts[i + 1]);
        if r is Ok {
            lemma_gen_seq_shift(g1, stmts, i + 1);
        }
    }
}

/// The cursor measure of a run without its first statement.
proof fn lemma_bump_shift(stmts: Seq<AstV>, i: int)
    requires
        0 <= i,
        stmts.len() > 0,
    ensures
        bump_seq(stmts, i + 1) == bump_seq(stmts.drop_first(), i),
    decreases stmts.len() - i,
{
    if i + 1 < stmts.len() {
        assert(stmts.drop_first()[i] == stmts[i + 1]);
        lemma_bump_shift(stmts, i + 1);
    }
}

/// The label measure of a run without its first statement.
proof fn lemma_labels_shift(stmts: Seq<AstV>, i: int)
    requires
        0 <= i,
        stmts.len() > 0,
    ensures
        labels_seq(stmts, i + 1) == labels_seq(stmts.drop_first(), i),
    decreases stmts.len() - i,
{
    if i + 1 < stmts.len() {
        assert(stmts.drop_first()[i] == stmts[i + 1]);
        lemma_labels_shift(stmts, i + 1);
    }
}

/// Lowering one statement cannot fail when it type-checks, its erased
/// operands type-check too, the environments agree and the counters
/// have room; afterwards the environments agree again.
#[verifier::rlimit(100)]
pub proof fn lemma_stmt_total(st: CheckerV, g: CodeGenV, a: AstV, nested: bool)
    requires
        spec_check_stmt(st, a, nested).1 is Ok,
        deep_stmt(st, a, nested),
        fns_wf(st.fns),
        env_ok(st.scopes, g.vars),
        st.scopes.len() > 0,
        g.stack_offset + bump_stmt(a) <= usize::MAX,
        g.block_count + labels_stmt(a) <= usize::MAX,
    ensures
        ({
            let (g1, r) = spec_gen_stmt(g, a);
            let st1 = spec_check_stmt(st, a, nested).0;
            &&& r is Ok
            &&& env_ok(st1.scopes, g1.vars)
            &&& fns_wf(st1.fns)
            &&& g1.stack_offset <= g.stack_offset + bump_stmt(a)
            &&& g.block_count <= g1.block_count <= g.block_count + labels_stmt(a)
            &&& g1.cur == g.cur
        }),
    decreases a, 2int, 0int,
{
    lemma_scopes_shape_stmt(st, a, nested);
    match a {
        AstV::Function { loc, name, param_t, return_t, body } => {
            let g4 = spec_emit(
                spec_emit(
                    spec_emit(spec_emit(g, "    ;; -- FUNCTION --"@), name + ":"@),
                    "    push rbp"@,
                ),
                "    mov rbp, rsp"@,
            );
            let g5 = CodeGenV { cur: name, ..spec_push(g4) };
            let stp = push_frame(st);
            lemma_env_push(st.scopes, g.vars);
            lemma_bind_params_total(stp, g5, param_t, 0);
            let st1 = bind_params(stp, param_t, 0);
            let (g6, _) = spec_bind_params(g5, param_t, 0);
            let st2 = CheckerV {
                fns: st1.fns.push((name, SigV { ret: return_t, params: param_t })),
                cur: Some(name),
                ..st1
            };
            lemma_bind_params_shape(stp, param_t, 0);
            assert(fns_wf(st2.fns)) by {
                assert(forall|j: int| 0 <= j < st.fns.len() ==> st2.fns[j] == st.fns[j]);
            }
            lemma_block_total(st2, g6, body, true);
            let (st3, _) = spec_check_block(st2, body, true);
            let (g7, _) = spec_generate_at(g6, body, false);
            let g10 = spec_emit(
                spec_emit(spec_emit(g7, name + "_ret:"@), "    pop rbp"@),
                "    ret"@,
            );
            lemma_env_drop(st3.scopes, g7.vars);
            assert(pop_frame(st3).scopes == st3.scopes.drop_last());
            assert(spec_release(g10).vars == g10.vars.drop_last());
        },
        AstV::Return { loc, value } => {
            let g1 = spec_emit(g, "    ;; -- RETURN --"@);
            lemma_value_total(st.fns, st.scopes, g1, value, loc);
        },
        AstV::Variable { loc, name, var_t, value } => {
            let size = spec_size(var_t);
            let off = (g.stack_offset + size) as usize;
            let g1 = spec_emit(CodeGenV { stack_offset: off, ..g }, "    ;; -- VARIABLE --"@);
            lemma_value_total(st.fns, st.scopes, g1, value, loc);
            let (g2, rv) = spec_value(g1, value);
            let (g3, regt) = spec_in_reg(g2, rv->Ok_0);
            let g4 = spec_emit(g3, "    mov qword [rbp-"@ + dec_seq(off as nat) + "], "@ + regt);
            lemma_env_bind(st.scopes, g4.vars, name, var_t, off, size);
        },
        AstV::MutateVar { loc, name, value } => {
            let g1 = spec_emit(g, "    ;; -- MUTATE VARIABLE --"@);
            lemma_value_total(st.fns, st.scopes, g1, value, loc);
            let (g2, rv) = spec_value(g1, value);
            let (g3, regt) = spec_in_reg(g2, rv->Ok_0);
            lemma_env_lookup(st.scopes, g3.vars, name);
        },
        AstV::MutatePtr { loc, ptr_type, ptr, value } => {
            let g1 = spec_emit(g, "    ;; -- MUTATE POINTER --"@);
            lemma_value_total(st.fns, st.scopes, g1, value, loc);
            let (g2, _) = spec_value(g1, value);
            lemma_value_total(st.fns, st.scopes, g2, ptr, loc);
        },
        AstV::If { loc, comparison, body, else_body } => {
            let false_label = (g.block_count + 1) as usize;
            let join_label = (g.block_count + 2) as usize;
            let g1 = spec_emit(CodeGenV { block_count: join_label, ..g }, "    ;; -- IF --"@);
            lemma_cmp_total(st.fns, st.scopes, g1, comparison, loc);
            let (g2, rj) = spec_cmp_lower(g1, comparison);
            let g3 = spec_emit(g2, "    "@ + rj->Ok_0 + " BB_"@ + dec_seq(false_label as nat));
            lemma_block_total(st, g3, body, true);
            let (st1, _) = spec_check_block(st, body, true);
            let (g4, _) = spec_generate_at(g3, body, false);
            let g6 = spec_emit(
                spec_emit(g4, "    jmp BB_"@ + dec_seq(join_label as nat)),
                "BB_"@ + dec_seq(false_label as nat) + ":"@,
            );
            lemma_block_total(st1, g6, else_body, true);
        },
        AstV::While { loc, comparison, body } => {
            let entry_label = (g.block_count + 1) as usize;
            let exit_label = (g.block_count + 2) as usize;
            let g2 = spec_emit(
                spec_emit(CodeGenV { block_count: exit_label, ..g }, "    ;; -- WHILE --"@),
                "BB_"@ + dec_seq(entry_label as nat) + ":"@,
            );
            lemma_cmp_total(st.fns, st.scopes, g2, comparison, loc);
            let (g3, rj) = spec_cmp_lower(g2, comparison);
            let g4 = spec_emit(g3, "    "@ + rj->Ok_0 + " BB_"@ + dec_seq(exit_label as nat));
            lemma_block_total(st, g4, body, true);
        },
        AstV::InlineAsm { .. } => {},
    }
}

/// Lowering a statement run cannot fail when every statement checks in
/// turn.
pub proof fn lemma_seq_total(st: CheckerV, g: CodeGenV, stmts: Seq<AstV>, nested: bool)
    requires
        spec_check_stmts(st, stmts, nested).1 is Ok,
        deep_stmts(st, stmts, nested),
        fns_wf(st.fns),
        env_ok(st.scopes, g.vars),
        st.scopes.len() > 0,
        g.stack_offset + bump_seq(stmts, 0) <= usize::MAX,
        g.block_count + labels_seq(stmts, 0) <= usize::MAX,
    ensures
        ({
            let (g1, r) = spec_gen_seq(g, stmts, 0);
            let st1 = spec_check_stmts(st, stmts, nested).0;
            &&& r is Ok
            &&& env_ok(st1.scopes, g1.vars)
            &&& fns_wf(st1.fns)
            &&& st1.scopes.len() == st.scopes.len()
            &&& g1.stack_offset <= g.stack_offset + bump_seq(stmts, 0)
            &&& g.block_count <= g1.block_count <= g.block_count + labels_seq(stmts, 0)
            &&& g1.cur == g.cur
        }),
    decreases stmts, 0int, 0int,
{
    if stmts.len() > 0 {
        lemma_stmt_total(st, g, stmts[0], nested);
        lemma_scopes_shape_stmt(st, stmts[0], nested);
        let (st0, _) = spec_check_stmt(st, stmts[0], nested);
        let (g1, _) = spec_gen_stmt(g, stmts[0]);
        lemma_gen_seq_shift(g1, stmts, 0);
        lemma_bump_shift(stmts, 0);
        lemma_labels_shift(stmts, 0);
        lemma_seq_total(st0, g1, stmts.drop_first(), nested);
    }
}

/// Lowering a whole block cannot fail when it checks as a block.
pub proof fn lemma_block_total(st: CheckerV, g: CodeGenV, stmts: Seq<AstV>, nested: bool)
    requires
        spec_check_block(st, stmts, nested).1 is Ok,
        deep_block(st, stmts, nested),
        fns_wf(st.fns),
        env_ok(st.scopes, g.vars),
        g.stack_offset + bump_seq(stmts, 0) <= usize::MAX,
        g.block_count + labels_seq(stmts, 0) <= usize::MAX,
    ensures
        ({
            let (g1, r) = spec_generate_at(g, stmts, false);
            let st1 = spec_check_block(st, stmts, nested).0;
            &&& r is Ok
            &&& env_ok(st1.scopes, g1.vars)
            &&& fns_wf(st1.fns)
            &&& st1.scopes.len() == st.scopes.len()
            &&& g1.stack_offset <= g.stack_offset + bump_seq(stmts, 0)
            &&& g.block_count <= g1.block_count <= g.block_count + labels_seq(stmts, 0)
            &&& g1.cur == g.cur
        }),
    decreases stmts, 1int, 0int,
{
    lemma_env_push(st.scopes, g.vars);
    lemma_seq_total(push_frame(st), spec_push(g), stmts, nested);
    let (stp, _) = spec_check_stmts(push_frame(st), stmts, nested);
    let (gp, _) = spec_gen_seq(spec_push(g), stmts, 0);
    lemma_env_drop(stp.scopes, gp.vars);
    assert(pop_frame(stp).scopes == stp.scopes.drop_last());
    assert(spec_release(gp).vars == gp.vars.drop_last());
}

/// Code generation cannot fail on a tree the type checker accepted, as
/// long as every cast or address-of operand is itself well typed and
/// the stack cursor and label counter fit the machine.  The first
/// hypothesis is the checker's verdict; the second closes the
/// checker's deliberate blind spot (`cast(y, int)` with `y` undeclared
/// type-checks and still stops the generator); the last two bound what
/// the lowering can consume.
pub proof fn lemma_generate_total(stmts: Seq<AstV>, entry: bool)
    requires
        spec_check_block(initial_checker(), stmts, false).1 is Ok,
        deep_block(initial_checker(), stmts, false),
        bump_seq(stmts, 0) <= usize::MAX,
        1 + labels_seq(stmts, 0) <= usize::MAX,
    ensures
        spec_generate_at(initial_gen(), stmts, entry).1 is Ok,
{
    let g0 = if entry {
        spec_entry(initial_gen())
    } else {
        initial_gen()
    };
    assert(env_ok(initial_checker().scopes, g0.vars));
    lemma_env_push(initial_checker().scopes, g0.vars);
    lemma_seq_total(push_frame(initial_checker()), spec_push(g0), stmts, false);
}

} // verus!
