//! The code generator.
//!
//! It walks an assumed well-typed statement tree and emits assembly text
//! line by line: a program preamble, one label block per function with
//! explicit stack-frame push and pop, per-expression lowering into a
//! fixed instruction pattern, and a trailing writable data segment with
//! one entry per interned string literal, in encounter order.
//!
//! Every function is equated with a spec mirror ([`spec_value`],
//! [`spec_gen_stmt`], [`spec_generate_at`] and their helpers): the
//! contract states the exact lines emitted, the literals interned, the
//! bindings made, the counters moved and the precise outcome, so the
//! emitted program is fixed by the contracts alone.  Two properties the
//! lowering is built on are also stated on their own: string literals
//! are interned in evaluation order, each receiving the next index, and
//! every conditional branch uses the jump mnemonic that is the logical
//! negation of the source comparison, because branch bodies are emitted
//! as "skip if the condition fails".

use vstd::prelude::*;
use crate::ast::{
    Ast, AstV, Comparison, ComparisonOp, ComparisonV, Operator, Type, Value, ValueV, spec_size,
    view_ast, view_asts, view_cmp, view_params, view_value, view_values, lemma_view_asts_index,
    lemma_view_params_index, lemma_view_values_index,
};
use crate::diag::{CompileError, CompileErrorV, res_plain, res_unit, view_err};
use crate::digits::{dec_seq, fmt_usize};
use crate::escape::{escape_asm, output_string_asm};

verus! {

broadcast use vstd::std_specs::vec::group_vec_axioms;

/// The registers an expression result can land in.
#[derive(Clone, Copy, PartialEq, Eq, Structural, Debug)]
pub enum Reg {
    Rax,
    Rbx,
}

/// Where a lowered expression's value lives: a register, an immediate,
/// a reference to an interned literal, a stack slot at a frame-relative
/// offset, or the void sentinel.
#[derive(Clone, Copy, PartialEq, Eq, Structural, Debug)]
pub enum Operand {
    Reg(Reg),
    Imm(usize),
    StrRef(usize),
    Stack(usize),
    Null,
}

/// The conditional jump mnemonics the lowering emits.
#[derive(Clone, Copy, PartialEq, Eq, Structural, Debug)]
pub enum Jump {
    Jne,
    Je,
    Jle,
    Jg,
}

/// The spelling of a jump mnemonic.
pub open spec fn jump_text(j: Jump) -> Seq<char> {
    match j {
        Jump::Jne => "jne"@,
        Jump::Je => "je"@,
        Jump::Jle => "jle"@,
        Jump::Jg => "jg"@,
    }
}

/// The jump emitted for a source comparison: always the mnemonic that
/// fires when the source comparison is false, because the generated
/// branch jumps past the guarded body.
pub open spec fn inverted_jump(op: ComparisonOp) -> Jump {
    match op {
        ComparisonOp::Equal => Jump::Jne,
        ComparisonOp::NotEqual => Jump::Je,
        ComparisonOp::Bigger => Jump::Jle,
        ComparisonOp::Smaller => Jump::Jg,
    }
}

/// What a source comparison means on two integer values.
pub open spec fn cmp_holds(op: ComparisonOp, a: int, b: int) -> bool {
    match op {
        ComparisonOp::Equal => a == b,
        ComparisonOp::NotEqual => a != b,
        ComparisonOp::Bigger => a > b,
        ComparisonOp::Smaller => a < b,
    }
}

/// When a conditional jump fires, given the two compared values.
pub open spec fn jump_taken(j: Jump, a: int, b: int) -> bool {
    match j {
        Jump::Jne => a != b,
        Jump::Je => a == b,
        Jump::Jle => a <= b,
        Jump::Jg => a > b,
    }
}

/// Comparison inversion law: the emitted conditional jump fires exactly
/// when the source comparison is false, so the guarded body is skipped
/// only when the source condition fails.  The one boundary this lowering
/// misses is a less-than comparison of two equal values: there the
/// emitted jump-if-greater does not fire although the source condition
/// is false, so that input is left out here.
pub proof fn lemma_comparison_inversion(op: ComparisonOp, a: int, b: int)
    requires
        !(op == ComparisonOp::Smaller && a == b),
    ensures
        jump_taken(inverted_jump(op), a, b) == !cmp_holds(op, a, b),
{
    if op == ComparisonOp::Equal {
        assert(jump_taken(inverted_jump(op), a, b) == (a != b));
        assert(!cmp_holds(op, a, b) == (a != b));
    } else if op == ComparisonOp::NotEqual {
        assert(jump_taken(inverted_jump(op), a, b) == (a == b));
        assert(!cmp_holds(op, a, b) == (a == b));
    } else if op == ComparisonOp::Bigger {
        assert(jump_taken(inverted_jump(op), a, b) == (a <= b));
        assert(!cmp_holds(op, a, b) == (a <= b));
    } else {
        assert(op == ComparisonOp::Smaller);
        assert(a != b);
        assert(jump_taken(inverted_jump(op), a, b) == (a > b));
        assert(!cmp_holds(op, a, b) == (a >= b));
    }
}

/// The string literals an expression interns, in evaluation order.
pub open spec fn lits_value(v: ValueV) -> Seq<Seq<char>>
    decreases v, 0int,
{
    match v {
        ValueV::BinaryExpr { l_expr, r_expr, .. } => lits_value(*l_expr) + lits_value(*r_expr),
        ValueV::FunctionCall { params, .. } => lits_values(params, 0),
        ValueV::Cast(inner, _) => lits_value(*inner),
        ValueV::Deref(inner, _) => lits_value(*inner),
        ValueV::Ref(inner) => lits_value(*inner),
        ValueV::Str(s) => seq![s],
        _ => Seq::empty(),
    }
}

/// The literals of an argument list from position `i` on, left to right.
pub open spec fn lits_values(s: Seq<ValueV>, i: int) -> Seq<Seq<char>>
    decreases s, 1int, s.len() - i,
{
    if i < 0 || i >= s.len() {
        Seq::empty()
    } else {
        lits_value(s[i]) + lits_values(s, i + 1)
    }
}

/// The literals of a comparison: left side first.
pub open spec fn lits_cmp(c: ComparisonV) -> Seq<Seq<char>> {
    lits_value(c.l_expr) + lits_value(c.r_expr)
}

/// The literals a statement interns, in emission order.
pub open spec fn lits_ast(a: AstV) -> Seq<Seq<char>>
    decreases a, 0int,
{
    match a {
        AstV::Function { body, .. } => lits_asts(body, 0),
        AstV::Return { value, .. } => lits_value(value),
        AstV::Variable { value, .. } => lits_value(value),
        AstV::MutateVar { value, .. } => lits_value(value),
        AstV::MutatePtr { ptr, value, .. } => lits_value(value) + lits_value(ptr),
        AstV::If { comparison, body, else_body, .. } => lits_cmp(comparison) + lits_asts(body, 0)
            + lits_asts(else_body, 0),
        AstV::While { comparison, body, .. } => lits_cmp(comparison) + lits_asts(body, 0),
        AstV::InlineAsm { .. } => Seq::empty(),
    }
}

/// The literals of a statement run from position `i` on.
pub open spec fn lits_asts(s: Seq<AstV>, i: int) -> Seq<Seq<char>>
    decreases s, 1int, s.len() - i,
{
    if i < 0 || i >= s.len() {
        Seq::empty()
    } else {
        lits_ast(s[i]) + lits_asts(s, i + 1)
    }
}

/// One line of the data segment: the label for index `i` and the
/// escaped bytes of the literal, null-terminated.
pub open spec fn data_line(i: int, s: Seq<char>) -> Seq<char> {
    "str_"@ + dec_seq(i as nat) + " db \""@ + escape_asm(s) + "\", 0"@
}

/// The whole data segment for an interned literal table: one line per
/// literal, in encounter order, each index appearing exactly once.
pub open spec fn data_lines(strs: Seq<Seq<char>>) -> Seq<Seq<char>> {
    Seq::new(strs.len(), |i: int| data_line(i, strs[i]))
}

/// Whether an output ends with the data segment for its own literal
/// table: every interned literal appears there exactly once, in
/// encounter order.
pub open spec fn ends_with_data_segment(g: CodeGenV) -> bool {
    exists|mid: Seq<Seq<char>>| g.out == mid + data_lines(g.strings)
}

/// The view of a line buffer or literal table.
pub open spec fn view_strings(s: Seq<String>) -> Seq<Seq<char>>
    decreases s.len(),
{
    if s.len() == 0 {
        Seq::empty()
    } else {
        seq![s[0]@] + view_strings(s.drop_first())
    }
}

/// `view_strings` maps element by element.
pub proof fn lemma_view_strings_index(s: Seq<String>)
    ensures
        view_strings(s).len() == s.len(),
        forall|i: int| 0 <= i < s.len() ==> view_strings(s)[i] == s[i]@,
    decreases s.len(),
{
    if s.len() > 0 {
        lemma_view_strings_index(s.drop_first());
    }
}

/// Appending one string extends the view by its characters.
pub proof fn lemma_view_strings_push(s: Seq<String>, x: String)
    ensures
        view_strings(s.push(x)) == view_strings(s).push(x@),
{
    lemma_view_strings_index(s);
    lemma_view_strings_index(s.push(x));
    assert(view_strings(s.push(x)) =~= view_strings(s).push(x@));
}

/// The view of one stack-slot frame.
pub open spec fn view_slots(s: Seq<(String, usize, usize)>) -> Seq<(Seq<char>, usize, usize)>
    decreases s.len(),
{
    if s.len() == 0 {
        Seq::empty()
    } else {
        seq![(s[0].0@, s[0].1, s[0].2)] + view_slots(s.drop_first())
    }
}

/// `view_slots` maps element by element.
pub proof fn lemma_view_slots_index(s: Seq<(String, usize, usize)>)
    ensures
        view_slots(s).len() == s.len(),
        forall|i: int| 0 <= i < s.len() ==> view_slots(s)[i] == (s[i].0@, s[i].1, s[i].2),
    decreases s.len(),
{
    if s.len() > 0 {
        lemma_view_slots_index(s.drop_first());
    }
}

/// The view of the slot-frame stack, innermost frame last.
pub open spec fn view_frames(s: Seq<Vec<(String, usize, usize)>>) -> Seq<
    Seq<(Seq<char>, usize, usize)>,
>
    decreases s.len(),
{
    if s.len() == 0 {
        Seq::empty()
    } else {
        seq![view_slots(s[0]@)] + view_frames(s.drop_first())
    }
}

/// `view_frames` maps frame by frame.
pub proof fn lemma_view_frames_index(s: Seq<Vec<(String, usize, usize)>>)
    ensures
        view_frames(s).len() == s.len(),
        forall|i: int| 0 <= i < s.len() ==> view_frames(s)[i] == view_slots(s[i]@),
    decreases s.len(),
{
    if s.len() > 0 {
        lemma_view_frames_index(s.drop_first());
    }
}

/// Ghost view of the generator state.
#[verifier::ext_equal]
pub struct CodeGenV {
    /// The emitted lines so far.
    pub out: Seq<Seq<char>>,
    /// The interned string literals, in encounter order.
    pub strings: Seq<Seq<char>>,
    /// The stack of live variable frames, innermost last.
    pub vars: Seq<Seq<(Seq<char>, usize, usize)>>,
    /// The basic-block label counter.
    pub block_count: usize,
    /// The stack-offset cursor.
    pub stack_offset: usize,
    /// The name of the function being emitted.
    pub cur: Seq<char>,
}

/// The code generator: an output line buffer, the variable-to-slot
/// frames, the interned literals, the label counter, the stack cursor
/// and the current function name.
#[derive(Debug)]
pub struct CodeGen {
    out: Vec<String>,
    variables: Vec<Vec<(String, usize, usize)>>,
    strings: Vec<String>,
    block_count: usize,
    stack_offset: usize,
    current_fn: String,
}

impl View for CodeGen {
    type V = CodeGenV;

    closed spec fn view(&self) -> CodeGenV {
        CodeGenV {
            out: view_strings(self.out@),
            strings: view_strings(self.strings@),
            vars: view_frames(self.variables@),
            block_count: self.block_count,
            stack_offset: self.stack_offset,
            cur: self.current_fn@,
        }
    }
}

/// The slot bound to a name in one frame; the latest binding wins.
pub open spec fn slots_lookup_upto(
    frame: Seq<(Seq<char>, usize, usize)>,
    name: Seq<char>,
    i: int,
) -> Option<(usize, usize)>
    decreases i,
{
    if i <= 0 || i > frame.len() {
        None
    } else if frame[i - 1].0 == name {
        Some((frame[i - 1].1, frame[i - 1].2))
    } else {
        slots_lookup_upto(frame, name, i - 1)
    }
}

/// The slot bound to a name across the frame stack, innermost first.
pub open spec fn slot_lookup_upto(
    vars: Seq<Seq<(Seq<char>, usize, usize)>>,
    name: Seq<char>,
    i: int,
) -> Option<(usize, usize)>
    decreases i,
{
    if i <= 0 || i > vars.len() {
        None
    } else {
        match slots_lookup_upto(vars[i - 1], name, vars[i - 1].len() as int) {
            Some(s) => Some(s),
            None => slot_lookup_upto(vars, name, i - 1),
        }
    }
}

/// The slot the frame stack binds a name to.
pub open spec fn slot_lookup(
    vars: Seq<Seq<(Seq<char>, usize, usize)>>,
    name: Seq<char>,
) -> Option<(usize, usize)> {
    slot_lookup_upto(vars, name, vars.len() as int)
}

/// The assembly spelling of an operand.
pub open spec fn operand_text(op: Operand) -> Seq<char> {
    match op {
        Operand::Reg(Reg::Rax) => "rax"@,
        Operand::Reg(Reg::Rbx) => "rbx"@,
        Operand::Imm(n) => dec_seq(n as nat),
        Operand::StrRef(i) => "str_"@ + dec_seq(i as nat),
        Operand::Stack(off) => "[rbp-"@ + dec_seq(off as nat) + "]"@,
        Operand::Null => "0x0"@,
    }
}

/// The argument-passing register for a parameter position.
pub open spec fn reg_text(i: int) -> Seq<char> {
    if i == 0 {
        "rdi"@
    } else if i == 1 {
        "rsi"@
    } else if i == 2 {
        "rdx"@
    } else if i == 3 {
        "rcx"@
    } else if i == 4 {
        "r8"@
    } else {
        "r9"@
    }
}

/// One line appended to the output buffer.
pub open spec fn spec_emit(g: CodeGenV, line: Seq<char>) -> CodeGenV {
    CodeGenV { out: g.out.push(line), ..g }
}

/// A fresh empty frame pushed on the frame stack.
pub open spec fn spec_push(g: CodeGenV) -> CodeGenV {
    CodeGenV { vars: g.vars.push(Seq::empty()), ..g }
}

/// A name bound to a slot in the innermost frame.
pub open spec fn spec_bind(g: CodeGenV, name: Seq<char>, off: usize, size: usize) -> CodeGenV {
    if g.vars.len() == 0 {
        g
    } else {
        CodeGenV {
            vars: g.vars.update(g.vars.len() - 1, g.vars.last().push((name, off, size))),
            ..g
        }
    }
}

/// The bytes held by the first `k` slots of a frame; an addition that
/// would not fit in the counter is skipped.
pub open spec fn frame_total(frame: Seq<(Seq<char>, usize, usize)>, k: int) -> usize
    decreases k,
{
    if k <= 0 || k > frame.len() {
        0usize
    } else {
        let t = frame_total(frame, k - 1);
        if t <= usize::MAX - frame[k - 1].2 {
            (t + frame[k - 1].2) as usize
        } else {
            t
        }
    }
}

/// The innermost frame torn down, with the stack cursor pulled back by
/// the bytes its slots held, to zero at the lowest.
pub open spec fn spec_release(g: CodeGenV) -> CodeGenV {
    if g.vars.len() == 0 {
        g
    } else {
        let total = frame_total(g.vars.last(), g.vars.last().len() as int);
        let off: usize = if g.stack_offset >= total {
            (g.stack_offset - total) as usize
        } else {
            0usize
        };
        CodeGenV { vars: g.vars.drop_last(), stack_offset: off, ..g }
    }
}

/// The store line that forces a value into a fresh stack slot.
pub open spec fn force_line(off: usize, v: Operand) -> Seq<char> {
    "    mov qword [rbp-"@ + dec_seq(off as nat) + "], "@ + operand_text(v)
}

/// A value forced into a stack slot: one already in a slot stays where
/// it is and nothing is emitted; any other grows the cursor by one
/// 8-byte slot and emits the one store, unless the cursor cannot grow.
pub open spec fn spec_force_stack(g: CodeGenV, v: Operand) -> (CodeGenV, Result<usize, ()>) {
    match v {
        Operand::Stack(off) => (g, Ok(off)),
        _ => if g.stack_offset > usize::MAX - 8 {
            (g, Err(()))
        } else {
            let off = (g.stack_offset + 8) as usize;
            (spec_emit(CodeGenV { stack_offset: off, ..g }, force_line(off, v)), Ok(off))
        },
    }
}

/// A value forced into a register before a store: a stack slot is
/// loaded into the accumulator by one emitted line; anything else is
/// spelled as it stands and nothing is emitted.
pub open spec fn spec_in_reg(g: CodeGenV, v: Operand) -> (CodeGenV, Seq<char>) {
    match v {
        Operand::Stack(off) => (
            spec_emit(g, "    mov rax, [rbp-"@ + dec_seq(off as nat) + "]"@),
            "rax"@,
        ),
        _ => (g, operand_text(v)),
    }
}

/// The moves of stashed call arguments into the argument registers,
/// from position `i` on, one line each.
pub open spec fn spec_move_args(g: CodeGenV, offs: Seq<usize>, i: int) -> CodeGenV
    decreases offs.len() - i,
{
    if i < 0 || i >= offs.len() {
        g
    } else {
        spec_move_args(
            spec_emit(
                g,
                "    mov "@ + reg_text(i) + ", [rbp-"@ + dec_seq(offs[i] as nat) + "]"@,
            ),
            offs,
            i + 1,
        )
    }
}

/// The lowering of one expression: the generator state after it, and
/// where its value lives, or the failure outcome.  This is the exact
/// mirror of [`CodeGen::value`], line for line.
pub open spec fn spec_value(g: CodeGenV, v: ValueV) -> (CodeGenV, Result<Operand, ()>)
    decreases v, 0int,
{
    match v {
        ValueV::FunctionCall { name, params, .. } => {
            let g1 = spec_emit(g, "    ;; -- FUNCTION CALL --"@);
            let (g2, ra) = spec_eval_args(g1, params, 0);
            match ra {
                Err(e) => (g2, Err(e)),
                Ok(offs) => if params.len() > 6 {
                    (g2, Err(()))
                } else {
                    let g3 = spec_move_args(g2, offs, 0);
                    let g4 = spec_emit(g3, "    sub rsp, "@ + dec_seq(g3.stack_offset as nat));
                    let g5 = spec_emit(g4, "    call "@ + name);
                    let g6 = spec_emit(g5, "    add rsp, "@ + dec_seq(g5.stack_offset as nat));
                    (g6, Ok(Operand::Reg(Reg::Rax)))
                },
            }
        },
        ValueV::BinaryExpr { l_expr, r_expr, op, .. } => {
            let saved = g.stack_offset;
            let (g1, rl) = spec_value(g, *l_expr);
            match rl {
                Err(e) => (g1, Err(e)),
                Ok(lv) => {
                    let (g2, rr) = spec_value(g1, *r_expr);
                    match rr {
                        Err(e) => (g2, Err(e)),
                        Ok(rv) => {
                            let g3 = spec_emit(g2, "    ;; -- BINARY EXPRESSION --"@);
                            let (g4, rlo) = spec_force_stack(g3, lv);
                            match rlo {
                                Err(e) => (g4, Err(e)),
                                Ok(l_off) => {
                                    let (g5, rro) = spec_force_stack(g4, rv);
                                    match rro {
                                        Err(e) => (g5, Err(e)),
                                        Ok(r_off) => {
                                            let g6 = spec_emit(
                                                g5,
                                                "    mov rax, [rbp-"@ + dec_seq(l_off as nat)
                                                    + "]"@,
                                            );
                                            let g7 = spec_arith(g6, op, r_off);
                                            (
                                                CodeGenV { stack_offset: saved, ..g7 },
                                                Ok(Operand::Reg(Reg::Rax)),
                                            )
                                        },
                                    }
                                },
                            }
                        },
                    }
                },
            }
        },
        ValueV::Ref(inner) => {
            let g1 = spec_emit(g, "    ;; -- REFERENCE --"@);
            let (g2, ri) = spec_value(g1, *inner);
            match ri {
                Err(e) => (g2, Err(e)),
                Ok(iv) => (
                    spec_emit(g2, "    lea rax, "@ + operand_text(iv)),
                    Ok(Operand::Reg(Reg::Rax)),
                ),
            }
        },
        ValueV::Deref(inner, _) => {
            let g1 = spec_emit(g, "    ;; -- DEREFERENCE --"@);
            let (g2, ri) = spec_value(g1, *inner);
            match ri {
                Err(e) => (g2, Err(e)),
                Ok(iv) => {
                    let g3 = if iv != Operand::Reg(Reg::Rax) {
                        spec_emit(g2, "    mov rax, "@ + operand_text(iv))
                    } else {
                        g2
                    };
                    (spec_emit(g3, "    mov rbx, [rax]"@), Ok(Operand::Reg(Reg::Rbx)))
                },
            }
        },
        ValueV::Cast(inner, _) => spec_value(g, *inner),
        ValueV::Int(n) => (g, Ok(Operand::Imm(n))),
        ValueV::Str(s) => (
            CodeGenV { strings: g.strings.push(s), ..g },
            Ok(Operand::StrRef(g.strings.len() as usize)),
        ),
        ValueV::Ident(name) => match slot_lookup(g.vars, name) {
            Some(slot) => (g, Ok(Operand::Stack(slot.0))),
            None => (g, Err(())),
        },
        ValueV::Null => (g, Ok(Operand::Null)),
    }
}

/// The accumulator instruction a binary operator lowers to, on the
/// accumulator and the right operand's stack slot.
pub open spec fn spec_arith(g: CodeGenV, op: Operator, r_off: usize) -> CodeGenV {
    match op {
        Operator::Plus => spec_emit(g, "    add rax, [rbp-"@ + dec_seq(r_off as nat) + "]"@),
        Operator::Minus => spec_emit(g, "    sub rax, [rbp-"@ + dec_seq(r_off as nat) + "]"@),
        Operator::Multiplication => spec_emit(
            spec_emit(g, "    mov rbx, [rbp-"@ + dec_seq(r_off as nat) + "]"@),
            "    mul rbx"@,
        ),
        Operator::Divide => spec_emit(
            spec_emit(g, "    mov rbx, [rbp-"@ + dec_seq(r_off as nat) + "]"@),
            "    div rbx"@,
        ),
    }
}

/// Call arguments evaluated left to right from position `i` on, each
/// forced into a stack slot; yields the slot offsets in argument order.
pub open spec fn spec_eval_args(g: CodeGenV, params: Seq<ValueV>, i: int) -> (
    CodeGenV,
    Result<Seq<usize>, ()>,
)
    decreases params, params.len() - i,
{
    if i < 0 || i >= params.len() {
        (g, Ok(Seq::empty()))
    } else {
        let (g1, r1) = spec_value(g, params[i]);
        match r1 {
            Err(e) => (g1, Err(e)),
            Ok(v) => {
                let (g2, r2) = spec_force_stack(g1, v);
                match r2 {
                    Err(e) => (g2, Err(e)),
                    Ok(off) => {
                        let (g3, r3) = spec_eval_args(g2, params, i + 1);
                        match r3 {
                            Err(e) => (g3, Err(e)),
                            Ok(rest) => (g3, Ok(seq![off] + rest)),
                        }
                    },
                }
            },
        }
    }
}

/// The lowering of a comparison: both sides evaluated left to right and
/// forced onto the stack, the accumulator loaded and compared, the
/// expression temporaries reclaimed; yields the inverted jump mnemonic.
/// The exact mirror of [`CodeGen::comparison`].
pub open spec fn spec_cmp_lower(g: CodeGenV, c: ComparisonV) -> (CodeGenV, Result<Seq<char>, ()>) {
    let saved = g.stack_offset;
    let (g1, rl) = spec_value(g, c.l_expr);
    match rl {
        Err(e) => (g1, Err(e)),
        Ok(lv) => {
            let (g2, rr) = spec_value(g1, c.r_expr);
            match rr {
                Err(e) => (g2, Err(e)),
                Ok(rv) => {
                    let g3 = spec_emit(g2, "    ;; -- COMPARISON --"@);
                    let (g4, rlo) = spec_force_stack(g3, lv);
                    match rlo {
                        Err(e) => (g4, Err(e)),
                        Ok(l_off) => {
                            let (g5, rro) = spec_force_stack(g4, rv);
                            match rro {
                                Err(e) => (g5, Err(e)),
                                Ok(r_off) => {
                                    let g6 = spec_emit(
                                        g5,
                                        "    mov rax, [rbp-"@ + dec_seq(l_off as nat) + "]"@,
                                    );
                                    let g7 = spec_emit(
                                        g6,
                                        "    cmp rax, [rbp-"@ + dec_seq(r_off as nat) + "]"@,
                                    );
                                    (
                                        CodeGenV { stack_offset: saved, ..g7 },
                                        Ok(jump_text(inverted_jump(c.op))),
                                    )
                                },
                            }
                        },
                    }
                },
            }
        },
    }
}

/// The parameter stores of a function prologue from position `i` on:
/// each parameter gets the next slot of its type's size, one store from
/// its argument register, and a binding in the innermost frame; a slot
/// the cursor cannot reach is the failure outcome.
pub open spec fn spec_bind_params(g: CodeGenV, params: Seq<(Seq<char>, Type)>, i: int) -> (
    CodeGenV,
    Result<(), ()>,
)
    decreases params.len() - i,
{
    if i < 0 || i >= params.len() {
        (g, Ok(()))
    } else {
        let size = spec_size(params[i].1);
        if g.stack_offset > usize::MAX - size {
            (g, Err(()))
        } else {
            let off = (g.stack_offset + size) as usize;
            let g1 = spec_emit(
                CodeGenV { stack_offset: off, ..g },
                "    mov [rbp-"@ + dec_seq(off as nat) + "], "@ + reg_text(i),
            );
            spec_bind_params(spec_bind(g1, params[i].0, off, size), params, i + 1)
        }
    }
}

/// The two lines that open the executable segment.
pub open spec fn spec_entry(g: CodeGenV) -> CodeGenV {
    spec_emit(spec_emit(g, "format ELF64 executable 3"@), "segment readable executable"@)
}

/// The program exit block and the data segment appended to the output.
pub open spec fn spec_exit(g: CodeGenV) -> CodeGenV {
    CodeGenV { out: g.out + exit_preamble() + data_lines(g.strings), ..g }
}

/// The lowering of a declared function: label, prologue, one store and
/// binding per parameter, the body in a fresh frame, the return label
/// and epilogue, and the frame torn down with the previous current
/// function restored, whatever the outcome.
pub open spec fn spec_gen_fn(
    g: CodeGenV,
    name: Seq<char>,
    param_t: Seq<(Seq<char>, Type)>,
    body: Seq<AstV>,
) -> (CodeGenV, Result<(), ()>)
    decreases body, 2int, 1int,
{
    let g1 = spec_emit(g, "    ;; -- FUNCTION --"@);
    let g2 = spec_emit(g1, name + ":"@);
    let g3 = spec_emit(g2, "    push rbp"@);
    let g4 = spec_emit(g3, "    mov rbp, rsp"@);
    let g5 = CodeGenV { cur: name, ..spec_push(g4) };
    let (g6, rp) = spec_bind_params(g5, param_t, 0);
    match rp {
        Err(e) => (CodeGenV { cur: g.cur, ..spec_release(g6) }, Err(e)),
        Ok(_) => {
            let (g7, rb) = spec_generate_at(g6, body, false);
            match rb {
                Err(e) => (CodeGenV { cur: g.cur, ..spec_release(g7) }, Err(e)),
                Ok(_) => {
                    let g8 = spec_emit(g7, name + "_ret:"@);
                    let g9 = spec_emit(g8, "    pop rbp"@);
                    let g10 = spec_emit(g9, "    ret"@);
                    (CodeGenV { cur: g.cur, ..spec_release(g10) }, Ok(()))
                },
            }
        },
    }
}

/// The lowering of one statement: the generator state after it and the
/// outcome.  This is the exact mirror of [`CodeGen::gen_stmt`], line
/// for line.
pub open spec fn spec_gen_stmt(g: CodeGenV, a: AstV) -> (CodeGenV, Result<(), ()>)
    decreases a, 2int, 0int,
{
    match a {
        AstV::Function { name, param_t, body, .. } => {
            if param_t.len() > 6 {
                (g, Err(()))
            } else {
                spec_gen_fn(g, name, param_t, body)
            }
        },
        AstV::Return { value, .. } => {
            let g1 = spec_emit(g, "    ;; -- RETURN --"@);
            let (g2, rv) = spec_value(g1, value);
            match rv {
                Err(e) => (g2, Err(e)),
                Ok(val) => {
                    let g3 = spec_emit(g2, "    mov rax, "@ + operand_text(val));
                    (spec_emit(g3, "    jmp "@ + g3.cur + "_ret"@), Ok(()))
                },
            }
        },
        AstV::Variable { name, var_t, value, .. } => {
            let size = spec_size(var_t);
            if g.stack_offset > usize::MAX - size {
                (g, Err(()))
            } else {
                let off = (g.stack_offset + size) as usize;
                let g1 = spec_emit(
                    CodeGenV { stack_offset: off, ..g },
                    "    ;; -- VARIABLE --"@,
                );
                let (g2, rv) = spec_value(g1, value);
                match rv {
                    Err(e) => (g2, Err(e)),
                    Ok(val) => {
                        let (g3, reg) = spec_in_reg(g2, val);
                        let g4 = spec_emit(
                            g3,
                            "    mov qword [rbp-"@ + dec_seq(off as nat) + "], "@ + reg,
                        );
                        (spec_bind(g4, name, off, size), Ok(()))
                    },
                }
            }
        },
        AstV::MutateVar { name, value, .. } => {
            let g1 = spec_emit(g, "    ;; -- MUTATE VARIABLE --"@);
            let (g2, rv) = spec_value(g1, value);
            match rv {
                Err(e) => (g2, Err(e)),
                Ok(val) => {
                    let (g3, reg) = spec_in_reg(g2, val);
                    match slot_lookup(g3.vars, name) {
                        None => (g3, Err(())),
                        Some(slot) => (
                            spec_emit(
                                g3,
                                "    mov qword [rbp-"@ + dec_seq(slot.0 as nat) + "], "@ + reg,
                            ),
                            Ok(()),
                        ),
                    }
                },
            }
        },
        AstV::MutatePtr { ptr, value, .. } => {
            let g1 = spec_emit(g, "    ;; -- MUTATE POINTER --"@);
            let (g2, rv) = spec_value(g1, value);
            match rv {
                Err(e) => (g2, Err(e)),
                Ok(val) => {
                    let (g3, rp) = spec_value(g2, ptr);
                    match rp {
                        Err(e) => (g3, Err(e)),
                        Ok(pv) => {
                            let (g4, rvo) = spec_force_stack(g3, val);
                            match rvo {
                                Err(e) => (g4, Err(e)),
                                Ok(v_off) => {
                                    let (g5, rpo) = spec_force_stack(g4, pv);
                                    match rpo {
                                        Err(e) => (g5, Err(e)),
                                        Ok(p_off) => {
                                            let g6 = spec_emit(
                                                g5,
                                                "    mov rax, [rbp-"@ + dec_seq(p_off as nat)
                                                    + "]"@,
                                            );
                                            let g7 = spec_emit(
                                                g6,
                                                "    mov rbx, [rbp-"@ + dec_seq(v_off as nat)
                                                    + "]"@,
                                            );
                                            (spec_emit(g7, "    mov [rax], rbx"@), Ok(()))
                                        },
                                    }
                                },
                            }
                        },
                    }
                },
            }
        },
        AstV::If { comparison, body, else_body, .. } => {
            if g.block_count > usize::MAX - 2 {
                (g, Err(()))
            } else {
                let false_label = (g.block_count + 1) as usize;
                let join_label = (g.block_count + 2) as usize;
                let g1 = spec_emit(
                    CodeGenV { block_count: join_label, ..g },
                    "    ;; -- IF --"@,
                );
                let (g2, rj) = spec_cmp_lower(g1, comparison);
                match rj {
                    Err(e) => (g2, Err(e)),
                    Ok(jmp) => {
                        let g3 = spec_emit(
                            g2,
                            "    "@ + jmp + " BB_"@ + dec_seq(false_label as nat),
                        );
                        let (g4, rb) = spec_generate_at(g3, body, false);
                        match rb {
                            Err(e) => (g4, Err(e)),
                            Ok(_) => {
                                let g5 = spec_emit(
                                    g4,
                                    "    jmp BB_"@ + dec_seq(join_label as nat),
                                );
                                let g6 = spec_emit(
                                    g5,
                                    "BB_"@ + dec_seq(false_label as nat) + ":"@,
                                );
                                let (g7, re) = spec_generate_at(g6, else_body, false);
                                match re {
                                    Err(e) => (g7, Err(e)),
                                    Ok(_) => (
                                        spec_emit(
                                            g7,
                                            "BB_"@ + dec_seq(join_label as nat) + ":"@,
                                        ),
                                        Ok(()),
                                    ),
                                }
                            },
                        }
                    },
                }
            }
        },
        AstV::While { comparison, body, .. } => {
            if g.block_count > usize::MAX - 2 {
                (g, Err(()))
            } else {
                let entry_label = (g.block_count + 1) as usize;
                let exit_label = (g.block_count + 2) as usize;
                let g1 = spec_emit(
                    CodeGenV { block_count: exit_label, ..g },
                    "    ;; -- WHILE --"@,
                );
                let g2 = spec_emit(g1, "BB_"@ + dec_seq(entry_label as nat) + ":"@);
                let (g3, rj) = spec_cmp_lower(g2, comparison);
                match rj {
                    Err(e) => (g3, Err(e)),
                    Ok(jmp) => {
                        let g4 = spec_emit(
                            g3,
                            "    "@ + jmp + " BB_"@ + dec_seq(exit_label as nat),
                        );
                        let (g5, rb) = spec_generate_at(g4, body, false);
                        match rb {
                            Err(e) => (g5, Err(e)),
                            Ok(_) => {
                                let g6 = spec_emit(
                                    g5,
                                    "    jmp BB_"@ + dec_seq(entry_label as nat),
                                );
                                (
                                    spec_emit(
                                        g6,
                                        "BB_"@ + dec_seq(exit_label as nat) + ":"@,
                                    ),
                                    Ok(()),
                                )
                            },
                        }
                    },
                }
            }
        },
        AstV::InlineAsm { text, .. } => (spec_emit(g, text), Ok(())),
    }
}

/// A statement run lowered in order from position `i` on, stopping at
/// the first failure.
pub open spec fn spec_gen_seq(g: CodeGenV, stmts: Seq<AstV>, i: int) -> (
    CodeGenV,
    Result<(), ()>,
)
    decreases stmts, 0int, stmts.len() - i,
{
    if i < 0 || i >= stmts.len() {
        (g, Ok(()))
    } else {
        let (g1, r) = spec_gen_stmt(g, stmts[i]);
        match r {
            Err(e) => (g1, Err(e)),
            Ok(_) => spec_gen_seq(g1, stmts, i + 1),
        }
    }
}

/// A whole statement sequence lowered in a fresh frame, which is torn
/// down and its stack bytes reclaimed whatever the outcome; with
/// `entry` set, the executable-segment header opens the output and, on
/// success, the exit block and the data segment close it.  This is the
/// exact mirror of [`CodeGen::generate`].
pub open spec fn spec_generate_at(g: CodeGenV, stmts: Seq<AstV>, entry: bool) -> (
    CodeGenV,
    Result<(), ()>,
)
    decreases stmts, 1int, 0int,
{
    let g0 = if entry {
        spec_entry(g)
    } else {
        g
    };
    let (g1, r) = spec_gen_seq(spec_push(g0), stmts, 0);
    let g2 = spec_release(g1);
    match r {
        Err(e) => (g2, Err(e)),
        Ok(_) => if entry {
            (spec_exit(g2), Ok(()))
        } else {
            (g2, Ok(()))
        },
    }
}

impl CodeGen {
    /// A fresh generator: empty output, no frames, no literals, label
    /// counter at one, cursor at zero, no current function.
    pub fn new() -> (r: CodeGen)
        ensures
            r@ == (CodeGenV {
                out: Seq::empty(),
                strings: Seq::empty(),
                vars: Seq::empty(),
                block_count: 1usize,
                stack_offset: 0usize,
                cur: Seq::empty(),
            }),
    {
        let r = CodeGen {
            out: Vec::new(),
            variables: Vec::new(),
            strings: Vec::new(),
            block_count: 1,
            stack_offset: 0,
            current_fn: String::new(),
        };
        proof {
            assert(r@ =~= CodeGenV {
                out: Seq::empty(),
                strings: Seq::empty(),
                vars: Seq::empty(),
                block_count: 1usize,
                stack_offset: 0usize,
                cur: Seq::empty(),
            });
        }
        r
    }

    /// The emitted lines, for the driver to write out.
    pub fn output(&self) -> (r: &Vec<String>)
        ensures
            view_strings(r@) == self@.out,
    {
        &self.out
    }

    /// The interned literal table.
    pub fn literal_table(&self) -> (r: &Vec<String>)
        ensures
            view_strings(r@) == self@.strings,
    {
        &self.strings
    }

    /// Appends one line to the output buffer.
    fn emit(&mut self, line: String)
        ensures
            final(self)@ == (CodeGenV { out: old(self)@.out.push(line@), ..old(self)@ }),
            final(self).strings == old(self).strings,
            final(self).variables == old(self).variables,
            final(self).block_count == old(self).block_count,
            final(self).stack_offset == old(self).stack_offset,
            final(self).current_fn == old(self).current_fn,
    {
        let ghost pre = self.out@;
        self.out.push(line);
        proof {
            lemma_view_strings_push(pre, line);
            assert(self@ =~= CodeGenV { out: old(self)@.out.push(line@), ..old(self)@ });
        }
    }

    /// The slot a name is bound to, innermost frame first.
    fn find_slot(&self, name: &String) -> (r: Option<(usize, usize)>)
        ensures
            r == slot_lookup(self@.vars, name@),
    {
        proof {
            lemma_view_frames_index(self.variables@);
        }
        let mut k: usize = self.variables.len();
        while k > 0
            invariant
                0 <= k <= self.variables.len(),
                self@.vars.len() == self.variables@.len(),
                forall|x: int| 0 <= x < self.variables@.len() ==> self@.vars[x] == view_slots(
                    self.variables@[x]@,
                ),
                slot_lookup(self@.vars, name@) == slot_lookup_upto(self@.vars, name@, k as int),
            decreases k,
        {
            let frame = &self.variables[k - 1];
            proof {
                lemma_view_slots_index(frame@);
                assert(self@.vars[k - 1] == view_slots(self.variables@[k - 1]@));
            }
            let mut j: usize = frame.len();
            while j > 0
                invariant
                    0 <= j <= frame.len(),
                    0 < k <= self.variables.len(),
                    self@.vars.len() == self.variables@.len(),
                    self@.vars[k - 1] == view_slots(frame@),
                    view_slots(frame@).len() == frame@.len(),
                    forall|x: int| 0 <= x < frame@.len() ==> view_slots(frame@)[x] == (
                        frame@[x].0@,
                        frame@[x].1,
                        frame@[x].2,
                    ),
                    slot_lookup(self@.vars, name@) == slot_lookup_upto(
                        self@.vars,
                        name@,
                        k as int,
                    ),
                    slots_lookup_upto(self@.vars[k - 1], name@, self@.vars[k - 1].len() as int)
                        == slots_lookup_upto(self@.vars[k - 1], name@, j as int),
                decreases j,
            {
                if frame[j - 1].0.eq(name) {
                    return Some((frame[j - 1].1, frame[j - 1].2));
                }
                j = j - 1;
            }
            k = k - 1;
        }
        None
    }

    /// Binds a name to a slot in the innermost frame.
    fn bind_slot(&mut self, name: String, off: usize, size: usize)
        requires
            old(self).variables.len() > 0,
        ensures
            final(self)@ == (CodeGenV {
                vars: old(self)@.vars.update(
                    old(self)@.vars.len() - 1,
                    old(self)@.vars.last().push((name@, off, size)),
                ),
                ..old(self)@
            }),
            final(self).variables.len() == old(self).variables.len(),
    {
        let mut top = match self.variables.pop() {
            Some(f) => f,
            None => Vec::new(),
        };
        top.push((name, off, size));
        self.variables.push(top);
        proof {
            let n = old(self).variables@.len();
            lemma_view_frames_index(self.variables@);
            lemma_view_frames_index(old(self).variables@);
            lemma_view_slots_index(self.variables@[n - 1]@);
            lemma_view_slots_index(old(self).variables@[n - 1]@);
            assert(self.variables@[n - 1]@ =~= old(self).variables@[n - 1]@.push(
                (name, off, size),
            ));
            assert(view_slots(self.variables@[n - 1]@) =~= view_slots(
                old(self).variables@[n - 1]@,
            ).push((name@, off, size)));
            assert(old(self)@.vars.last() == view_slots(old(self).variables@[n - 1]@));
            assert(self@.vars =~= old(self)@.vars.update(
                old(self)@.vars.len() - 1,
                old(self)@.vars.last().push((name@, off, size)),
            ));
            assert(self@ =~= CodeGenV {
                vars: old(self)@.vars.update(
                    old(self)@.vars.len() - 1,
                    old(self)@.vars.last().push((name@, off, size)),
                ),
                ..old(self)@
            });
        }
    }

    /// Pushes a fresh empty frame.
    fn push_frame(&mut self)
        ensures
            final(self)@ == (CodeGenV {
                vars: old(self)@.vars.push(Seq::empty()),
                ..old(self)@
            }),
            final(self).variables.len() == old(self).variables.len() + 1,
    {
        self.variables.push(Vec::new());
        proof {
            lemma_view_frames_index(self.variables@);
            lemma_view_frames_index(old(self).variables@);
            assert(view_slots(self.variables@.last()@) =~= Seq::<
                (Seq<char>, usize, usize),
            >::empty());
            assert(self@.vars =~= old(self)@.vars.push(Seq::empty()));
            assert(self@ =~= CodeGenV { vars: old(self)@.vars.push(Seq::empty()), ..old(self)@ });
        }
    }

    /// Tears the innermost frame down.
    fn pop_frame(&mut self)
        requires
            old(self).variables.len() > 0,
        ensures
            final(self)@ == (CodeGenV {
                vars: old(self)@.vars.drop_last(),
                ..old(self)@
            }),
            final(self).variables.len() == old(self).variables.len() - 1,
    {
        let _ = self.variables.pop();
        proof {
            lemma_view_frames_index(self.variables@);
            lemma_view_frames_index(old(self).variables@);
            assert(self.variables@ =~= old(self).variables@.take(
                old(self).variables@.len() - 1,
            ));
            assert(self@.vars =~= old(self)@.vars.drop_last());
            assert(self@ =~= CodeGenV { vars: old(self)@.vars.drop_last(), ..old(self)@ });
        }
    }

    /// The assembly spelling of an operand.
    fn operand_string(op: &Operand) -> (r: String)
        ensures
            r@ == operand_text(*op),
    {
        match op {
            Operand::Reg(Reg::Rax) => "rax".to_owned(),
            Operand::Reg(Reg::Rbx) => "rbx".to_owned(),
            Operand::Imm(n) => fmt_usize(*n),
            Operand::StrRef(i) => {
                let mut s = "str_".to_owned();
                s.append(fmt_usize(*i).as_str());
                proof {
                    assert(s@ =~= operand_text(*op));
                }
                s
            },
            Operand::Stack(off) => {
                let mut s = "[rbp-".to_owned();
                s.append(fmt_usize(*off).as_str());
                s.append("]");
                proof {
                    assert(s@ =~= operand_text(*op));
                }
                s
            },
            Operand::Null => "0x0".to_owned(),
        }
    }

    /// Forces a value into a stack slot so it survives later
    /// register-clobbering operations; a value already in a slot is
    /// left where it is.
    fn val_is_on_stack(&mut self, val: Operand) -> (r: Result<usize, CompileError>)
        ensures
            ({
                let (gv, rr) = spec_force_stack(old(self)@, val);
                final(self)@ == gv && res_plain(r) == rr
            }),
            final(self)@.strings == old(self)@.strings,
            final(self).variables == old(self).variables,
            final(self)@.vars == old(self)@.vars,
            final(self)@.block_count == old(self)@.block_count,
            final(self)@.cur == old(self)@.cur,
            old(self)@.out.is_prefix_of(final(self)@.out),
            r matches Err(e) ==> view_err(e) == (CompileErrorV::Internal { loc: (0usize, 0usize) }),
    {
        match val {
            Operand::Stack(off) => {
                proof {
                    assert(self@.out.is_prefix_of(self@.out));
                }
                Ok(off)
            },
            _ => {
                if self.stack_offset > usize::MAX - 8 {
                    proof {
                        assert(self@.out.is_prefix_of(self@.out));
                    }
                    return Err(CompileError::Internal { loc: (0, 0) });
                }
                self.stack_offset = self.stack_offset + 8;
                let mut line = "    mov qword [rbp-".to_owned();
                line.append(fmt_usize(self.stack_offset).as_str());
                line.append("], ");
                line.append(Self::operand_string(&val).as_str());
                proof {
                    assert(line@ =~= force_line(self.stack_offset, val));
                }
                self.emit(line);
                proof {
                    assert(old(self)@.out.is_prefix_of(self@.out));
                    assert(self@ =~= spec_force_stack(old(self)@, val).0);
                }
                Ok(self.stack_offset)
            },
        }
    }

    /// Forces a value into a register before a store, loading a stack
    /// slot into the accumulator when needed.
    fn val_is_in_reg(&mut self, val: Operand) -> (r: String)
        ensures
            ({
                let (gv, s) = spec_in_reg(old(self)@, val);
                final(self)@ == gv && r@ == s
            }),
            final(self)@.strings == old(self)@.strings,
            final(self).variables == old(self).variables,
            final(self)@.vars == old(self)@.vars,
            final(self)@.block_count == old(self)@.block_count,
            final(self)@.stack_offset == old(self)@.stack_offset,
            final(self)@.cur == old(self)@.cur,
            old(self)@.out.is_prefix_of(final(self)@.out),
    {
        match val {
            Operand::Stack(off) => {
                let mut line = "    mov rax, [rbp-".to_owned();
                line.append(fmt_usize(off).as_str());
                line.append("]");
                proof {
                    assert(line@ =~= "    mov rax, [rbp-"@ + dec_seq(off as nat) + "]"@);
                }
                self.emit(line);
                proof {
                    assert(old(self)@.out.is_prefix_of(self@.out));
                }
                "rax".to_owned()
            },
            _ => {
                proof {
                    assert(self@.out.is_prefix_of(self@.out));
                }
                Self::operand_string(&val)
            },
        }
    }
}


/// The fixed argument-passing registers, one per parameter position.
fn reg_name(i: usize) -> (r: &'static str)
    requires
        i < 6,
    ensures
        r@ == reg_text(i as int),
{
    match i {
        0 => "rdi",
        1 => "rsi",
        2 => "rdx",
        3 => "rcx",
        4 => "r8",
        _ => "r9",
    }
}

/// The fixed lines that close the program: the entry point calling
/// `main`, the exit system call, and the data segment header.
pub open spec fn exit_preamble() -> Seq<Seq<char>> {
    seq![
        "entry start"@,
        "start:"@,
        "    call main"@,
        "    mov rdi, rax"@,
        "    mov rax, 60"@,
        "    syscall"@,
        "segment readable writeable"@,
    ]
}

impl CodeGen {
    /// Evaluates call arguments left to right from position `i` on,
    /// forcing each result into a stack slot and recording its offset,
    /// so later argument computations cannot clobber earlier ones.
    fn eval_args(&mut self, params: &Vec<Value>, i: usize, offs: &mut Vec<usize>) -> (r: Result<
        (),
        CompileError,
    >)
        requires
            i <= params.len(),
        ensures
            ({
                let (gv, rr) = spec_eval_args(old(self)@, view_values(params@), i as int);
                &&& final(self)@ == gv
                &&& r is Ok <==> rr is Ok
                &&& rr matches Ok(s) ==> final(offs)@ == old(offs)@ + s
            }),
            final(self)@.vars == old(self)@.vars,
            final(self).variables == old(self).variables,
            final(self)@.block_count == old(self)@.block_count,
            final(self)@.cur == old(self)@.cur,
            r is Ok ==> final(self)@.strings == old(self)@.strings + lits_values(
                view_values(params@),
                i as int,
            ),
            r is Ok ==> final(offs)@.len() == old(offs)@.len() + (params@.len() - i),
            r matches Err(e) ==> view_err(e) == (CompileErrorV::Internal { loc: (0usize, 0usize) }),
        decreases *params, params.len() - i,
    {
        proof {
            lemma_view_values_index(params@);
        }
        let ghost pv = view_values(params@);
        if i == params.len() {
            proof {
                assert(self@.strings =~= self@.strings + lits_values(
                    view_values(params@),
                    i as int,
                ));
                assert(offs@ =~= offs@ + Seq::<usize>::empty());
            }
            return Ok(());
        }
        let ghost s0 = self@.strings;
        let v = match self.value(&params[i]) {
            Ok(v) => v,
            Err(e) => {
                return Err(e);
            },
        };
        let ghost (gm1, _) = spec_value(old(self)@, pv[i as int]);
        let off = match self.val_is_on_stack(v) {
            Ok(o) => o,
            Err(e) => {
                return Err(e);
            },
        };
        let ghost (gm2, _) = spec_force_stack(gm1, v);
        offs.push(off);
        let ghost s1 = self@.strings;
        let ghost offs_mid = offs@;
        let r = self.eval_args(params, i + 1, offs);
        proof {
            if r is Ok {
                assert(self@.strings =~= s0 + (lits_value(view_values(params@)[i as int])
                    + lits_values(view_values(params@), i as int + 1)));
                let (gm3, r3) = spec_eval_args(gm2, pv, i as int + 1);
                let rest = r3->Ok_0;
                assert(offs@ =~= old(offs)@ + (seq![off] + rest));
            }
        }
        r
    }

    /// Lowers one expression, returning where its value lives: exactly
    /// what [`spec_value`] states, emitted lines, interned literals,
    /// cursor and outcome alike.
    #[verifier::rlimit(100)]
    fn value(&mut self, value: &Value) -> (r: Result<Operand, CompileError>)
        ensures
            ({
                let (gv, rr) = spec_value(old(self)@, view_value(*value));
                final(self)@ == gv && res_plain(r) == rr
            }),
            final(self)@.vars == old(self)@.vars,
            final(self).variables == old(self).variables,
            final(self)@.block_count == old(self)@.block_count,
            final(self)@.cur == old(self)@.cur,
            r is Ok ==> final(self)@.strings == old(self)@.strings + lits_value(
                view_value(*value),
            ),
            *value matches Value::Str(_) ==> r matches Ok(op) && op == Operand::StrRef(
                old(self).strings.len(),
            ) && old(self).strings.len() == old(self)@.strings.len(),
            r matches Err(e) ==> view_err(e) == (CompileErrorV::Internal { loc: (0usize, 0usize) }),
        decreases *value, 0int,
    {
        match value {
            Value::FunctionCall { name, params, .. } => {
                let ghost pv = view_values(params@);
                proof {
                    lemma_view_values_index(params@);
                }
                self.emit("    ;; -- FUNCTION CALL --".to_owned());
                let ghost gm1 = spec_emit(old(self)@, "    ;; -- FUNCTION CALL --"@);
                proof {
                    assert(self@ =~= gm1);
                }
                let ghost s0 = self@.strings;
                let mut offs: Vec<usize> = Vec::new();
                match self.eval_args(params, 0, &mut offs) {
                    Ok(_) => {},
                    Err(e) => {
                        return Err(e);
                    },
                }
                let ghost (gm2, ram) = spec_eval_args(gm1, pv, 0);
                proof {
                    assert(offs@ =~= ram->Ok_0);
                }
                if params.len() > 6 {
                    proof {
                        assert(spec_value(old(self)@, view_value(*value)) == (
                            gm2,
                            Err::<Operand, ()>(()),
                        ));
                    }
                    return Err(CompileError::Internal { loc: (0, 0) });
                }
                let mut idx: usize = 0;
                while idx < offs.len()
                    invariant
                        offs@.len() <= 6,
                        self.variables == old(self).variables,
                        self@.vars == old(self)@.vars,
                        self@.block_count == old(self)@.block_count,
                        self@.cur == old(self)@.cur,
                        self@.strings == s0 + lits_values(view_values(params@), 0),
                        spec_move_args(gm2, offs@, 0) == spec_move_args(self@, offs@, idx as int),
                    decreases offs.len() - idx,
                {
                    let ghost pre = self@;
                    let mut line = "    mov ".to_owned();
                    line.append(reg_name(idx));
                    line.append(", [rbp-");
                    line.append(fmt_usize(offs[idx]).as_str());
                    line.append("]");
                    proof {
                        assert(line@ =~= "    mov "@ + reg_text(idx as int) + ", [rbp-"@
                            + dec_seq(offs@[idx as int] as nat) + "]"@);
                    }
                    self.emit(line);
                    proof {
                        assert(self@ =~= spec_emit(pre, line@));
                        assert(spec_move_args(pre, offs@, idx as int) == spec_move_args(
                            self@,
                            offs@,
                            idx as int + 1,
                        ));
                    }
                    idx = idx + 1;
                }
                let ghost gm3 = spec_move_args(gm2, offs@, 0);
                proof {
                    assert(spec_move_args(self@, offs@, offs@.len() as int) == self@);
                    assert(self@ == gm3);
                }
                let mut sub = "    sub rsp, ".to_owned();
                sub.append(fmt_usize(self.stack_offset).as_str());
                proof {
                    assert(sub@ =~= "    sub rsp, "@ + dec_seq(gm3.stack_offset as nat));
                }
                self.emit(sub);
                let ghost gm4 = spec_emit(gm3, "    sub rsp, "@ + dec_seq(gm3.stack_offset as nat));
                let mut call = "    call ".to_owned();
                call.append(name.as_str());
                proof {
                    assert(call@ =~= "    call "@ + name@);
                    assert(self@ =~= gm4);
                }
                self.emit(call);
                let ghost gm5 = spec_emit(gm4, "    call "@ + name@);
                let mut add = "    add rsp, ".to_owned();
                add.append(fmt_usize(self.stack_offset).as_str());
                proof {
                    assert(add@ =~= "    add rsp, "@ + dec_seq(gm5.stack_offset as nat));
                    assert(self@ =~= gm5);
                }
                self.emit(add);
                proof {
                    assert(self@ =~= spec_emit(gm5, "    add rsp, "@ + dec_seq(
                        gm5.stack_offset as nat,
                    )));
                    assert(spec_value(old(self)@, view_value(*value)) == (
                        self@,
                        Ok::<Operand, ()>(Operand::Reg(Reg::Rax)),
                    ));
                }
                Ok(Operand::Reg(Reg::Rax))
            },
            Value::BinaryExpr { l_expr, r_expr, op, .. } => {
                let ghost s0 = self@.strings;
                let saved = self.stack_offset;
                let lv = match self.value(l_expr) {
                    Ok(v) => v,
                    Err(e) => {
                        return Err(e);
                    },
                };
                let ghost (gm1, _) = spec_value(old(self)@, view_value(**l_expr));
                let rv = match self.value(r_expr) {
                    Ok(v) => v,
                    Err(e) => {
                        return Err(e);
                    },
                };
                let ghost (gm2, _) = spec_value(gm1, view_value(**r_expr));
                self.emit("    ;; -- BINARY EXPRESSION --".to_owned());
                let ghost gm3 = spec_emit(gm2, "    ;; -- BINARY EXPRESSION --"@);
                proof {
                    assert(self@ =~= gm3);
                }
                let l_off = match self.val_is_on_stack(lv) {
                    Ok(o) => o,
                    Err(e) => {
                        return Err(e);
                    },
                };
                let ghost (gm4, _) = spec_force_stack(gm3, lv);
                let r_off = match self.val_is_on_stack(rv) {
                    Ok(o) => o,
                    Err(e) => {
                        return Err(e);
                    },
                };
                let ghost (gm5, _) = spec_force_stack(gm4, rv);
                let mut load = "    mov rax, [rbp-".to_owned();
                load.append(fmt_usize(l_off).as_str());
                load.append("]");
                proof {
                    assert(load@ =~= "    mov rax, [rbp-"@ + dec_seq(l_off as nat) + "]"@);
                }
                self.emit(load);
                let ghost gm6 = spec_emit(gm5, "    mov rax, [rbp-"@ + dec_seq(l_off as nat)
                    + "]"@);
                proof {
                    assert(self@ =~= gm6);
                }
                match op {
                    crate::ast::Operator::Plus => {
                        let mut l = "    add rax, [rbp-".to_owned();
                        l.append(fmt_usize(r_off).as_str());
                        l.append("]");
                        proof {
                            assert(l@ =~= "    add rax, [rbp-"@ + dec_seq(r_off as nat) + "]"@);
                        }
                        self.emit(l);
                    },
                    crate::ast::Operator::Minus => {
                        let mut l = "    sub rax, [rbp-".to_owned();
                        l.append(fmt_usize(r_off).as_str());
                        l.append("]");
                        proof {
                            assert(l@ =~= "    sub rax, [rbp-"@ + dec_seq(r_off as nat) + "]"@);
                        }
                        self.emit(l);
                    },
                    crate::ast::Operator::Multiplication => {
                        let mut l = "    mov rbx, [rbp-".to_owned();
                        l.append(fmt_usize(r_off).as_str());
                        l.append("]");
                        proof {
                            assert(l@ =~= "    mov rbx, [rbp-"@ + dec_seq(r_off as nat) + "]"@);
                        }
                        self.emit(l);
                        self.emit("    mul rbx".to_owned());
                    },
                    crate::ast::Operator::Divide => {
                        let mut l = "    mov rbx, [rbp-".to_owned();
                        l.append(fmt_usize(r_off).as_str());
                        l.append("]");
                        proof {
                            assert(l@ =~= "    mov rbx, [rbp-"@ + dec_seq(r_off as nat) + "]"@);
                        }
                        self.emit(l);
                        self.emit("    div rbx".to_owned());
                    },
                }
                proof {
                    assert(self@ =~= spec_arith(gm6, *op, r_off));
                }
                self.stack_offset = saved;
                proof {
                    assert(self@.strings =~= s0 + lits_value(view_value(*value)));
                    assert(self@ =~= (CodeGenV {
                        stack_offset: old(self)@.stack_offset,
                        ..spec_arith(gm6, *op, r_off)
                    }));
                    assert(spec_value(old(self)@, view_value(*value)) == (
                        self@,
                        Ok::<Operand, ()>(Operand::Reg(Reg::Rax)),
                    ));
                }
                Ok(Operand::Reg(Reg::Rax))
            },
            Value::Ref(inner) => {
                self.emit("    ;; -- REFERENCE --".to_owned());
                let ghost gm1 = spec_emit(old(self)@, "    ;; -- REFERENCE --"@);
                proof {
                    assert(self@ =~= gm1);
                }
                let iv = match self.value(inner) {
                    Ok(v) => v,
                    Err(e) => {
                        return Err(e);
                    },
                };
                let ghost (gm2, _) = spec_value(gm1, view_value(**inner));
                let mut line = "    lea rax, ".to_owned();
                line.append(Self::operand_string(&iv).as_str());
                proof {
                    assert(line@ =~= "    lea rax, "@ + operand_text(iv));
                }
                self.emit(line);
                proof {
                    assert(self@ =~= spec_emit(gm2, "    lea rax, "@ + operand_text(iv)));
                    assert(spec_value(old(self)@, view_value(*value)) == (
                        self@,
                        Ok::<Operand, ()>(Operand::Reg(Reg::Rax)),
                    ));
                }
                Ok(Operand::Reg(Reg::Rax))
            },
            Value::Deref(inner, _) => {
                self.emit("    ;; -- DEREFERENCE --".to_owned());
                let ghost gm1 = spec_emit(old(self)@, "    ;; -- DEREFERENCE --"@);
                proof {
                    assert(self@ =~= gm1);
                }
                let iv = match self.value(inner) {
                    Ok(v) => v,
                    Err(e) => {
                        return Err(e);
                    },
                };
                let ghost (gm2, _) = spec_value(gm1, view_value(**inner));
                if iv != Operand::Reg(Reg::Rax) {
                    let mut line = "    mov rax, ".to_owned();
                    line.append(Self::operand_string(&iv).as_str());
                    proof {
                        assert(line@ =~= "    mov rax, "@ + operand_text(iv));
                    }
                    self.emit(line);
                }
                let ghost gm3 = if iv != Operand::Reg(Reg::Rax) {
                    spec_emit(gm2, "    mov rax, "@ + operand_text(iv))
                } else {
                    gm2
                };
                proof {
                    assert(self@ =~= gm3);
                }
                self.emit("    mov rbx, [rax]".to_owned());
                proof {
                    assert(self@ =~= spec_emit(gm3, "    mov rbx, [rax]"@));
                    assert(spec_value(old(self)@, view_value(*value)) == (
                        self@,
                        Ok::<Operand, ()>(Operand::Reg(Reg::Rbx)),
                    ));
                }
                Ok(Operand::Reg(Reg::Rbx))
            },
            Value::Cast(inner, _) => self.value(inner),
            Value::Int(n) => {
                proof {
                    assert(self@.strings =~= self@.strings + lits_value(view_value(*value)));
                }
                Ok(Operand::Imm(*n))
            },
            Value::Str(s) => {
                let ghost pre = self.strings@;
                self.strings.push(s.clone());
                proof {
                    lemma_view_strings_push(pre, *s);
                    assert(self@ =~= CodeGenV {
                        strings: old(self)@.strings.push(s@),
                        ..old(self)@
                    });
                    assert(self@.strings =~= old(self)@.strings + lits_value(
                        view_value(*value),
                    ));
                    lemma_view_strings_index(pre);
                    assert(spec_value(old(self)@, view_value(*value)) == (
                        self@,
                        Ok::<Operand, ()>(Operand::StrRef(old(self)@.strings.len() as usize)),
                    ));
                }
                Ok(Operand::StrRef(self.strings.len() - 1))
            },
            Value::Ident(name) => match self.find_slot(name) {
                Some((off, _)) => Ok(Operand::Stack(off)),
                None => Err(CompileError::Internal { loc: (0, 0) }),
            },
            Value::Null => {
                proof {
                    assert(self@.strings =~= self@.strings + lits_value(view_value(*value)));
                }
                Ok(Operand::Null)
            },
        }
    }

    /// Lowers a comparison: both sides are forced onto the stack and
    /// compared, and the caller receives the inverted jump mnemonic,
    /// the one that skips the guarded body when the source comparison
    /// fails.
    fn comparison(&mut self, comp: &Comparison) -> (r: Result<String, CompileError>)
        ensures
            ({
                let (gv, rr) = spec_cmp_lower(old(self)@, view_cmp(*comp));
                &&& final(self)@ == gv
                &&& r is Ok <==> rr is Ok
                &&& r matches Ok(s) ==> rr matches Ok(t) && s@ == t
            }),
            final(self)@.vars == old(self)@.vars,
            final(self).variables == old(self).variables,
            final(self)@.block_count == old(self)@.block_count,
            final(self)@.cur == old(self)@.cur,
            r matches Ok(s) ==> s@ == jump_text(inverted_jump(comp.op)),
            r is Ok ==> final(self)@.strings == old(self)@.strings + lits_cmp(view_cmp(*comp)),
            r is Ok ==> final(self)@.stack_offset == old(self)@.stack_offset,
            r matches Err(e) ==> view_err(e) == (CompileErrorV::Internal { loc: (0usize, 0usize) }),
    {
        let ghost s0 = self@.strings;
        let saved = self.stack_offset;
        let lv = match self.value(&comp.l_expr) {
            Ok(v) => v,
            Err(e) => {
                return Err(e);
            },
        };
        let ghost (gm1, _) = spec_value(old(self)@, view_value(*comp.l_expr));
        let rv = match self.value(&comp.r_expr) {
            Ok(v) => v,
            Err(e) => {
                return Err(e);
            },
        };
        let ghost (gm2, _) = spec_value(gm1, view_value(*comp.r_expr));
        self.emit("    ;; -- COMPARISON --".to_owned());
        let ghost gm3 = spec_emit(gm2, "    ;; -- COMPARISON --"@);
        proof {
            assert(self@ =~= gm3);
        }
        let l_off = match self.val_is_on_stack(lv) {
            Ok(o) => o,
            Err(e) => {
                return Err(e);
            },
        };
        let ghost (gm4, _) = spec_force_stack(gm3, lv);
        let r_off = match self.val_is_on_stack(rv) {
            Ok(o) => o,
            Err(e) => {
                return Err(e);
            },
        };
        let ghost (gm5, _) = spec_force_stack(gm4, rv);
        let mut load = "    mov rax, [rbp-".to_owned();
        load.append(fmt_usize(l_off).as_str());
        load.append("]");
        proof {
            assert(load@ =~= "    mov rax, [rbp-"@ + dec_seq(l_off as nat) + "]"@);
        }
        self.emit(load);
        let ghost gm6 = spec_emit(gm5, "    mov rax, [rbp-"@ + dec_seq(l_off as nat) + "]"@);
        let mut cmp = "    cmp rax, [rbp-".to_owned();
        cmp.append(fmt_usize(r_off).as_str());
        cmp.append("]");
        proof {
            assert(cmp@ =~= "    cmp rax, [rbp-"@ + dec_seq(r_off as nat) + "]"@);
            assert(self@ =~= gm6);
        }
        self.emit(cmp);
        self.stack_offset = saved;
        proof {
            assert(self@.strings =~= s0 + lits_cmp(view_cmp(*comp)));
            assert(self@ =~= (CodeGenV {
                stack_offset: old(self)@.stack_offset,
                ..spec_emit(gm6, "    cmp rax, [rbp-"@ + dec_seq(r_off as nat) + "]"@)
            }));
            assert(spec_cmp_lower(old(self)@, view_cmp(*comp)) == (
                self@,
                Ok::<Seq<char>, ()>(jump_text(inverted_jump(comp.op))),
            ));
        }
        match comp.op {
            ComparisonOp::Equal => Ok("jne".to_owned()),
            ComparisonOp::NotEqual => Ok("je".to_owned()),
            ComparisonOp::Bigger => Ok("jle".to_owned()),
            ComparisonOp::Smaller => Ok("jg".to_owned()),
        }
    }

    /// Emits the executable-segment header.
    fn entry_lines(&mut self)
        ensures
            final(self)@ == spec_entry(old(self)@),
            final(self).variables == old(self).variables,
    {
        self.emit("format ELF64 executable 3".to_owned());
        self.emit("segment readable executable".to_owned());
        proof {
            assert(self@ =~= spec_entry(old(self)@));
        }
    }

    /// Emits the program exit block and the writable data segment: one
    /// line per interned literal, in encounter order, each index
    /// appearing exactly once.
    fn exit_section(&mut self)
        ensures
            final(self)@ == (CodeGenV {
                out: old(self)@.out + exit_preamble() + data_lines(old(self)@.strings),
                ..old(self)@
            }),
    {
        self.emit("entry start".to_owned());
        self.emit("start:".to_owned());
        self.emit("    call main".to_owned());
        self.emit("    mov rdi, rax".to_owned());
        self.emit("    mov rax, 60".to_owned());
        self.emit("    syscall".to_owned());
        self.emit("segment readable writeable".to_owned());
        proof {
            assert(self@.out =~= old(self)@.out + exit_preamble());
            lemma_view_strings_index(self.strings@);
        }
        let ghost base = self@.out;
        let mut k: usize = 0;
        while k < self.strings.len()
            invariant
                0 <= k <= self.strings.len(),
                self@.strings == old(self)@.strings,
                self@.vars == old(self)@.vars,
                self@.block_count == old(self)@.block_count,
                self@.stack_offset == old(self)@.stack_offset,
                self@.cur == old(self)@.cur,
                self@.strings.len() == self.strings@.len(),
                forall|x: int| 0 <= x < self.strings@.len() ==> self@.strings[x]
                    == self.strings@[x]@,
                self@.out =~= base + Seq::new(k as nat, |i: int| data_line(i, self@.strings[i])),
            decreases self.strings.len() - k,
        {
            let sk = self.strings[k].clone();
            let mut line = "str_".to_owned();
            line.append(fmt_usize(k).as_str());
            line.append(" db \"");
            line.append(output_string_asm(sk.as_str()).as_str());
            line.append("\", 0");
            proof {
                assert(line@ =~= data_line(k as int, self@.strings[k as int]));
            }
            self.emit(line);
            proof {
                assert(self@.out =~= base + Seq::new(
                    (k + 1) as nat,
                    |i: int| data_line(i, self@.strings[i]),
                ));
            }
            k = k + 1;
        }
        proof {
            assert(Seq::new(k as nat, |i: int| data_line(i, self@.strings[i])) =~= data_lines(
                old(self)@.strings,
            ));
            assert(self@.out =~= old(self)@.out + exit_preamble() + data_lines(
                old(self)@.strings,
            ));
            assert(self@ =~= CodeGenV {
                out: old(self)@.out + exit_preamble() + data_lines(old(self)@.strings),
                ..old(self)@
            });
        }
    }

    /// Tears the innermost frame down, reclaiming the stack space its
    /// variables held: the cursor is pulled back by the bytes the
    /// frame's slots held, to zero at the lowest.
    fn pop_frame_release(&mut self)
        requires
            old(self).variables.len() > 0,
        ensures
            final(self)@ == spec_release(old(self)@),
            final(self)@.vars == old(self)@.vars.drop_last(),
            final(self)@.strings == old(self)@.strings,
            final(self)@.out == old(self)@.out,
            final(self)@.block_count == old(self)@.block_count,
            final(self)@.cur == old(self)@.cur,
            final(self).variables.len() == old(self).variables.len() - 1,
    {
        proof {
            lemma_view_frames_index(old(self).variables@);
        }
        let top = match self.variables.pop() {
            Some(f) => f,
            None => Vec::new(),
        };
        proof {
            lemma_view_slots_index(top@);
            assert(view_slots(top@) == old(self)@.vars.last());
        }
        let mut total: usize = 0;
        let mut k: usize = 0;
        while k < top.len()
            invariant
                0 <= k <= top.len(),
                view_slots(top@).len() == top@.len(),
                forall|x: int| 0 <= x < top@.len() ==> view_slots(top@)[x] == (
                    top@[x].0@,
                    top@[x].1,
                    top@[x].2,
                ),
                total == frame_total(view_slots(top@), k as int),
            decreases top.len() - k,
        {
            if total <= usize::MAX - top[k].2 {
                total = total + top[k].2;
            }
            k = k + 1;
        }
        if self.stack_offset >= total {
            self.stack_offset = self.stack_offset - total;
        } else {
            self.stack_offset = 0;
        }
        proof {
            lemma_view_frames_index(self.variables@);
            lemma_view_frames_index(old(self).variables@);
            assert(self.variables@ =~= old(self).variables@.take(
                old(self).variables@.len() - 1,
            ));
            assert(self@.vars =~= old(self)@.vars.drop_last());
            assert(self@ =~= spec_release(old(self)@));
        }
    }
}


impl CodeGen {
    /// Emits the parameter stores of a function prologue and binds each
    /// parameter to its slot: exactly what [`spec_bind_params`] states.
    fn bind_param_slots(&mut self, param_t: &Vec<(String, Type)>) -> (r: Result<(), CompileError>)
        requires
            old(self).variables.len() > 0,
            param_t@.len() <= 6,
        ensures
            ({
                let (gv, rr) = spec_bind_params(old(self)@, view_params(param_t@), 0);
                final(self)@ == gv && res_plain(r) == rr
            }),
            final(self).variables.len() == old(self).variables.len(),
            final(self)@.vars.len() == old(self)@.vars.len(),
            final(self)@.vars.drop_last() == old(self)@.vars.drop_last(),
            final(self)@.strings == old(self)@.strings,
            final(self)@.block_count == old(self)@.block_count,
            final(self)@.cur == old(self)@.cur,
            r matches Err(e) ==> view_err(e) == (CompileErrorV::Internal { loc: (0usize, 0usize) }),
    {
        let ghost ptv = view_params(param_t@);
        proof {
            lemma_view_params_index(param_t@);
        }
        let mut idx: usize = 0;
        while idx < param_t.len()
            invariant
                0 <= idx <= param_t.len(),
                param_t@.len() <= 6,
                ptv == view_params(param_t@),
                ptv.len() == param_t@.len(),
                forall|x: int| 0 <= x < param_t@.len() ==> ptv[x] == (
                    param_t@[x].0@,
                    param_t@[x].1,
                ),
                old(self).variables.len() > 0,
                self.variables.len() == old(self).variables.len(),
                self@.vars.len() == old(self)@.vars.len(),
                self@.vars.drop_last() == old(self)@.vars.drop_last(),
                self@.strings == old(self)@.strings,
                self@.block_count == old(self)@.block_count,
                self@.cur == old(self)@.cur,
                spec_bind_params(old(self)@, ptv, 0) == spec_bind_params(self@, ptv, idx as int),
            decreases param_t.len() - idx,
        {
            let ghost pre = self@;
            let size = param_t[idx].1.size();
            if self.stack_offset > usize::MAX - size {
                proof {
                    assert(spec_bind_params(pre, ptv, idx as int) == (pre, Err::<(), ()>(())));
                }
                return Err(CompileError::Internal { loc: (0, 0) });
            }
            self.stack_offset = self.stack_offset + size;
            let mut line = "    mov [rbp-".to_owned();
            line.append(fmt_usize(self.stack_offset).as_str());
            line.append("], ");
            line.append(reg_name(idx));
            proof {
                assert(line@ =~= "    mov [rbp-"@ + dec_seq((pre.stack_offset + size) as nat)
                    + "], "@ + reg_text(idx as int));
            }
            self.emit(line);
            let ghost pre2 = self@;
            self.bind_slot(param_t[idx].0.clone(), self.stack_offset, size);
            proof {
                assert(self@.vars.drop_last() =~= pre2.vars.drop_last());
                let off = (pre.stack_offset + size) as usize;
                assert(pre2 =~= spec_emit(
                    CodeGenV { stack_offset: off, ..pre },
                    "    mov [rbp-"@ + dec_seq(off as nat) + "], "@ + reg_text(idx as int),
                ));
                assert(self@ =~= spec_bind(pre2, param_t@[idx as int].0@, off, size));
                assert(spec_bind_params(pre, ptv, idx as int) == spec_bind_params(
                    self@,
                    ptv,
                    idx as int + 1,
                ));
            }
            idx = idx + 1;
        }
        proof {
            assert(spec_bind_params(self@, ptv, idx as int) == (self@, Ok::<(), ()>(())));
        }
        Ok(())
    }

    /// Lowers one declared function: exactly what [`spec_gen_fn`]
    /// states.
    #[verifier::rlimit(100)]
    fn gen_fn(&mut self, name: &String, param_t: &Vec<(String, Type)>, body: &Vec<Ast>) -> (r:
        Result<(), CompileError>)
        requires
            old(self).variables.len() > 0,
            param_t@.len() <= 6,
        ensures
            ({
                let (gv, rr) = spec_gen_fn(
                    old(self)@,
                    name@,
                    view_params(param_t@),
                    view_asts(body@),
                );
                final(self)@ == gv && res_plain(r) == rr
            }),
            final(self)@.cur == old(self)@.cur,
            final(self)@.block_count >= old(self)@.block_count,
            final(self).variables.len() == old(self).variables.len(),
            final(self)@.vars.len() == old(self)@.vars.len(),
            old(self)@.vars.len() > 0 ==> final(self)@.vars.drop_last()
                == old(self)@.vars.drop_last(),
            r is Ok ==> final(self)@.strings == old(self)@.strings + lits_asts(
                view_asts(body@),
                0,
            ),
            r matches Err(e) ==> view_err(e) == (CompileErrorV::Internal { loc: (0usize, 0usize) }),
        decreases *body, body.len() + 2, 0int,
    {
        proof {
            lemma_view_frames_index(self.variables@);
            lemma_view_params_index(param_t@);
        }
        let ghost ptv = view_params(param_t@);
        self.emit("    ;; -- FUNCTION --".to_owned());
        let mut label = name.clone();
        label.append(":");
        proof {
            assert(label@ =~= name@ + ":"@);
        }
        self.emit(label);
        self.emit("    push rbp".to_owned());
        self.emit("    mov rbp, rsp".to_owned());
        let ghost gm4 = spec_emit(
            spec_emit(
                spec_emit(spec_emit(old(self)@, "    ;; -- FUNCTION --"@), name@ + ":"@),
                "    push rbp"@,
            ),
            "    mov rbp, rsp"@,
        );
        proof {
            assert(self@ =~= gm4);
        }
        self.push_frame();
        let saved = self.current_fn.clone();
        self.current_fn = name.clone();
        let ghost mid = self@;
        proof {
            assert(mid =~= (CodeGenV { cur: name@, ..spec_push(gm4) }));
        }
        let rp = self.bind_param_slots(param_t);
        match rp {
            Err(e) => {
                let ghost prepop = self@;
                self.pop_frame_release();
                self.current_fn = saved;
                proof {
                    assert(self@.vars =~= old(self)@.vars);
                    assert(self@ =~= (CodeGenV { cur: old(self)@.cur, ..spec_release(prepop) }));
                    assert(spec_gen_fn(old(self)@, name@, ptv, view_asts(body@)) == (
                        self@,
                        Err::<(), ()>(()),
                    ));
                }
                return Err(e);
            },
            Ok(_) => {},
        }
        proof {
            lemma_view_frames_index(self.variables@);
            assert(spec_bind_params(mid, ptv, 0) == (self@, Ok::<(), ()>(())));
        }
        let ghost postparams = self@;
        let rb = self.generate(body, false);
        proof {
            lemma_view_frames_index(self.variables@);
        }
        let ghost (gm7, _) = spec_generate_at(postparams, view_asts(body@), false);
        match rb {
            Err(e) => {
                let ghost prepop = self@;
                self.pop_frame_release();
                self.current_fn = saved;
                proof {
                    assert(self@.vars =~= old(self)@.vars);
                    assert(self@ =~= (CodeGenV { cur: old(self)@.cur, ..spec_release(prepop) }));
                    assert(spec_gen_fn(old(self)@, name@, ptv, view_asts(body@)) == (
                        self@,
                        Err::<(), ()>(()),
                    ));
                }
                return Err(e);
            },
            Ok(_) => {},
        }
        let mut ret_label = name.clone();
        ret_label.append("_ret:");
        proof {
            assert(ret_label@ =~= name@ + "_ret:"@);
        }
        self.emit(ret_label);
        self.emit("    pop rbp".to_owned());
        self.emit("    ret".to_owned());
        let ghost gm10 = spec_emit(
            spec_emit(spec_emit(gm7, name@ + "_ret:"@), "    pop rbp"@),
            "    ret"@,
        );
        proof {
            assert(self@ =~= gm10);
        }
        self.pop_frame_release();
        self.current_fn = saved;
        proof {
            assert(self@.vars =~= old(self)@.vars);
            assert(self@.strings =~= old(self)@.strings + lits_asts(view_asts(body@), 0));
            assert(self@ =~= (CodeGenV { cur: old(self)@.cur, ..spec_release(gm10) }));
            assert(spec_gen_fn(old(self)@, name@, ptv, view_asts(body@)) == (
                self@,
                Ok::<(), ()>(()),
            ));
        }
        Ok(())
    }

    /// Lowers one statement: exactly what [`spec_gen_stmt`] states,
    /// emitted lines, bindings, labels, cursor and outcome alike.
    #[verifier::rlimit(100)]
    fn gen_stmt(&mut self, stmt: &Ast) -> (r: Result<(), CompileError>)
        requires
            old(self).variables.len() > 0,
        ensures
            ({
                let (gv, rr) = spec_gen_stmt(old(self)@, view_ast(*stmt));
                final(self)@ == gv && res_plain(r) == rr
            }),
            final(self)@.cur == old(self)@.cur,
            final(self)@.block_count >= old(self)@.block_count,
            final(self).variables.len() == old(self).variables.len(),
            final(self)@.vars.len() == old(self)@.vars.len(),
            old(self)@.vars.len() > 0 ==> final(self)@.vars.drop_last()
                == old(self)@.vars.drop_last(),
            r is Ok ==> final(self)@.strings == old(self)@.strings + lits_ast(view_ast(*stmt)),
            r matches Err(e) ==> view_err(e) == (CompileErrorV::Internal { loc: (0usize, 0usize) }),
        decreases *stmt, 0int, 0int,
    {
        proof {
            lemma_view_frames_index(self.variables@);
        }
        match stmt {
            Ast::Function { name, param_t, body, .. } => {
                proof {
                    lemma_view_params_index(param_t@);
                }
                if param_t.len() > 6 {
                    return Err(CompileError::Internal { loc: (0, 0) });
                }
                let r = self.gen_fn(name, param_t, body);
                proof {
                    if r is Ok {
                        assert(self@.strings =~= old(self)@.strings + lits_ast(view_ast(*stmt)));
                    }
                }
                r
            },
            Ast::Return { value, .. } => {
                self.emit("    ;; -- RETURN --".to_owned());
                let ghost gm1 = spec_emit(old(self)@, "    ;; -- RETURN --"@);
                proof {
                    assert(self@ =~= gm1);
                }
                let val = match self.value(value) {
                    Ok(v) => v,
                    Err(e) => {
                        return Err(e);
                    },
                };
                let ghost (gm2, _) = spec_value(gm1, view_value(*value));
                let mut line = "    mov rax, ".to_owned();
                line.append(Self::operand_string(&val).as_str());
                proof {
                    assert(line@ =~= "    mov rax, "@ + operand_text(val));
                }
                self.emit(line);
                let ghost gm3 = spec_emit(gm2, "    mov rax, "@ + operand_text(val));
                let mut jmp = "    jmp ".to_owned();
                let cur = self.current_fn.clone();
                jmp.append(cur.as_str());
                jmp.append("_ret");
                proof {
                    assert(self@ =~= gm3);
                    assert(jmp@ =~= "    jmp "@ + gm3.cur + "_ret"@);
                }
                self.emit(jmp);
                proof {
                    assert(self@ =~= spec_emit(gm3, "    jmp "@ + gm3.cur + "_ret"@));
                    assert(spec_gen_stmt(old(self)@, view_ast(*stmt)) == (
                        self@,
                        Ok::<(), ()>(()),
                    ));
                }
                Ok(())
            },
            Ast::Variable { name, var_t, value, .. } => {
                let size = var_t.size();
                if self.stack_offset > usize::MAX - size {
                    return Err(CompileError::Internal { loc: (0, 0) });
                }
                self.stack_offset = self.stack_offset + size;
                let off = self.stack_offset;
                self.emit("    ;; -- VARIABLE --".to_owned());
                let ghost gm1 = spec_emit(
                    CodeGenV { stack_offset: off, ..old(self)@ },
                    "    ;; -- VARIABLE --"@,
                );
                proof {
                    assert(self@ =~= gm1);
                }
                let val = match self.value(value) {
                    Ok(v) => v,
                    Err(e) => {
                        return Err(e);
                    },
                };
                let ghost (gm2, _) = spec_value(gm1, view_value(*value));
                let reg = self.val_is_in_reg(val);
                let ghost (gm3, regt) = spec_in_reg(gm2, val);
                let mut line = "    mov qword [rbp-".to_owned();
                line.append(fmt_usize(off).as_str());
                line.append("], ");
                line.append(reg.as_str());
                proof {
                    assert(line@ =~= "    mov qword [rbp-"@ + dec_seq(off as nat) + "], "@
                        + regt);
                }
                self.emit(line);
                let ghost gm4 = spec_emit(
                    gm3,
                    "    mov qword [rbp-"@ + dec_seq(off as nat) + "], "@ + regt,
                );
                let ghost pre = self@;
                self.bind_slot(name.clone(), off, size);
                proof {
                    assert(self@.vars.drop_last() =~= pre.vars.drop_last());
                    assert(pre =~= gm4);
                    assert(self@ =~= spec_bind(gm4, name@, off, size));
                    assert(spec_gen_stmt(old(self)@, view_ast(*stmt)) == (
                        self@,
                        Ok::<(), ()>(()),
                    ));
                }
                Ok(())
            },
            Ast::MutateVar { name, value, .. } => {
                self.emit("    ;; -- MUTATE VARIABLE --".to_owned());
                let ghost gm1 = spec_emit(old(self)@, "    ;; -- MUTATE VARIABLE --"@);
                proof {
                    assert(self@ =~= gm1);
                }
                let val = match self.value(value) {
                    Ok(v) => v,
                    Err(e) => {
                        return Err(e);
                    },
                };
                let ghost (gm2, _) = spec_value(gm1, view_value(*value));
                let reg = self.val_is_in_reg(val);
                let ghost (gm3, regt) = spec_in_reg(gm2, val);
                let off = match self.find_slot(name) {
                    Some((off, _)) => off,
                    None => {
                        return Err(CompileError::Internal { loc: (0, 0) });
                    },
                };
                let mut line = "    mov qword [rbp-".to_owned();
                line.append(fmt_usize(off).as_str());
                line.append("], ");
                line.append(reg.as_str());
                proof {
                    assert(line@ =~= "    mov qword [rbp-"@ + dec_seq(off as nat) + "], "@
                        + regt);
                }
                self.emit(line);
                proof {
                    assert(self@ =~= spec_emit(
                        gm3,
                        "    mov qword [rbp-"@ + dec_seq(off as nat) + "], "@ + regt,
                    ));
                    assert(spec_gen_stmt(old(self)@, view_ast(*stmt)) == (
                        self@,
                        Ok::<(), ()>(()),
                    ));
                }
                Ok(())
            },
            Ast::MutatePtr { ptr, value, .. } => {
                let ghost s0 = self@.strings;
                self.emit("    ;; -- MUTATE POINTER --".to_owned());
                let ghost gm1 = spec_emit(old(self)@, "    ;; -- MUTATE POINTER --"@);
                proof {
                    assert(self@ =~= gm1);
                }
                let val = match self.value(value) {
                    Ok(v) => v,
                    Err(e) => {
                        return Err(e);
                    },
                };
                let ghost (gm2, _) = spec_value(gm1, view_value(*value));
                let pv = match self.value(ptr) {
                    Ok(v) => v,
                    Err(e) => {
                        return Err(e);
                    },
                };
                let ghost (gm3, _) = spec_value(gm2, view_value(*ptr));
                let v_off = match self.val_is_on_stack(val) {
                    Ok(o) => o,
                    Err(e) => {
                        return Err(e);
                    },
                };
                let ghost (gm4, _) = spec_force_stack(gm3, val);
                let p_off = match self.val_is_on_stack(pv) {
                    Ok(o) => o,
                    Err(e) => {
                        return Err(e);
                    },
                };
                let ghost (gm5, _) = spec_force_stack(gm4, pv);
                let mut l1 = "    mov rax, [rbp-".to_owned();
                l1.append(fmt_usize(p_off).as_str());
                l1.append("]");
                proof {
                    assert(l1@ =~= "    mov rax, [rbp-"@ + dec_seq(p_off as nat) + "]"@);
                }
                self.emit(l1);
                let ghost gm6 = spec_emit(gm5, "    mov rax, [rbp-"@ + dec_seq(p_off as nat)
                    + "]"@);
                let mut l2 = "    mov rbx, [rbp-".to_owned();
                l2.append(fmt_usize(v_off).as_str());
                l2.append("]");
                proof {
                    assert(l2@ =~= "    mov rbx, [rbp-"@ + dec_seq(v_off as nat) + "]"@);
                    assert(self@ =~= gm6);
                }
                self.emit(l2);
                let ghost gm7 = spec_emit(gm6, "    mov rbx, [rbp-"@ + dec_seq(v_off as nat)
                    + "]"@);
                self.emit("    mov [rax], rbx".to_owned());
                proof {
                    assert(self@.strings =~= s0 + lits_ast(view_ast(*stmt)));
                    assert(self@ =~= spec_emit(gm7, "    mov [rax], rbx"@));
                    assert(spec_gen_stmt(old(self)@, view_ast(*stmt)) == (
                        self@,
                        Ok::<(), ()>(()),
                    ));
                }
                Ok(())
            },
            Ast::If { comparison, body, else_body, .. } => {
                let ghost s0 = self@.strings;
                if self.block_count > usize::MAX - 2 {
                    return Err(CompileError::Internal { loc: (0, 0) });
                }
                let false_label = self.block_count + 1;
                let join_label = self.block_count + 2;
                self.block_count = self.block_count + 2;
                self.emit("    ;; -- IF --".to_owned());
                let ghost gm1 = spec_emit(
                    CodeGenV { block_count: join_label, ..old(self)@ },
                    "    ;; -- IF --"@,
                );
                proof {
                    assert(self@ =~= gm1);
                }
                let jmp = match self.comparison(comparison) {
                    Ok(j) => j,
                    Err(e) => {
                        return Err(e);
                    },
                };
                let ghost (gm2, _) = spec_cmp_lower(gm1, view_cmp(*comparison));
                let mut branch = "    ".to_owned();
                branch.append(jmp.as_str());
                branch.append(" BB_");
                branch.append(fmt_usize(false_label).as_str());
                proof {
                    assert(branch@ =~= "    "@ + jmp@ + " BB_"@ + dec_seq(false_label as nat));
                }
                self.emit(branch);
                let ghost gm3 = spec_emit(
                    gm2,
                    "    "@ + jmp@ + " BB_"@ + dec_seq(false_label as nat),
                );
                proof {
                    assert(self@ =~= gm3);
                }
                let rb = self.generate(body, false);
                proof {
                    lemma_view_frames_index(self.variables@);
                }
                let ghost (gm4, _) = spec_generate_at(gm3, view_asts(body@), false);
                match rb {
                    Ok(_) => {},
                    Err(e) => {
                        return Err(e);
                    },
                }
                let mut tojoin = "    jmp BB_".to_owned();
                tojoin.append(fmt_usize(join_label).as_str());
                proof {
                    assert(tojoin@ =~= "    jmp BB_"@ + dec_seq(join_label as nat));
                }
                self.emit(tojoin);
                let ghost gm5 = spec_emit(gm4, "    jmp BB_"@ + dec_seq(join_label as nat));
                let mut flab = "BB_".to_owned();
                flab.append(fmt_usize(false_label).as_str());
                flab.append(":");
                proof {
                    assert(flab@ =~= "BB_"@ + dec_seq(false_label as nat) + ":"@);
                    assert(self@ =~= gm5);
                }
                self.emit(flab);
                let ghost gm6 = spec_emit(gm5, "BB_"@ + dec_seq(false_label as nat) + ":"@);
                let re2 = self.generate(else_body, false);
                proof {
                    lemma_view_frames_index(self.variables@);
                }
                let ghost (gm7, _) = spec_generate_at(gm6, view_asts(else_body@), false);
                match re2 {
                    Ok(_) => {},
                    Err(e) => {
                        return Err(e);
                    },
                }
                let mut jlab = "BB_".to_owned();
                jlab.append(fmt_usize(join_label).as_str());
                jlab.append(":");
                proof {
                    assert(jlab@ =~= "BB_"@ + dec_seq(join_label as nat) + ":"@);
                }
                self.emit(jlab);
                proof {
                    assert(self@.strings =~= s0 + lits_ast(view_ast(*stmt)));
                    assert(self@ =~= spec_emit(gm7, "BB_"@ + dec_seq(join_label as nat) + ":"@));
                    assert(spec_gen_stmt(old(self)@, view_ast(*stmt)) == (
                        self@,
                        Ok::<(), ()>(()),
                    ));
                }
                Ok(())
            },
            Ast::While { comparison, body, .. } => {
                let ghost s0 = self@.strings;
                if self.block_count > usize::MAX - 2 {
                    return Err(CompileError::Internal { loc: (0, 0) });
                }
                let entry_label = self.block_count + 1;
                let exit_label = self.block_count + 2;
                self.block_count = self.block_count + 2;
                self.emit("    ;; -- WHILE --".to_owned());
                let ghost gm1 = spec_emit(
                    CodeGenV { block_count: exit_label, ..old(self)@ },
                    "    ;; -- WHILE --"@,
                );
                let mut elab = "BB_".to_owned();
                elab.append(fmt_usize(entry_label).as_str());
                elab.append(":");
                proof {
                    assert(elab@ =~= "BB_"@ + dec_seq(entry_label as nat) + ":"@);
                    assert(self@ =~= gm1);
                }
                self.emit(elab);
                let ghost gm2 = spec_emit(gm1, "BB_"@ + dec_seq(entry_label as nat) + ":"@);
                proof {
                    assert(self@ =~= gm2);
                }
                let jmp = match self.comparison(comparison) {
                    Ok(j) => j,
                    Err(e) => {
                        return Err(e);
                    },
                };
                let ghost (gm3, _) = spec_cmp_lower(gm2, view_cmp(*comparison));
                let mut branch = "    ".to_owned();
                branch.append(jmp.as_str());
                branch.append(" BB_");
                branch.append(fmt_usize(exit_label).as_str());
                proof {
                    assert(branch@ =~= "    "@ + jmp@ + " BB_"@ + dec_seq(exit_label as nat));
                }
                self.emit(branch);
                let ghost gm4 = spec_emit(
                    gm3,
                    "    "@ + jmp@ + " BB_"@ + dec_seq(exit_label as nat),
                );
                proof {
                    assert(self@ =~= gm4);
                }
                let rb2 = self.generate(body, false);
                proof {
                    lemma_view_frames_index(self.variables@);
                }
                let ghost (gm5, _) = spec_generate_at(gm4, view_asts(body@), false);
                match rb2 {
                    Ok(_) => {},
                    Err(e) => {
                        return Err(e);
                    },
                }
                let mut back = "    jmp BB_".to_owned();
                back.append(fmt_usize(entry_label).as_str());
                proof {
                    assert(back@ =~= "    jmp BB_"@ + dec_seq(entry_label as nat));
                }
                self.emit(back);
                let ghost gm6 = spec_emit(gm5, "    jmp BB_"@ + dec_seq(entry_label as nat));
                let mut xlab = "BB_".to_owned();
                xlab.append(fmt_usize(exit_label).as_str());
                xlab.append(":");
                proof {
                    assert(xlab@ =~= "BB_"@ + dec_seq(exit_label as nat) + ":"@);
                    assert(self@ =~= gm6);
                }
                self.emit(xlab);
                proof {
                    assert(self@.strings =~= s0 + lits_ast(view_ast(*stmt)));
                    assert(self@ =~= spec_emit(gm6, "BB_"@ + dec_seq(exit_label as nat) + ":"@));
                    assert(spec_gen_stmt(old(self)@, view_ast(*stmt)) == (
                        self@,
                        Ok::<(), ()>(()),
                    ));
                }
                Ok(())
            },
            Ast::InlineAsm { text, .. } => {
                self.emit(text.clone());
                proof {
                    assert(self@.strings =~= self@.strings + lits_ast(view_ast(*stmt)));
                    assert(self@ =~= spec_emit(old(self)@, text@));
                    assert(spec_gen_stmt(old(self)@, view_ast(*stmt)) == (
                        self@,
                        Ok::<(), ()>(()),
                    ));
                }
                Ok(())
            },
        }
    }

    /// Lowers a statement run from position `i` on.
    #[verifier::rlimit(100)]
    fn gen_seq(&mut self, ast: &Vec<Ast>, i: usize) -> (r: Result<(), CompileError>)
        requires
            i <= ast.len(),
            old(self).variables.len() > 0,
        ensures
            ({
                let (gv, rr) = spec_gen_seq(old(self)@, view_asts(ast@), i as int);
                final(self)@ == gv && res_plain(r) == rr
            }),
            final(self)@.cur == old(self)@.cur,
            final(self)@.block_count >= old(self)@.block_count,
            final(self).variables.len() == old(self).variables.len(),
            final(self)@.vars.len() == old(self)@.vars.len(),
            old(self)@.vars.len() > 0 ==> final(self)@.vars.drop_last()
                == old(self)@.vars.drop_last(),
            r is Ok ==> final(self)@.strings == old(self)@.strings + lits_asts(
                view_asts(ast@),
                i as int,
            ),
            r matches Err(e) ==> view_err(e) == (CompileErrorV::Internal { loc: (0usize, 0usize) }),
        decreases *ast, ast.len() - i, 1int,
    {
        proof {
            lemma_view_asts_index(ast@);
        }
        if i == ast.len() {
            proof {
                assert(self@.strings =~= self@.strings + lits_asts(view_asts(ast@), i as int));
            }
            return Ok(());
        }
        let ghost s0 = self@.strings;
        match self.gen_stmt(&ast[i]) {
            Ok(_) => {},
            Err(e) => {
                return Err(e);
            },
        }
        let ghost (gm1, _) = spec_gen_stmt(old(self)@, view_asts(ast@)[i as int]);
        let r = self.gen_seq(ast, i + 1);
        proof {
            if r is Ok {
                assert(self@.strings =~= s0 + (lits_ast(view_asts(ast@)[i as int]) + lits_asts(
                    view_asts(ast@),
                    i as int + 1,
                )));
            }
            assert(spec_gen_seq(old(self)@, view_asts(ast@), i as int) == spec_gen_seq(
                gm1,
                view_asts(ast@),
                i as int + 1,
            ));
        }
        r
    }

    /// Lowers a whole statement sequence.  With `entry` set, the
    /// program preamble is emitted first and, on success, the exit
    /// block and the data segment close the output: every interned
    /// literal then appears in the data segment exactly once, in
    /// encounter order.  The frame pushed for the sequence is torn down
    /// whether or not lowering succeeded.
    pub fn generate(&mut self, ast: &Vec<Ast>, entry: bool) -> (r: Result<(), CompileError>)
        ensures
            ({
                let (gv, rr) = spec_generate_at(old(self)@, view_asts(ast@), entry);
                final(self)@ == gv && res_plain(r) == rr
            }),
            final(self)@.cur == old(self)@.cur,
            final(self)@.block_count >= old(self)@.block_count,
            final(self)@.vars == old(self)@.vars,
            r is Ok ==> final(self)@.strings == old(self)@.strings + lits_asts(
                view_asts(ast@),
                0,
            ),
            r is Ok && entry ==> ends_with_data_segment(final(self)@),
            r matches Err(e) ==> view_err(e) == (CompileErrorV::Internal { loc: (0usize, 0usize) }),
        decreases *ast, ast.len() + 1, 2int,
    {
        if entry {
            self.entry_lines();
        }
        let ghost gm0 = if entry {
            spec_entry(old(self)@)
        } else {
            old(self)@
        };
        self.push_frame();
        proof {
            assert(self@ =~= spec_push(gm0));
        }
        let r = self.gen_seq(ast, 0);
        let ghost (gm1, _) = spec_gen_seq(spec_push(gm0), view_asts(ast@), 0);
        self.pop_frame_release();
        proof {
            assert(self@.vars =~= old(self)@.vars);
            assert(self@ == spec_release(gm1));
        }
        match r {
            Err(e) => Err(e),
            Ok(_) => {
                if entry {
                    let ghost pre = self@.out;
                    self.exit_section();
                    proof {
                        assert(self@.out =~= (pre + exit_preamble()) + data_lines(
                            self@.strings,
                        ));
                        assert(ends_with_data_segment(self@));
                        assert(self@ =~= spec_exit(spec_release(gm1)));
                    }
                }
                Ok(())
            },
        }
    }
}

} // verus!
