//! Scenarios for the code generator: the pointer round trip, string
//! interning in encounter order, the inverted jump mnemonics, and the
//! program framing.

use langin::ast::{Ast, Comparison, ComparisonOp, Type, Value};
use langin::codegen::CodeGen;

fn loc() -> (usize, usize) {
    (1, 1)
}

fn let_typed(name: &str, t: Type, value: Value) -> Ast {
    Ast::Variable { loc: loc(), name: name.to_string(), var_t: t, value }
}

#[test]
fn pointer_round_trip_stores_through_the_loaded_address() {
    // let x -> int = 5; let p -> ptr = &x; int[p] = 9;
    let program = vec![
        let_typed("x", Type::Int, Value::Int(5)),
        let_typed("p", Type::Ptr, Value::Ref(Box::new(Value::Ident("x".to_string())))),
        Ast::MutatePtr {
            loc: loc(),
            ptr_type: Type::Int,
            ptr: Value::Ident("p".to_string()),
            value: Value::Int(9),
        },
    ];
    let mut gen = CodeGen::new();
    gen.generate(&program, false).unwrap();
    let expected = vec![
        "    ;; -- VARIABLE --",
        "    mov qword [rbp-8], 5",
        "    ;; -- VARIABLE --",
        "    ;; -- REFERENCE --",
        "    lea rax, [rbp-8]",
        "    mov qword [rbp-16], rax",
        "    ;; -- MUTATE POINTER --",
        "    mov qword [rbp-24], 9",
        "    mov rax, [rbp-16]",
        "    mov rbx, [rbp-24]",
        "    mov [rax], rbx",
    ];
    let got: Vec<&str> = gen.output().iter().map(|s| s.as_str()).collect();
    assert_eq!(got, expected);
}

fn returns_literal(name: &str, text: &str) -> Ast {
    Ast::Function {
        loc: loc(),
        name: name.to_string(),
        param_t: vec![],
        return_t: Type::Ptr,
        body: vec![Ast::Return { loc: loc(), value: Value::Str(text.to_string()) }],
    }
}

#[test]
fn identical_literals_each_receive_their_own_index_in_encounter_order() {
    let program = vec![returns_literal("f", "hi"), returns_literal("g", "hi")];
    let mut gen = CodeGen::new();
    gen.generate(&program, true).unwrap();
    let table: Vec<&str> = gen.literal_table().iter().map(|s| s.as_str()).collect();
    assert_eq!(table, vec!["hi", "hi"]);
    let lines = gen.output();
    let first = lines.iter().filter(|l| l.as_str() == "str_0 db \"hi\", 0").count();
    let second = lines.iter().filter(|l| l.as_str() == "str_1 db \"hi\", 0").count();
    assert_eq!(first, 1);
    assert_eq!(second, 1);
    let p0 = lines.iter().position(|l| l.as_str() == "str_0 db \"hi\", 0").unwrap();
    let p1 = lines.iter().position(|l| l.as_str() == "str_1 db \"hi\", 0").unwrap();
    assert!(p0 < p1);
}

#[test]
fn literal_with_newline_escape_is_expanded_in_the_data_segment() {
    let program = vec![returns_literal("f", "a\\nb")];
    let mut gen = CodeGen::new();
    gen.generate(&program, true).unwrap();
    let hit = gen
        .output()
        .iter()
        .filter(|l| l.as_str() == "str_0 db \"a\", 10, \"b\", 0")
        .count();
    assert_eq!(hit, 1);
}

fn branch_line(op: ComparisonOp) -> String {
    let program = vec![Ast::If {
        loc: loc(),
        comparison: Comparison {
            l_expr: Box::new(Value::Int(1)),
            r_expr: Box::new(Value::Int(2)),
            op,
        },
        body: vec![],
        else_body: vec![],
    }];
    let mut gen = CodeGen::new();
    gen.generate(&program, false).unwrap();
    for line in gen.output() {
        if line.ends_with("BB_2") && line.starts_with("    j") {
            return line.clone();
        }
    }
    panic!("no conditional branch emitted");
}

#[test]
fn each_comparison_operator_emits_its_inverted_jump() {
    assert_eq!(branch_line(ComparisonOp::Equal), "    jne BB_2");
    assert_eq!(branch_line(ComparisonOp::NotEqual), "    je BB_2");
    assert_eq!(branch_line(ComparisonOp::Bigger), "    jle BB_2");
    assert_eq!(branch_line(ComparisonOp::Smaller), "    jg BB_2");
}

#[test]
fn while_loop_brackets_its_body_with_entry_and_exit_labels() {
    let program = vec![Ast::While {
        loc: loc(),
        comparison: Comparison {
            l_expr: Box::new(Value::Int(1)),
            r_expr: Box::new(Value::Int(2)),
            op: ComparisonOp::Smaller,
        },
        body: vec![],
    }];
    let mut gen = CodeGen::new();
    gen.generate(&program, false).unwrap();
    let got: Vec<&str> = gen.output().iter().map(|s| s.as_str()).collect();
    let expected = vec![
        "    ;; -- WHILE --",
        "BB_2:",
        "    ;; -- COMPARISON --",
        "    mov qword [rbp-8], 1",
        "    mov qword [rbp-16], 2",
        "    mov rax, [rbp-8]",
        "    cmp rax, [rbp-16]",
        "    jg BB_3",
        "    jmp BB_2",
        "BB_3:",
    ];
    assert_eq!(got, expected);
}

#[test]
fn whole_program_is_framed_with_preamble_and_exit_block() {
    let program = vec![Ast::Function {
        loc: loc(),
        name: "main".to_string(),
        param_t: vec![],
        return_t: Type::Int,
        body: vec![Ast::Return { loc: loc(), value: Value::Int(0) }],
    }];
    let mut gen = CodeGen::new();
    gen.generate(&program, true).unwrap();
    let got: Vec<&str> = gen.output().iter().map(|s| s.as_str()).collect();
    let expected = vec![
        "format ELF64 executable 3",
        "segment readable executable",
        "    ;; -- FUNCTION --",
        "main:",
        "    push rbp",
        "    mov rbp, rsp",
        "    ;; -- RETURN --",
        "    mov rax, 0",
        "    jmp main_ret",
        "main_ret:",
        "    pop rbp",
        "    ret",
        "entry start",
        "start:",
        "    call main",
        "    mov rdi, rax",
        "    mov rax, 60",
        "    syscall",
        "segment readable writeable",
    ];
    assert_eq!(got, expected);
}

#[test]
fn function_parameters_are_copied_from_argument_registers() {
    let program = vec![Ast::Function {
        loc: loc(),
        name: "two".to_string(),
        param_t: vec![("a".to_string(), Type::Int), ("b".to_string(), Type::Int)],
        return_t: Type::Int,
        body: vec![Ast::Return { loc: loc(), value: Value::Ident("a".to_string()) }],
    }];
    let mut gen = CodeGen::new();
    gen.generate(&program, false).unwrap();
    let lines = gen.output();
    assert!(lines.iter().any(|l| l.as_str() == "    mov [rbp-8], rdi"));
    assert!(lines.iter().any(|l| l.as_str() == "    mov [rbp-16], rsi"));
    assert!(lines.iter().any(|l| l.as_str() == "    mov rax, [rbp-8]"));
}

#[test]
fn call_arguments_travel_through_stack_slots_into_registers() {
    let callee = Ast::Function {
        loc: loc(),
        name: "id".to_string(),
        param_t: vec![("a".to_string(), Type::Int)],
        return_t: Type::Int,
        body: vec![Ast::Return { loc: loc(), value: Value::Ident("a".to_string()) }],
    };
    let caller = Ast::Function {
        loc: loc(),
        name: "main".to_string(),
        param_t: vec![],
        return_t: Type::Int,
        body: vec![Ast::Return {
            loc: loc(),
            value: Value::FunctionCall {
                loc: loc(),
                name: "id".to_string(),
                params: vec![Value::Int(7)],
            },
        }],
    };
    let mut gen = CodeGen::new();
    gen.generate(&vec![callee, caller], false).unwrap();
    let lines = gen.output();
    assert!(lines.iter().any(|l| l.as_str() == "    mov qword [rbp-8], 7"));
    assert!(lines.iter().any(|l| l.as_str() == "    mov rdi, [rbp-8]"));
    assert!(lines.iter().any(|l| l.as_str() == "    call id"));
}

#[test]
fn binary_expression_uses_the_accumulator_pattern() {
    let program = vec![let_typed(
        "v",
        Type::Int,
        Value::BinaryExpr {
            loc: loc(),
            l_expr: Box::new(Value::Int(2)),
            r_expr: Box::new(Value::Int(3)),
            op: langin::ast::Operator::Multiplication,
        },
    )];
    let mut gen = CodeGen::new();
    gen.generate(&program, false).unwrap();
    let lines = gen.output();
    assert!(lines.iter().any(|l| l.as_str() == "    mul rbx"));
}

#[test]
fn inline_escape_text_is_emitted_verbatim() {
    let program = vec![Ast::InlineAsm { loc: loc(), text: "    syscall".to_string() }];
    let mut gen = CodeGen::new();
    gen.generate(&program, false).unwrap();
    let got: Vec<&str> = gen.output().iter().map(|s| s.as_str()).collect();
    assert_eq!(got, vec!["    syscall"]);
}

#[test]
fn cast_of_an_undeclared_name_passes_the_checker_but_stops_the_generator() {
    // The checker erases a cast without reading its operand, so this
    // tree type-checks; the generator then cannot resolve the name and
    // reports an internal error.  This is the one gap between "type
    // checks" and "generates", and it is why the totality lemma asks
    // for well-typed cast operands.
    let program = vec![let_typed(
        "v",
        Type::Int,
        Value::Cast(Box::new(Value::Ident("y".to_string())), Type::Int),
    )];
    let mut checker = langin::typecheck::TypeChecker::new();
    assert!(checker.check(&program, false).is_ok());
    let mut gen = CodeGen::new();
    let r = gen.generate(&program, false);
    assert!(matches!(r, Err(langin::diag::CompileError::Internal { .. })));
}

#[test]
fn lowering_an_integer_or_a_bound_name_emits_no_instructions() {
    // let a -> int = 1; a = 7;  The mutation's value is the literal 7:
    // nothing is emitted to evaluate it, only the one store line.
    let program = vec![
        let_typed("a", Type::Int, Value::Int(1)),
        Ast::MutateVar { loc: loc(), name: "a".to_string(), value: Value::Int(7) },
    ];
    let mut gen = CodeGen::new();
    gen.generate(&program, false).unwrap();
    let got: Vec<&str> = gen.output().iter().map(|s| s.as_str()).collect();
    let expected = vec![
        "    ;; -- VARIABLE --",
        "    mov qword [rbp-8], 1",
        "    ;; -- MUTATE VARIABLE --",
        "    mov qword [rbp-8], 7",
    ];
    assert_eq!(got, expected);
}
