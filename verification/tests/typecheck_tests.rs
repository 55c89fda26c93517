//! Scenarios for the type checker: scope discipline, arity and type
//! enforcement, the parameter-count boundary, and each error variant.

use langin::ast::{Ast, Comparison, ComparisonOp, Operator, Type, Value};
use langin::diag::{CompileError, TypeKind};
use langin::typecheck::TypeChecker;

fn loc() -> (usize, usize) {
    (1, 1)
}

fn int_fn(name: &str, params: Vec<(String, Type)>, body: Vec<Ast>) -> Ast {
    Ast::Function {
        loc: loc(),
        name: name.to_string(),
        param_t: params,
        return_t: Type::Int,
        body,
    }
}

fn let_int(name: &str, value: Value) -> Ast {
    Ast::Variable { loc: loc(), name: name.to_string(), var_t: Type::Int, value }
}

#[test]
fn scope_discipline_inner_declaration_unresolvable_after_block() {
    // let x -> int = 1; if (x == 1) { let y -> int = 2; } y = 3;
    let program = vec![
        let_int("x", Value::Int(1)),
        Ast::If {
            loc: loc(),
            comparison: Comparison {
                l_expr: Box::new(Value::Ident("x".to_string())),
                r_expr: Box::new(Value::Int(1)),
                op: ComparisonOp::Equal,
            },
            body: vec![let_int("y", Value::Int(2))],
            else_body: vec![],
        },
        Ast::MutateVar { loc: loc(), name: "y".to_string(), value: Value::Int(3) },
    ];
    let mut checker = TypeChecker::new();
    let r = checker.check(&program, false);
    match r {
        Err(CompileError::Type { kind: TypeKind::UnknownIdentifier(n), .. }) => {
            assert_eq!(n, "y");
        },
        other => panic!("expected unresolved identifier, got {:?}", other),
    }
}

#[test]
fn variable_resolvable_inside_its_block() {
    // let x -> int = 1; if (x == 1) { let y -> int = 2; y = 4; }
    let program = vec![
        let_int("x", Value::Int(1)),
        Ast::If {
            loc: loc(),
            comparison: Comparison {
                l_expr: Box::new(Value::Ident("x".to_string())),
                r_expr: Box::new(Value::Int(1)),
                op: ComparisonOp::Equal,
            },
            body: vec![
                let_int("y", Value::Int(2)),
                Ast::MutateVar { loc: loc(), name: "y".to_string(), value: Value::Int(4) },
            ],
            else_body: vec![],
        },
    ];
    let mut checker = TypeChecker::new();
    assert!(checker.check(&program, false).is_ok());
}

fn add_function() -> Ast {
    int_fn(
        "add",
        vec![("a".to_string(), Type::Int), ("b".to_string(), Type::Int)],
        vec![Ast::Return {
            loc: loc(),
            value: Value::BinaryExpr {
                loc: loc(),
                l_expr: Box::new(Value::Ident("a".to_string())),
                r_expr: Box::new(Value::Ident("b".to_string())),
                op: Operator::Plus,
            },
        }],
    )
}

fn call(name: &str, args: Vec<Value>) -> Value {
    Value::FunctionCall { loc: loc(), name: name.to_string(), params: args }
}

#[test]
fn call_with_matching_arity_type_checks_to_integer() {
    let program = vec![
        add_function(),
        let_int("s", call("add", vec![Value::Int(1), Value::Int(2)])),
    ];
    let mut checker = TypeChecker::new();
    assert!(checker.check(&program, false).is_ok());
}

#[test]
fn call_with_one_argument_fails_with_arity_mismatch() {
    let program = vec![add_function(), let_int("s", call("add", vec![Value::Int(1)]))];
    let mut checker = TypeChecker::new();
    match checker.check(&program, false) {
        Err(CompileError::Type { kind: TypeKind::ArityMismatch { expected, got }, .. }) => {
            assert_eq!(expected, 2);
            assert_eq!(got, 1);
        },
        other => panic!("expected arity mismatch, got {:?}", other),
    }
}

#[test]
fn call_with_wrong_argument_type_fails_with_mismatch() {
    let program = vec![
        add_function(),
        let_int("s", call("add", vec![Value::Int(1), Value::Str("x".to_string())])),
    ];
    let mut checker = TypeChecker::new();
    match checker.check(&program, false) {
        Err(CompileError::Type { kind: TypeKind::Mismatch { expected, got }, .. }) => {
            assert_eq!(expected, Type::Int);
            assert_eq!(got, Type::Ptr);
        },
        other => panic!("expected type mismatch, got {:?}", other),
    }
}

fn params(n: usize) -> Vec<(String, Type)> {
    let mut v = Vec::new();
    let names = ["a", "b", "c", "d", "e", "f", "g"];
    let mut i = 0;
    while i < n {
        v.push((names[i].to_string(), Type::Int));
        i += 1;
    }
    v
}

#[test]
fn function_with_six_parameters_type_checks() {
    let program = vec![int_fn(
        "six",
        params(6),
        vec![Ast::Return { loc: loc(), value: Value::Int(0) }],
    )];
    let mut checker = TypeChecker::new();
    assert!(checker.check(&program, false).is_ok());
}

#[test]
fn function_with_seven_parameters_fails_with_parameter_count_error() {
    let program = vec![int_fn(
        "seven",
        params(7),
        vec![Ast::Return { loc: loc(), value: Value::Int(0) }],
    )];
    let mut checker = TypeChecker::new();
    match checker.check(&program, false) {
        Err(CompileError::Type { kind: TypeKind::TooManyParameters, .. }) => {},
        other => panic!("expected parameter-count error, got {:?}", other),
    }
}

#[test]
fn unknown_function_call_is_rejected() {
    let program = vec![let_int("s", call("missing", vec![]))];
    let mut checker = TypeChecker::new();
    match checker.check(&program, false) {
        Err(CompileError::Type { kind: TypeKind::UnknownFunction(n), .. }) => {
            assert_eq!(n, "missing");
        },
        other => panic!("expected unknown function, got {:?}", other),
    }
}

#[test]
fn redeclared_function_is_rejected() {
    let program = vec![add_function(), add_function()];
    let mut checker = TypeChecker::new();
    match checker.check(&program, false) {
        Err(CompileError::Type { kind: TypeKind::FunctionExists(n), .. }) => {
            assert_eq!(n, "add");
        },
        other => panic!("expected function-exists error, got {:?}", other),
    }
}

#[test]
fn redeclared_variable_is_rejected() {
    let program = vec![let_int("x", Value::Int(1)), let_int("x", Value::Int(2))];
    let mut checker = TypeChecker::new();
    match checker.check(&program, false) {
        Err(CompileError::Type { kind: TypeKind::VariableExists(n), .. }) => {
            assert_eq!(n, "x");
        },
        other => panic!("expected variable-exists error, got {:?}", other),
    }
}

#[test]
fn nested_function_declaration_is_rejected() {
    let inner = int_fn("inner", vec![], vec![]);
    let program = vec![int_fn("outer", vec![], vec![inner])];
    let mut checker = TypeChecker::new();
    match checker.check(&program, false) {
        Err(CompileError::Type { kind: TypeKind::NestedFunction, .. }) => {},
        other => panic!("expected nested-function error, got {:?}", other),
    }
}

#[test]
fn dereferencing_a_non_pointer_is_rejected() {
    let program = vec![let_int(
        "x",
        Value::Deref(Box::new(Value::Int(5)), Type::Int),
    )];
    let mut checker = TypeChecker::new();
    match checker.check(&program, false) {
        Err(CompileError::Type { kind: TypeKind::DerefNonPointer(t), .. }) => {
            assert_eq!(t, Type::Int);
        },
        other => panic!("expected deref-non-pointer error, got {:?}", other),
    }
}

#[test]
fn binary_expression_on_pointer_is_rejected() {
    let program = vec![let_int(
        "x",
        Value::BinaryExpr {
            loc: (3, 7),
            l_expr: Box::new(Value::Str("s".to_string())),
            r_expr: Box::new(Value::Int(1)),
            op: Operator::Plus,
        },
    )];
    let mut checker = TypeChecker::new();
    match checker.check(&program, false) {
        Err(CompileError::Type { loc, kind: TypeKind::NonIntegerOperands }) => {
            assert_eq!(loc, (3, 7));
        },
        other => panic!("expected non-integer-operands error, got {:?}", other),
    }
}

#[test]
fn return_type_must_match_declared_return_type() {
    let program = vec![int_fn(
        "f",
        vec![],
        vec![Ast::Return { loc: loc(), value: Value::Str("s".to_string()) }],
    )];
    let mut checker = TypeChecker::new();
    match checker.check(&program, false) {
        Err(CompileError::Type { kind: TypeKind::Mismatch { expected, got }, .. }) => {
            assert_eq!(expected, Type::Int);
            assert_eq!(got, Type::Ptr);
        },
        other => panic!("expected return mismatch, got {:?}", other),
    }
}

#[test]
fn return_outside_any_function_is_an_internal_error() {
    let program = vec![Ast::Return { loc: (9, 2), value: Value::Int(0) }];
    let mut checker = TypeChecker::new();
    match checker.check(&program, false) {
        Err(CompileError::Internal { loc }) => {
            assert_eq!(loc, (9, 2));
        },
        other => panic!("expected internal error, got {:?}", other),
    }
}

#[test]
fn pointer_mutation_requires_pointer_expression() {
    let program = vec![Ast::MutatePtr {
        loc: loc(),
        ptr_type: Type::Int,
        ptr: Value::Int(5),
        value: Value::Int(9),
    }];
    let mut checker = TypeChecker::new();
    match checker.check(&program, false) {
        Err(CompileError::Type { kind: TypeKind::Mismatch { expected, got }, .. }) => {
            assert_eq!(expected, Type::Ptr);
            assert_eq!(got, Type::Int);
        },
        other => panic!("expected pointer mismatch, got {:?}", other),
    }
}

#[test]
fn value_type_of_literals() {
    let checker = TypeChecker::new();
    assert_eq!(checker.value_type(&Value::Int(3), (1, 1)).unwrap(), Type::Int);
    assert_eq!(
        checker.value_type(&Value::Str("s".to_string()), (1, 1)).unwrap(),
        Type::Ptr,
    );
    assert_eq!(checker.value_type(&Value::Null, (1, 1)).unwrap(), Type::Void);
    assert_eq!(
        checker.value_type(&Value::Ref(Box::new(Value::Int(1))), (1, 1)).unwrap(),
        Type::Ptr,
    );
    assert_eq!(
        checker
            .value_type(&Value::Cast(Box::new(Value::Int(1)), Type::Ptr), (1, 1))
            .unwrap(),
        Type::Ptr,
    );
}

#[test]
fn comparison_sides_must_have_equal_types() {
    let checker = TypeChecker::new();
    let cmp = Comparison {
        l_expr: Box::new(Value::Int(1)),
        r_expr: Box::new(Value::Str("s".to_string())),
        op: ComparisonOp::Smaller,
    };
    match checker.comparison_check(&cmp, (1, 1)) {
        Err(CompileError::Type { kind: TypeKind::Mismatch { expected, got }, .. }) => {
            assert_eq!(expected, Type::Int);
            assert_eq!(got, Type::Ptr);
        },
        other => panic!("expected comparison mismatch, got {:?}", other),
    }
}
