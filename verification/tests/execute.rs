use lazyvm::ast::{
    Additive, AdditiveRight, Comparison, ComparisonRight, Expression, Multitive, MultitiveRight,
    Operation, OperationRight, Primary, Statement,
};
use lazyvm::get_cmd;
use lazyvm::vm::{Executor, Outcome, RuntimeFault, Value};
use lazyvm::Cmd;

fn operand(p: Primary) -> Multitive {
    Multitive { left: Operation { left: p, rights: vec![] }, rights: vec![] }
}

fn expr(p: Primary) -> Expression {
    Expression::Comparison(Comparison {
        left: Additive { left: operand(p), rights: vec![] },
        rights: vec![],
    })
}

fn expr_op(p: Primary, rights: Vec<OperationRight>) -> Expression {
    Expression::Comparison(Comparison {
        left: Additive {
            left: Multitive { left: Operation { left: p, rights }, rights: vec![] },
            rights: vec![],
        },
        rights: vec![],
    })
}

fn additive(a: Primary, right: AdditiveRight) -> Expression {
    Expression::Comparison(Comparison {
        left: Additive { left: operand(a), rights: vec![right] },
        rights: vec![],
    })
}

fn multitive(a: Primary, right: MultitiveRight) -> Expression {
    Expression::Comparison(Comparison {
        left: Additive {
            left: Multitive {
                left: Operation { left: a, rights: vec![] },
                rights: vec![right],
            },
            rights: vec![],
        },
        rights: vec![],
    })
}

fn run_program(body: Expression) -> Outcome {
    run_statement(Statement { definitions: vec![], body })
}

fn run_statement(ast: Statement) -> Outcome {
    let cmds = get_cmd(&ast).unwrap();
    let mut exec = Executor::new(cmds);
    exec.run(100_000).expect("budget too small")
}

fn expect_number(o: Outcome) -> i64 {
    match o {
        Outcome::Done(Value::Number(n)) => n,
        other => panic!("expected a number, got {:?}", other),
    }
}

#[test]
fn literal_evaluates_to_itself() {
    assert_eq!(expect_number(run_program(expr(Primary::Number(42)))), 42);
}

#[test]
fn addition_of_literals() {
    let e = additive(Primary::Number(1), AdditiveRight::Add(operand(Primary::Number(2))));
    assert_eq!(expect_number(run_program(e)), 3);
}

#[test]
fn subtraction_of_literals() {
    let e = additive(Primary::Number(5), AdditiveRight::Sub(operand(Primary::Number(9))));
    assert_eq!(expect_number(run_program(e)), -4);
}

#[test]
fn multiplication_of_literals() {
    let e = multitive(
        Primary::Number(6),
        MultitiveRight::Mul(Operation { left: Primary::Number(7), rights: vec![] }),
    );
    assert_eq!(expect_number(run_program(e)), 42);
}

#[test]
fn division_truncates_toward_zero() {
    let e = multitive(
        Primary::Number(-7),
        MultitiveRight::Div(Operation { left: Primary::Number(2), rights: vec![] }),
    );
    assert_eq!(expect_number(run_program(e)), -3);
}

#[test]
fn remainder_carries_dividend_sign() {
    let e = multitive(
        Primary::Number(-7),
        MultitiveRight::Surplus(Operation { left: Primary::Number(2), rights: vec![] }),
    );
    assert_eq!(expect_number(run_program(e)), -1);
}

#[test]
fn division_by_zero_faults() {
    let e = multitive(
        Primary::Number(1),
        MultitiveRight::Div(Operation { left: Primary::Number(0), rights: vec![] }),
    );
    match run_program(e) {
        Outcome::Fault(RuntimeFault::TypeMismatch) => {}
        other => panic!("expected a fault, got {:?}", other),
    }
}

#[test]
fn equality_of_unequal_numbers_is_false() {
    let e = Expression::Comparison(Comparison {
        left: Additive { left: operand(Primary::Number(1)), rights: vec![] },
        rights: vec![ComparisonRight::Equal(Additive {
            left: operand(Primary::Number(2)),
            rights: vec![],
        })],
    });
    match run_program(e) {
        Outcome::Done(Value::Boolean(b)) => assert!(!b),
        other => panic!("expected a boolean, got {:?}", other),
    }
}

fn eq_cond(a: i64, b: i64) -> Expression {
    Expression::Comparison(Comparison {
        left: Additive { left: operand(Primary::Number(a)), rights: vec![] },
        rights: vec![ComparisonRight::Equal(Additive {
            left: operand(Primary::Number(b)),
            rights: vec![],
        })],
    })
}

#[test]
fn true_conditional_executes_only_the_consequent() {
    let e = Expression::If {
        cond: Box::new(eq_cond(1, 1)),
        cons: Box::new(expr(Primary::Number(10))),
        alt: Box::new(expr(Primary::Number(20))),
    };
    assert_eq!(expect_number(run_program(e)), 10);
}

#[test]
fn false_conditional_executes_only_the_alternate() {
    let e = Expression::If {
        cond: Box::new(eq_cond(1, 2)),
        cons: Box::new(expr(Primary::Number(10))),
        alt: Box::new(expr(Primary::Number(20))),
    };
    assert_eq!(expect_number(run_program(e)), 20);
}

#[test]
fn true_conditional_never_executes_a_faulting_alternate() {
    let alt = multitive(
        Primary::Number(1),
        MultitiveRight::Div(Operation { left: Primary::Number(0), rights: vec![] }),
    );
    let e = Expression::If {
        cond: Box::new(eq_cond(1, 1)),
        cons: Box::new(expr(Primary::Number(10))),
        alt: Box::new(alt),
    };
    assert_eq!(expect_number(run_program(e)), 10);
}

#[test]
fn string_literal_evaluates_to_itself() {
    match run_program(expr(Primary::Text(String::from("hi")))) {
        Outcome::Done(Value::Text(s)) => assert_eq!(s, String::from("hi")),
        other => panic!("expected a string, got {:?}", other),
    }
}

#[test]
fn bind_reference_forces_the_definition() {
    // { x: 7, x }: referencing x forces its label body
    let ast = Statement {
        definitions: vec![(String::from("x"), expr(Primary::Number(7)))],
        body: expr(Primary::Variable(String::from("x"))),
    };
    assert_eq!(expect_number(run_statement(ast)), 7);
}

#[test]
fn struct_access_forces_exactly_the_accessed_field() {
    // { a: 1, b: 1/0 }.a must evaluate to 1 without the faulting field
    // ever running
    let crash = multitive(
        Primary::Number(1),
        MultitiveRight::Div(Operation { left: Primary::Number(0), rights: vec![] }),
    );
    let e = expr_op(
        Primary::Struct(vec![
            (String::from("a"), expr(Primary::Number(1))),
            (String::from("b"), crash),
        ]),
        vec![OperationRight::Access(String::from("a"))],
    );
    assert_eq!(expect_number(run_program(e)), 1);
}

#[test]
fn closure_call_binds_its_argument() {
    // ((y) => y + 1)(41)
    let body = additive(
        Primary::Variable(String::from("y")),
        AdditiveRight::Add(operand(Primary::Number(1))),
    );
    let e = expr_op(
        Primary::Function(vec![String::from("y")], Box::new(body)),
        vec![OperationRight::Call(vec![expr(Primary::Number(41))])],
    );
    assert_eq!(expect_number(run_program(e)), 42);
}

#[test]
fn arity_mismatch_is_a_fatal_fault() {
    // a two-parameter closure called with one argument: never a partial
    // application
    let body = expr(Primary::Variable(String::from("a")));
    let e = expr_op(
        Primary::Function(vec![String::from("a"), String::from("b")], Box::new(body)),
        vec![OperationRight::Call(vec![expr(Primary::Number(1))])],
    );
    match run_program(e) {
        Outcome::Fault(RuntimeFault::ArityMismatch) => {}
        other => panic!("expected an arity fault, got {:?}", other),
    }
}

#[test]
fn free_variable_resolves_in_the_defining_scope() {
    // { x: 99, f: (y) => { x: 1 }.x + y, f(2) } must yield 1 + 2 == 3,
    // not 99 + 2: the struct's own x shadows the outer bind
    let inner_struct = Primary::Struct(vec![(String::from("x"), expr(Primary::Number(1)))]);
    let f_body = Expression::Comparison(Comparison {
        left: Additive {
            left: Multitive {
                left: Operation {
                    left: inner_struct,
                    rights: vec![OperationRight::Access(String::from("x"))],
                },
                rights: vec![],
            },
            rights: vec![AdditiveRight::Add(operand(Primary::Variable(String::from("y"))))],
        },
        rights: vec![],
    });
    let ast = Statement {
        definitions: vec![
            (String::from("x"), expr(Primary::Number(99))),
            (
                String::from("f"),
                expr(Primary::Function(vec![String::from("y")], Box::new(f_body))),
            ),
        ],
        body: expr_op(
            Primary::Variable(String::from("f")),
            vec![OperationRight::Call(vec![expr(Primary::Number(2))])],
        ),
    };
    assert_eq!(expect_number(run_statement(ast)), 3);
}

#[test]
fn array_indexing_forces_the_selected_element() {
    // [5, 6][1]
    let e = expr_op(
        Primary::Array(vec![expr(Primary::Number(5)), expr(Primary::Number(6))]),
        vec![OperationRight::Index(Box::new(expr(Primary::Number(1))))],
    );
    assert_eq!(expect_number(run_program(e)), 6);
}

#[test]
fn host_bridge_pauses_and_resumes() {
    // import("mod"): the machine pauses with the argument list; the host
    // hands back a value and the run completes with it
    let e = expr_op(
        Primary::Variable(String::from("import")),
        vec![OperationRight::Call(vec![expr(Primary::Text(String::from("mod")))])],
    );
    let cmds = get_cmd(&Statement { definitions: vec![], body: e }).unwrap();
    let mut exec = Executor::new(cmds);
    match exec.run(100_000).expect("budget too small") {
        Outcome::Host { id, args } => {
            assert_eq!(id, 0);
            assert_eq!(args.len(), 1);
            match &args[0] {
                Value::Text(s) => assert_eq!(s, &String::from("mod")),
                other => panic!("expected the path argument, got {:?}", other),
            }
        }
        other => panic!("expected a host pause, got {:?}", other),
    }
    assert!(exec.resume(Value::Number(5)));
    assert_eq!(expect_number(exec.run(100_000).expect("budget too small")), 5);
}

#[test]
fn definition_referenced_twice_is_forced_twice() {
    // { x: import("m"), x + x }: each reference forces x's body again,
    // so the host call fires once per reference, never once per
    // definition and never from a cache
    let x_body = expr_op(
        Primary::Variable(String::from("import")),
        vec![OperationRight::Call(vec![expr(Primary::Text(String::from("m")))])],
    );
    let body = additive(
        Primary::Variable(String::from("x")),
        AdditiveRight::Add(operand(Primary::Variable(String::from("x")))),
    );
    let ast = Statement { definitions: vec![(String::from("x"), x_body)], body };
    let cmds = get_cmd(&ast).unwrap();
    let mut exec = Executor::new(cmds);
    match exec.run(100_000).expect("budget too small") {
        Outcome::Host { id: 0, .. } => {}
        other => panic!("expected the first forcing, got {:?}", other),
    }
    assert!(exec.resume(Value::Number(10)));
    match exec.run(100_000).expect("budget too small") {
        Outcome::Host { id: 0, .. } => {}
        other => panic!("expected the second forcing, got {:?}", other),
    }
    assert!(exec.resume(Value::Number(32)));
    assert_eq!(expect_number(exec.run(100_000).expect("budget too small")), 42);
}

#[test]
fn failing_host_call_faults_the_run() {
    let e = expr_op(
        Primary::Variable(String::from("import")),
        vec![OperationRight::Call(vec![expr(Primary::Text(String::from("missing")))])],
    );
    let cmds = get_cmd(&Statement { definitions: vec![], body: e }).unwrap();
    let mut exec = Executor::new(cmds);
    match exec.run(100_000).expect("budget too small") {
        Outcome::Host { .. } => {}
        other => panic!("expected a host pause, got {:?}", other),
    }
    match exec.abort_host() {
        Some(Outcome::Fault(RuntimeFault::HostBridgeFailure)) => {}
        other => panic!("expected the bridge fault, got {:?}", other),
    }
}

#[test]
fn budget_exhaustion_reports_nothing() {
    // a self-jump spins forever; the budget runs out with no outcome
    let mut exec = Executor::new(vec![Cmd::JumpRel(0)]);
    assert!(exec.run(10).is_none());
}
