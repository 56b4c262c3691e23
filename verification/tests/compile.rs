use lazyvm::ast::{
    Additive, Comparison, ComparisonRight, Expression, Multitive, Operation, OperationRight,
    Primary, Statement,
};
use lazyvm::{get_cmd, Cmd, CompileError};

fn expr(p: Primary) -> Expression {
    Expression::Comparison(Comparison {
        left: Additive {
            left: Multitive { left: Operation { left: p, rights: vec![] }, rights: vec![] },
            rights: vec![],
        },
        rights: vec![],
    })
}

fn expr_op(p: Primary, rights: Vec<OperationRight>) -> Expression {
    Expression::Comparison(Comparison {
        left: Additive {
            left: Multitive { left: Operation { left: p, rights }, rights: vec![] },
            rights: vec![],
        },
        rights: vec![],
    })
}

fn expr_eq(a: Primary, b: Primary) -> Expression {
    Expression::Comparison(Comparison {
        left: Additive {
            left: Multitive { left: Operation { left: a, rights: vec![] }, rights: vec![] },
            rights: vec![],
        },
        rights: vec![ComparisonRight::Equal(Additive {
            left: Multitive { left: Operation { left: b, rights: vec![] }, rights: vec![] },
            rights: vec![],
        })],
    })
}

fn program(body: Expression) -> Statement {
    Statement { definitions: vec![], body }
}

#[test]
fn number_literal_compiles_to_constant_after_import_label() {
    let cmds = get_cmd(&program(expr(Primary::Number(42)))).unwrap();
    assert_eq!(cmds.len(), 3);
    assert!(matches!(cmds[0], Cmd::Label(0, 1)));
    assert!(matches!(cmds[1], Cmd::HostFunction(0)));
    assert!(matches!(cmds[2], Cmd::NumberConst(42)));
}

#[test]
fn compiling_twice_yields_identical_opcodes() {
    let ast = program(expr_eq(Primary::Number(1), Primary::Number(2)));
    let a = get_cmd(&ast).unwrap();
    let b = get_cmd(&ast).unwrap();
    assert_eq!(format!("{:?}", a), format!("{:?}", b));
}

#[test]
fn conditional_layout_and_jump_distances() {
    let ast = program(Expression::If {
        cond: Box::new(expr_eq(Primary::Number(1), Primary::Number(2))),
        cons: Box::new(expr(Primary::Number(10))),
        alt: Box::new(expr(Primary::Number(20))),
    });
    let cmds = get_cmd(&ast).unwrap();
    // import label, cond (3), JumpRelIf over the alternate, alt (1),
    // JumpRel over the consequent, cons (1)
    assert_eq!(cmds.len(), 9);
    assert!(matches!(cmds[2], Cmd::NumberConst(1)));
    assert!(matches!(cmds[3], Cmd::NumberConst(2)));
    assert!(matches!(cmds[4], Cmd::Equal));
    assert!(matches!(cmds[5], Cmd::JumpRelIf(3)));
    assert!(matches!(cmds[6], Cmd::NumberConst(20)));
    assert!(matches!(cmds[7], Cmd::JumpRel(2)));
    assert!(matches!(cmds[8], Cmd::NumberConst(10)));
    // taken: 5 + 3 == 8, the consequent; fall-through: 6, the alternate;
    // the alternate's jump: 7 + 2 == 9, one past the end.
}

#[test]
fn struct_field_access_emits_label_and_forcing_call() {
    let ast = program(expr_op(
        Primary::Struct(vec![(String::from("a"), expr(Primary::Number(1)))]),
        vec![OperationRight::Access(String::from("a"))],
    ));
    let cmds = get_cmd(&ast).unwrap();
    assert_eq!(cmds.len(), 8);
    assert!(matches!(cmds[0], Cmd::Label(0, 1)));
    assert!(matches!(cmds[1], Cmd::HostFunction(0)));
    // the field body is a label under the next globally unique id, not
    // inlined at its use
    assert!(matches!(cmds[2], Cmd::Label(1, 1)));
    assert!(matches!(cmds[3], Cmd::NumberConst(1)));
    match &cmds[4] {
        Cmd::StructAddr(map) => {
            assert_eq!(map.len(), 1);
            assert_eq!(map[0].0, String::from("a"));
            assert_eq!(map[0].1, 1);
        }
        other => panic!("expected the field mapping, got {:?}", other),
    }
    match &cmds[5] {
        Cmd::StringConst(s) => assert_eq!(s, &String::from("a")),
        other => panic!("expected the field name constant, got {:?}", other),
    }
    assert!(matches!(cmds[6], Cmd::Access));
    assert!(matches!(cmds[7], Cmd::Call(0)));
}

#[test]
fn bind_reference_emits_address_and_call_not_inline() {
    let ast = Statement {
        definitions: vec![(String::from("x"), expr(Primary::Number(7)))],
        body: expr(Primary::Variable(String::from("x"))),
    };
    let cmds = get_cmd(&ast).unwrap();
    // import label, x's label body, then the reference: push the label
    // address and force it with a zero-argument call
    assert_eq!(cmds.len(), 6);
    assert!(matches!(cmds[0], Cmd::Label(0, 1)));
    assert!(matches!(cmds[1], Cmd::HostFunction(0)));
    assert!(matches!(cmds[2], Cmd::Label(1, 1)));
    assert!(matches!(cmds[3], Cmd::NumberConst(7)));
    assert!(matches!(cmds[4], Cmd::LabelAddr(1)));
    assert!(matches!(cmds[5], Cmd::Call(0)));
}

#[test]
fn function_literal_records_arity_and_loads_argument() {
    let ast = program(expr(Primary::Function(
        vec![String::from("y")],
        Box::new(expr(Primary::Variable(String::from("y")))),
    )));
    let cmds = get_cmd(&ast).unwrap();
    assert_eq!(cmds.len(), 4);
    assert!(matches!(cmds[2], Cmd::ConstructFunction(1, 1)));
    assert!(matches!(cmds[3], Cmd::Load(0, 0)));
}

#[test]
fn free_variable_in_function_body_resolves_through_defining_scope() {
    // x is an argument of the outer function; the inner function's body
    // refers to it one frame up.
    let inner = Primary::Function(
        vec![String::from("z")],
        Box::new(expr(Primary::Variable(String::from("x")))),
    );
    let outer = Primary::Function(vec![String::from("x")], Box::new(expr(inner)));
    let cmds = get_cmd(&program(expr(outer))).unwrap();
    assert_eq!(cmds.len(), 5);
    assert!(matches!(cmds[2], Cmd::ConstructFunction(1, 2)));
    assert!(matches!(cmds[3], Cmd::ConstructFunction(1, 1)));
    // depth 1: one parent hop from the inner frame to the defining frame
    assert!(matches!(cmds[4], Cmd::Load(0, 1)));
}

#[test]
fn unbound_identifier_is_reported() {
    let ast = program(expr(Primary::Variable(String::from("nope"))));
    match get_cmd(&ast) {
        Err(e) => assert_eq!(e, CompileError::UnboundIdentifier(String::from("nope"))),
        Ok(cmds) => panic!("expected a compile error, got {:?}", cmds),
    }
}

#[test]
fn duplicate_parameter_is_reported() {
    let ast = program(expr(Primary::Function(
        vec![String::from("a"), String::from("a")],
        Box::new(expr(Primary::Number(1))),
    )));
    match get_cmd(&ast) {
        Err(e) => assert_eq!(e, CompileError::DuplicateParameter(String::from("a"))),
        Ok(cmds) => panic!("expected a compile error, got {:?}", cmds),
    }
}

#[test]
fn array_elements_become_thunks() {
    let ast = program(expr(Primary::Array(vec![
        expr(Primary::Number(5)),
        expr(Primary::Number(6)),
    ])));
    let cmds = get_cmd(&ast).unwrap();
    assert_eq!(cmds.len(), 7);
    assert!(matches!(cmds[2], Cmd::ConstructFunction(0, 1)));
    assert!(matches!(cmds[3], Cmd::NumberConst(5)));
    assert!(matches!(cmds[4], Cmd::ConstructFunction(0, 1)));
    assert!(matches!(cmds[5], Cmd::NumberConst(6)));
    assert!(matches!(cmds[6], Cmd::ArrayConst(2)));
}
