use minic::ast::{BinKind, Fault, Node, int_ty};
use minic::ir::{IR, IRInfoType, IRType, gen_ir, get_irinfo, tostr};

fn num(v: i32) -> Node {
    Node::Num { val: v, ty: int_ty() }
}

fn ident(n: &str) -> Node {
    Node::Ident { name: n.to_string(), ty: int_ty() }
}

fn bin(op: BinKind, l: Node, r: Node) -> Node {
    Node::Bin { op, lhs: Box::new(l), rhs: Box::new(r), ty: int_ty() }
}

fn expr_stmt(e: Node) -> Node {
    Node::ExprStmt { expr: Box::new(e) }
}

fn ret(e: Node) -> Node {
    Node::Return { expr: Box::new(e) }
}

fn func(n: &str, body: Vec<Node>) -> Node {
    Node::Func {
        name: n.to_string(),
        args: vec![],
        body: Box::new(Node::CompStmt { stmts: body }),
        stacksize: 0,
    }
}

fn ops(f: &IR) -> Vec<(IRType, i32, i32)> {
    f.ir.iter().map(|i| (i.op, i.lhs, i.rhs)).collect()
}

#[test]
fn return_constant_lowers_to_imm_return() {
    let out = gen_ir(vec![func("main", vec![ret(num(42))])]).unwrap();
    assert_eq!(out.len(), 1);
    assert_eq!(out[0].name, "main");
    assert_eq!(
        ops(&out[0]),
        vec![
            (IRType::ALLOCA, 0, 0),
            (IRType::IMM, 1, 42),
            (IRType::RETURN, 1, -1),
            (IRType::KILL, 1, -1),
            (IRType::KILL, 0, -1),
        ]
    );
}

#[test]
fn if_else_lowers_with_jump_and_two_labels() {
    let body = Node::If {
        cond: Box::new(num(1)),
        thn: Box::new(ret(num(2))),
        els: Some(Box::new(ret(num(3)))),
    };
    let out = gen_ir(vec![func("main", vec![body])]).unwrap();
    assert_eq!(
        ops(&out[0]),
        vec![
            (IRType::ALLOCA, 0, 0),
            (IRType::IMM, 1, 1),
            (IRType::UNLESS, 1, 0),
            (IRType::KILL, 1, -1),
            (IRType::IMM, 2, 2),
            (IRType::RETURN, 2, -1),
            (IRType::KILL, 2, -1),
            (IRType::JMP, 1, -1),
            (IRType::LABEL, 0, -1),
            (IRType::IMM, 3, 3),
            (IRType::RETURN, 3, -1),
            (IRType::KILL, 3, -1),
            (IRType::LABEL, 1, -1),
            (IRType::KILL, 0, -1),
        ]
    );
}

#[test]
fn if_without_else_has_no_jump() {
    let body = Node::If {
        cond: Box::new(num(1)),
        thn: Box::new(ret(num(2))),
        els: None,
    };
    let out = gen_ir(vec![func("main", vec![body])]).unwrap();
    assert_eq!(
        ops(&out[0]),
        vec![
            (IRType::ALLOCA, 0, 0),
            (IRType::IMM, 1, 1),
            (IRType::UNLESS, 1, 0),
            (IRType::KILL, 1, -1),
            (IRType::IMM, 2, 2),
            (IRType::RETURN, 2, -1),
            (IRType::KILL, 2, -1),
            (IRType::LABEL, 0, -1),
            (IRType::KILL, 0, -1),
        ]
    );
}

#[test]
fn call_lowers_arguments_in_order_then_kills_them() {
    let call = Node::Call {
        name: "f".to_string(),
        args: vec![num(7), num(9)],
        ty: int_ty(),
    };
    let out = gen_ir(vec![func("main", vec![expr_stmt(call)])]).unwrap();
    let f = &out[0];
    assert_eq!(
        ops(f),
        vec![
            (IRType::ALLOCA, 0, 0),
            (IRType::IMM, 1, 7),
            (IRType::IMM, 2, 9),
            (IRType::CALL, 3, -1),
            (IRType::KILL, 1, -1),
            (IRType::KILL, 2, -1),
            (IRType::KILL, 3, -1),
            (IRType::KILL, 0, -1),
        ]
    );
    let c = &f.ir[3];
    assert_eq!(c.name, "f");
    assert_eq!(c.nargs, 2);
    assert_eq!(c.args, [1, 2, 0, 0, 0, 0]);
}

#[test]
fn assignment_and_load_use_frame_relative_addresses() {
    // a = 1; return a;
    let out = gen_ir(vec![func(
        "main",
        vec![
            expr_stmt(bin(BinKind::Assign, ident("a"), num(1))),
            ret(ident("a")),
        ],
    )])
    .unwrap();
    assert_eq!(
        ops(&out[0]),
        vec![
            (IRType::ALLOCA, 0, 8),
            (IRType::IMM, 1, 1),
            (IRType::MOV, 2, 0),
            (IRType::ADD_IMM, 2, 0),
            (IRType::STORE, 2, 1),
            (IRType::KILL, 1, -1),
            (IRType::KILL, 2, -1),
            (IRType::MOV, 3, 0),
            (IRType::ADD_IMM, 3, 0),
            (IRType::LOAD, 3, 3),
            (IRType::RETURN, 3, -1),
            (IRType::KILL, 3, -1),
            (IRType::KILL, 0, -1),
        ]
    );
}

#[test]
fn arithmetic_accumulates_into_left_register() {
    let out = gen_ir(vec![func(
        "main",
        vec![ret(bin(BinKind::Sub, num(5), num(3)))],
    )])
    .unwrap();
    assert_eq!(
        ops(&out[0]),
        vec![
            (IRType::ALLOCA, 0, 0),
            (IRType::IMM, 1, 5),
            (IRType::IMM, 2, 3),
            (IRType::SUB, 1, 2),
            (IRType::KILL, 2, -1),
            (IRType::RETURN, 1, -1),
            (IRType::KILL, 1, -1),
            (IRType::KILL, 0, -1),
        ]
    );
}

#[test]
fn counters_continue_across_functions() {
    // The register counter, the label counter, and the running stack
    // offset are never reset between functions.
    let out = gen_ir(vec![
        func("one", vec![expr_stmt(bin(BinKind::Assign, ident("a"), num(1)))]),
        func("two", vec![expr_stmt(bin(BinKind::Assign, ident("b"), num(2)))]),
    ])
    .unwrap();
    assert_eq!(
        ops(&out[0]),
        vec![
            (IRType::ALLOCA, 0, 8),
            (IRType::IMM, 1, 1),
            (IRType::MOV, 2, 0),
            (IRType::ADD_IMM, 2, 0),
            (IRType::STORE, 2, 1),
            (IRType::KILL, 1, -1),
            (IRType::KILL, 2, -1),
            (IRType::KILL, 0, -1),
        ]
    );
    assert_eq!(
        ops(&out[1]),
        vec![
            (IRType::ALLOCA, 0, 16),
            (IRType::IMM, 3, 2),
            (IRType::MOV, 4, 0),
            (IRType::ADD_IMM, 4, 8),
            (IRType::STORE, 4, 3),
            (IRType::KILL, 3, -1),
            (IRType::KILL, 4, -1),
            (IRType::KILL, 0, -1),
        ]
    );
}

#[test]
fn lowering_a_loop_is_an_unknown_node() {
    let body = Node::For { init: None, cond: None, inc: None, body: None };
    assert!(matches!(
        gen_ir(vec![func("main", vec![body])]),
        Err(Fault::UnknownNode)
    ));
}

#[test]
fn assignment_to_non_identifier_is_not_an_lvalue() {
    let out = gen_ir(vec![func(
        "main",
        vec![expr_stmt(bin(BinKind::Assign, num(1), num(2)))],
    )]);
    assert!(matches!(out, Err(Fault::NotAnLvalue)));
}

#[test]
fn comparison_is_not_an_operator_for_lowering() {
    let out = gen_ir(vec![func(
        "main",
        vec![expr_stmt(bin(BinKind::Less, num(1), num(2)))],
    )]);
    assert!(matches!(out, Err(Fault::NotAnOperator)));
}

#[test]
fn top_level_must_be_function_for_lowering() {
    assert!(matches!(gen_ir(vec![num(1)]), Err(Fault::NotAFunction)));
}

#[test]
fn tostr_formats_each_shape() {
    let mk = |op: IRType, lhs: i32, rhs: i32| IR {
        op,
        lhs,
        rhs,
        name: String::new(),
        nargs: 0,
        args: [0; 6],
        ir: Vec::new(),
    };
    assert_eq!(tostr(&mk(IRType::IMM, 1, 42)), "MOV r1, 42");
    assert_eq!(tostr(&mk(IRType::IMM, 1, -5)), "MOV r1, -5");
    assert_eq!(tostr(&mk(IRType::LABEL, 3, -1)), ".L3:");
    assert_eq!(tostr(&mk(IRType::KILL, 2, -1)), "KILL r2");
    assert_eq!(tostr(&mk(IRType::UNLESS, 1, 0)), "UNLESS r1, .L0");
    assert_eq!(tostr(&mk(IRType::ADD, 1, 2)), "+ r1, r2");
    assert_eq!(tostr(&mk(IRType::ADD_IMM, 2, 16)), "ADD r2, 16");
    assert_eq!(tostr(&mk(IRType::NOP, 0, 0)), "NOP");
    let call = IR {
        op: IRType::CALL,
        lhs: 3,
        rhs: -1,
        name: "f".to_string(),
        nargs: 2,
        args: [1, 2, 0, 0, 0, 0],
        ir: Vec::new(),
    };
    assert_eq!(tostr(&call), "r3 = f(, r1, r2, r0, r0, r0, r0)");
}

#[test]
fn get_irinfo_gives_mnemonic_and_shape() {
    let mk = |op: IRType| IR {
        op,
        lhs: 0,
        rhs: 0,
        name: String::new(),
        nargs: 0,
        args: [0; 6],
        ir: Vec::new(),
    };
    let i = get_irinfo(&mk(IRType::RETURN));
    assert_eq!(i.op, IRType::RETURN);
    assert_eq!(i.name, "RET");
    assert!(matches!(i.ty, IRInfoType::REG));
    let j = get_irinfo(&mk(IRType::ALLOCA));
    assert_eq!(j.name, "ALLOCA");
    assert!(matches!(j.ty, IRInfoType::REG_IMM));
    let k = get_irinfo(&mk(IRType::LABEL));
    assert_eq!(k.name, "");
    assert!(matches!(k.ty, IRInfoType::LABEL));
}
