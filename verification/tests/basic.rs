use minic::ast::{BinKind, CType, Fault, Node, Type, int_ty};
use minic::sema::{sema, size_of};
use minic::util::{ary_of, first_char, ptr_to, roundup};

fn num(v: i32) -> Node {
    Node::Num { val: v, ty: int_ty() }
}

fn ident(n: &str) -> Node {
    Node::Ident { name: n.to_string(), ty: int_ty() }
}

fn vardef(n: &str, t: Type) -> Node {
    Node::Vardef { name: n.to_string(), ty: t, init: None, offset: 0 }
}

fn bin(op: BinKind, l: Node, r: Node) -> Node {
    Node::Bin { op, lhs: Box::new(l), rhs: Box::new(r), ty: int_ty() }
}

fn expr_stmt(e: Node) -> Node {
    Node::ExprStmt { expr: Box::new(e) }
}

fn func(n: &str, body: Vec<Node>) -> Node {
    Node::Func {
        name: n.to_string(),
        args: vec![],
        body: Box::new(Node::CompStmt { stmts: body }),
        stacksize: 0,
    }
}

#[test]
fn size_of_int_is_4() {
    assert_eq!(size_of(int_ty()), 4);
}

#[test]
fn size_of_pointer_is_8() {
    assert_eq!(size_of(ptr_to(int_ty())), 8);
}

#[test]
fn ptr_to_builds_pointer() {
    let p = ptr_to(int_ty());
    assert_eq!(p.ty, CType::Ptr);
    assert_eq!(p.size, 8);
    assert_eq!(p.align, 8);
    assert_eq!(*p.ptr_to.unwrap(), int_ty());
}

#[test]
fn ary_of_builds_array() {
    let a = ary_of(int_ty(), 3);
    assert_eq!(a.ty, CType::Ary);
    assert_eq!(a.size, 12);
    assert_eq!(a.align, 4);
    assert_eq!(a.len, 3);
    assert_eq!(*a.ary_of.unwrap(), int_ty());
}

#[test]
fn roundup_values() {
    assert_eq!(roundup(0, 8), 0);
    assert_eq!(roundup(1, 8), 8);
    assert_eq!(roundup(8, 8), 8);
    assert_eq!(roundup(17, 16), 32);
    assert_eq!(roundup(24, 8), 24);
}

#[test]
fn first_char_values() {
    assert_eq!(first_char(""), '\0');
    assert_eq!(first_char("abc"), 'a');
}

#[test]
fn three_declarations_get_offsets_8_16_24() {
    let f = func(
        "main",
        vec![
            vardef("a", int_ty()),
            vardef("b", int_ty()),
            vardef("c", int_ty()),
        ],
    );
    let out = sema(vec![f]).unwrap();
    assert_eq!(out.len(), 1);
    match &out[0] {
        Node::Func { stacksize, body, .. } => {
            assert_eq!(*stacksize, 24);
            match &**body {
                Node::CompStmt { stmts } => {
                    let offs: Vec<i32> = stmts
                        .iter()
                        .map(|s| match s {
                            Node::Vardef { offset, .. } => *offset,
                            _ => panic!("expected a declaration"),
                        })
                        .collect();
                    assert_eq!(offs, vec![8, 16, 24]);
                }
                _ => panic!("expected a block"),
            }
        }
        _ => panic!("expected a function"),
    }
}

#[test]
fn pointer_moves_to_left_operand() {
    // int + pointer: after analysis the pointer is the left child.
    let f = func(
        "main",
        vec![
            vardef("p", ptr_to(int_ty())),
            expr_stmt(bin(BinKind::Add, num(1), ident("p"))),
        ],
    );
    let out = sema(vec![f]).unwrap();
    match &out[0] {
        Node::Func { body, .. } => match &**body {
            Node::CompStmt { stmts } => match &stmts[1] {
                Node::ExprStmt { expr } => match &**expr {
                    Node::Bin { op, lhs, rhs, ty } => {
                        assert_eq!(*op, BinKind::Add);
                        assert_eq!(ty.ty, CType::Ptr);
                        match &**lhs {
                            Node::Lvar { name, ty, .. } => {
                                assert_eq!(name, "p");
                                assert_eq!(ty.ty, CType::Ptr);
                            }
                            _ => panic!("left operand should be the resolved pointer"),
                        }
                        match &**rhs {
                            Node::Num { val, .. } => assert_eq!(*val, 1),
                            _ => panic!("right operand should be the number"),
                        }
                    }
                    _ => panic!("expected a binary node"),
                },
                _ => panic!("expected an expression statement"),
            },
            _ => panic!("expected a block"),
        },
        _ => panic!("expected a function"),
    }
}

#[test]
fn pointer_plus_pointer_fails() {
    let f = func(
        "main",
        vec![
            vardef("p", ptr_to(int_ty())),
            vardef("q", ptr_to(int_ty())),
            expr_stmt(bin(BinKind::Add, ident("p"), ident("q"))),
        ],
    );
    assert_eq!(sema(vec![f]), Err(Fault::PointerPointer));
}

#[test]
fn deref_of_non_pointer_fails() {
    let f = func(
        "main",
        vec![expr_stmt(Node::Deref { expr: Box::new(num(1)), ty: int_ty() })],
    );
    assert_eq!(sema(vec![f]), Err(Fault::NotAPointer));
}

#[test]
fn deref_of_pointer_yields_pointee_type() {
    let f = func(
        "main",
        vec![
            vardef("p", ptr_to(int_ty())),
            expr_stmt(Node::Deref { expr: Box::new(ident("p")), ty: int_ty() }),
        ],
    );
    let out = sema(vec![f]).unwrap();
    match &out[0] {
        Node::Func { body, .. } => match &**body {
            Node::CompStmt { stmts } => match &stmts[1] {
                Node::ExprStmt { expr } => match &**expr {
                    Node::Deref { ty, .. } => assert_eq!(*ty, int_ty()),
                    _ => panic!("expected a dereference"),
                },
                _ => panic!("expected an expression statement"),
            },
            _ => panic!("expected a block"),
        },
        _ => panic!("expected a function"),
    }
}

#[test]
fn undefined_variable_fails() {
    let f = func("main", vec![expr_stmt(ident("x"))]);
    assert_eq!(sema(vec![f]), Err(Fault::UndefinedVariable));
}

#[test]
fn top_level_must_be_function() {
    assert_eq!(sema(vec![num(1)]), Err(Fault::NotAFunction));
}

#[test]
fn call_result_is_int_typed() {
    let f = func(
        "main",
        vec![expr_stmt(Node::Call {
            name: "f".to_string(),
            args: vec![num(1)],
            ty: ptr_to(int_ty()),
        })],
    );
    let out = sema(vec![f]).unwrap();
    match &out[0] {
        Node::Func { body, .. } => match &**body {
            Node::CompStmt { stmts } => match &stmts[0] {
                Node::ExprStmt { expr } => match &**expr {
                    Node::Call { ty, .. } => assert_eq!(ty.ty, CType::Int),
                    _ => panic!("expected a call"),
                },
                _ => panic!("expected an expression statement"),
            },
            _ => panic!("expected a block"),
        },
        _ => panic!("expected a function"),
    }
}
