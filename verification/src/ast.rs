//! The syntax-tree vocabulary that the analyzer and the IR generator consume,
//! together with its ghost mirror used by the specifications.

use vstd::prelude::*;

verus! {

/// The kind of a source-level type.
#[derive(Clone, Copy, Debug, PartialEq, Eq, Structural)]
pub enum CType {
    Int,
    Ptr,
    Ary,
}

/// A source-level type. A pointer carries its pointee under `ptr_to`; an
/// array carries its element type under `ary_of` and its element count
/// under `len`.
#[derive(Debug, PartialEq)]
pub struct Type {
    pub ty: CType,
    pub size: i32,
    pub align: i32,
    pub ptr_to: Option<Box<Type>>,
    pub ary_of: Option<Box<Type>>,
    pub len: i32,
}

/// The integer type: size 4, alignment 4.
pub open spec fn sint_ty() -> Type {
    Type { ty: CType::Int, size: 4, align: 4, ptr_to: None, ary_of: None, len: 0 }
}

/// Builds the integer type.
pub fn int_ty() -> (r: Type)
    ensures
        r == sint_ty(),
{
    Type { ty: CType::Int, size: 4, align: 4, ptr_to: None, ary_of: None, len: 0 }
}

/// Structural copy of a type.
pub fn type_clone(t: &Type) -> (r: Type)
    ensures
        r == *t,
    decreases *t,
{
    let ptr_to: Option<Box<Type>> = match &t.ptr_to {
        Some(b) => Some(Box::new(type_clone(b))),
        None => None,
    };
    let ary_of: Option<Box<Type>> = match &t.ary_of {
        Some(b) => Some(Box::new(type_clone(b))),
        None => None,
    };
    Type { ty: t.ty, size: t.size, align: t.align, ptr_to, ary_of, len: t.len }
}

/// The operator of a binary expression node. `Assign` stores the right
/// operand into the location named by the left operand.
#[derive(Clone, Copy, Debug, PartialEq, Eq, Structural)]
pub enum BinKind {
    Add,
    Sub,
    Mul,
    Div,
    Assign,
    Less,
    LogAnd,
    LogOr,
}

/// A syntax-tree node. Expression nodes carry a type, filled in (or
/// rewritten) by the analyzer; `Ident` is rewritten to `Lvar` with a
/// resolved stack offset during analysis.
#[derive(Debug, PartialEq)]
pub enum Node {
    Num { val: i32, ty: Type },
    Ident { name: String, ty: Type },
    Lvar { name: String, ty: Type, offset: i32 },
    Vardef { name: String, ty: Type, init: Option<Box<Node>>, offset: i32 },
    Bin { op: BinKind, lhs: Box<Node>, rhs: Box<Node>, ty: Type },
    Deref { expr: Box<Node>, ty: Type },
    If { cond: Box<Node>, thn: Box<Node>, els: Option<Box<Node>> },
    For { init: Option<Box<Node>>, cond: Option<Box<Node>>, inc: Option<Box<Node>>, body: Option<Box<Node>> },
    Return { expr: Box<Node> },
    ExprStmt { expr: Box<Node> },
    CompStmt { stmts: Vec<Node> },
    Call { name: String, args: Vec<Node>, ty: Type },
    Func { name: String, args: Vec<Node>, body: Box<Node>, stacksize: i32 },
}

/// Ghost mirror of `Node`: names are character sequences, numbers are
/// unbounded integers, and every child slot is a sequence (empty for an
/// absent optional child, a singleton for a present one).
#[verifier::ext_equal]
pub ghost enum SNode {
    Num { val: int, ty: Type },
    Ident { name: Seq<char>, ty: Type },
    Lvar { name: Seq<char>, ty: Type, offset: int },
    Vardef { name: Seq<char>, ty: Type, init: Seq<SNode>, offset: int },
    Bin { op: BinKind, lhs: Seq<SNode>, rhs: Seq<SNode>, ty: Type },
    Deref { expr: Seq<SNode>, ty: Type },
    If { cond: Seq<SNode>, thn: Seq<SNode>, els: Seq<SNode> },
    For { init: Seq<SNode>, cond: Seq<SNode>, inc: Seq<SNode>, body: Seq<SNode> },
    Return { expr: Seq<SNode> },
    ExprStmt { expr: Seq<SNode> },
    CompStmt { stmts: Seq<SNode> },
    Call { name: Seq<char>, args: Seq<SNode>, ty: Type },
    Func { name: Seq<char>, args: Seq<SNode>, body: Seq<SNode>, stacksize: int },
}

/// The ghost mirror of a node.
pub open spec fn nview(n: Node) -> SNode
    decreases n,
{
    match n {
        Node::Num { val, ty } => SNode::Num { val: val as int, ty },
        Node::Ident { name, ty } => SNode::Ident { name: name@, ty },
        Node::Lvar { name, ty, offset } => SNode::Lvar { name: name@, ty, offset: offset as int },
        Node::Vardef { name, ty, init, offset } => SNode::Vardef {
            name: name@,
            ty,
            init: match init { Some(b) => seq![nview(*b)], None => Seq::<SNode>::empty() },
            offset: offset as int,
        },
        Node::Bin { op, lhs, rhs, ty } => SNode::Bin {
            op,
            lhs: seq![nview(*lhs)],
            rhs: seq![nview(*rhs)],
            ty,
        },
        Node::Deref { expr, ty } => SNode::Deref { expr: seq![nview(*expr)], ty },
        Node::If { cond, thn, els } => SNode::If {
            cond: seq![nview(*cond)],
            thn: seq![nview(*thn)],
            els: match els { Some(b) => seq![nview(*b)], None => Seq::<SNode>::empty() },
        },
        Node::For { init, cond, inc, body } => SNode::For {
            init: match init { Some(b) => seq![nview(*b)], None => Seq::<SNode>::empty() },
            cond: match cond { Some(b) => seq![nview(*b)], None => Seq::<SNode>::empty() },
            inc: match inc { Some(b) => seq![nview(*b)], None => Seq::<SNode>::empty() },
            body: match body { Some(b) => seq![nview(*b)], None => Seq::<SNode>::empty() },
        },
        Node::Return { expr } => SNode::Return { expr: seq![nview(*expr)] },
        Node::ExprStmt { expr } => SNode::ExprStmt { expr: seq![nview(*expr)] },
        Node::CompStmt { stmts } => SNode::CompStmt { stmts: seqv(stmts@) },
        Node::Call { name, args, ty } => SNode::Call { name: name@, args: seqv(args@), ty },
        Node::Func { name, args, body, stacksize } => SNode::Func {
            name: name@,
            args: seqv(args@),
            body: seq![nview(*body)],
            stacksize: stacksize as int,
        },
    }
}

/// The ghost mirror of a sequence of nodes, element by element.
pub open spec fn seqv(s: Seq<Node>) -> Seq<SNode>
    decreases s,
{
    if s.len() == 0 {
        Seq::<SNode>::empty()
    } else {
        seqv(s.subrange(0, s.len() - 1)) + seq![nview(s[s.len() - 1])]
    }
}

/// `seqv` maps `nview` over the elements.
pub proof fn lemma_seqv(s: Seq<Node>)
    ensures
        seqv(s).len() == s.len(),
        forall|i: int| 0 <= i < s.len() ==> seqv(s)[i] == nview(#[trigger] s[i]),
    decreases s.len(),
{
    if s.len() > 0 {
        lemma_seqv(s.subrange(0, s.len() - 1));
        assert forall|i: int| 0 <= i < s.len() implies seqv(s)[i] == nview(#[trigger] s[i]) by {
            if i < s.len() - 1 {
                assert(s.subrange(0, s.len() - 1)[i] == s[i]);
            }
        }
    }
}

/// Appending a node to a sequence appends its mirror to the sequence's view.
pub proof fn lemma_seqv_push(s: Seq<Node>, x: Node)
    ensures
        seqv(s.push(x)) == seqv(s) + seq![nview(x)],
{
    let p = s.push(x);
    assert(p.len() == s.len() + 1);
    assert(p.subrange(0, p.len() - 1) =~= s);
    assert(p[p.len() - 1] == x);
}

/// The fault taxonomy: every condition that aborts a compilation.
#[derive(Clone, Copy, Debug, PartialEq, Eq, Structural)]
pub enum Fault {
    /// An identifier was used without a declaration.
    UndefinedVariable,
    /// Both operands of an addition or subtraction are pointers.
    PointerPointer,
    /// The operand of a dereference is not a pointer.
    NotAPointer,
    /// An address was required of a node that names no storage.
    NotAnLvalue,
    /// A node kind reached a rule that has no case for it.
    UnknownNode,
    /// A node kind reached expression lowering that is no operator.
    NotAnOperator,
    /// A top-level node is not a function.
    NotAFunction,
}

} // verus!
