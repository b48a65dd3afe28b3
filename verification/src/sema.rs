//! Semantic analysis: resolves identifiers against the declared-variable
//! table, assigns a type to every expression, enforces the pointer-arithmetic
//! rules, and computes each function's stack-frame size.
//!
//! The analyzer is a fold: it consumes a tree and produces a new, annotated
//! tree. Its exact behaviour is given by the specification function [`swalk`].

use vstd::prelude::*;
use crate::ast::{BinKind, CType, Fault, Node, SNode, Type, int_ty, lemma_seqv, lemma_seqv_push, nview, seqv, sint_ty, type_clone};

verus! {

/// A declared variable: its type and its stack offset in bytes from the
/// frame base.
pub struct Var {
    pub ty: Type,
    pub offset: i32,
}

/// Ghost mirror of a declared variable.
pub ghost struct SVar {
    pub ty: Type,
    pub offset: int,
}

impl View for Var {
    type V = SVar;

    open spec fn view(&self) -> SVar {
        SVar { ty: self.ty, offset: self.offset as int }
    }
}

/// The analyzer's mutable state: the variable table and the stack-size
/// accumulator, both reset at the start of each function.
pub struct SemaCtx {
    pub vars: Vec<(String, Var)>,
    pub stacksize: i32,
}

/// Ghost mirror of the analyzer state: the table as a map from name to
/// variable, later entries shadowing earlier ones.
pub ghost struct SemaSt {
    pub vars: Map<Seq<char>, SVar>,
    pub stacksize: int,
}

/// The map held by an association list, a later entry shadowing an earlier
/// one with the same name.
pub open spec fn svars(s: Seq<(String, Var)>) -> Map<Seq<char>, SVar>
    decreases s.len(),
{
    if s.len() == 0 {
        Map::empty()
    } else {
        svars(s.subrange(0, s.len() - 1)).insert(s[s.len() - 1].0@, s[s.len() - 1].1@)
    }
}

impl View for SemaCtx {
    type V = SemaSt;

    open spec fn view(&self) -> SemaSt {
        SemaSt { vars: svars(self.vars@), stacksize: self.stacksize as int }
    }
}

/// Outcome of walking one node.
pub ghost enum SemaRes {
    Done { node: SNode, st: SemaSt },
    Fail { f: Fault },
}

/// Outcome of walking a sequence of nodes in order.
pub ghost enum SemaListRes {
    Done { nodes: Seq<SNode>, st: SemaSt },
    Fail { f: Fault },
}

/// Outcome of analyzing a whole forest of functions.
pub ghost enum SemaForestRes {
    Done { nodes: Seq<SNode> },
    Fail { f: Fault },
}

/// The type attached to a node: its `ty` field where the kind carries one,
/// the integer type otherwise.
pub open spec fn sty_of(n: SNode) -> Type {
    match n {
        SNode::Num { ty, .. } => ty,
        SNode::Ident { ty, .. } => ty,
        SNode::Lvar { ty, .. } => ty,
        SNode::Vardef { ty, .. } => ty,
        SNode::Bin { ty, .. } => ty,
        SNode::Deref { ty, .. } => ty,
        SNode::Call { ty, .. } => ty,
        _ => sint_ty(),
    }
}

/// Number of nodes in a tree; each declaration grows the stack by at most
/// 8 bytes, so the accumulator grows by at most `8 * snsize(n)` over a walk.
pub open spec fn snsize(n: SNode) -> nat
    decreases n,
{
    match n {
        SNode::Vardef { init, .. } => 1 + slsize(init),
        SNode::Bin { lhs, rhs, .. } => 1 + slsize(lhs) + slsize(rhs),
        SNode::Deref { expr, .. } => 1 + slsize(expr),
        SNode::If { cond, thn, els } => 1 + slsize(cond) + slsize(thn) + slsize(els),
        SNode::For { init, cond, inc, body } => 1 + slsize(init) + slsize(cond) + slsize(inc)
            + slsize(body),
        SNode::Return { expr } => 1 + slsize(expr),
        SNode::ExprStmt { expr } => 1 + slsize(expr),
        SNode::CompStmt { stmts } => 1 + slsize(stmts),
        SNode::Call { args, .. } => 1 + slsize(args),
        SNode::Func { args, body, .. } => 1 + slsize(args) + slsize(body),
        _ => 1,
    }
}

/// Total node count of a sequence of trees.
pub open spec fn slsize(ns: Seq<SNode>) -> nat
    decreases ns,
{
    if ns.len() == 0 {
        0
    } else {
        slsize(ns.subrange(0, ns.len() - 1)) + snsize(ns[ns.len() - 1])
    }
}

/// The analyzer's visit rule for one node. The node kinds that carry no
/// rule (a resolved lvalue reaching the analyzer again) fail with
/// `UnknownNode`.
pub open spec fn swalk(n: SNode, st: SemaSt) -> SemaRes
    decreases n,
{
    match n {
        SNode::Num { .. } => SemaRes::Done { node: n, st },
        SNode::Ident { name, ty: _ } => if st.vars.contains_key(name) {
            SemaRes::Done {
                node: SNode::Lvar {
                    name,
                    ty: st.vars[name].ty,
                    offset: st.vars[name].offset,
                },
                st,
            }
        } else {
            SemaRes::Fail { f: Fault::UndefinedVariable }
        },
        SNode::Vardef { name, ty, init, offset: _ } => {
            let off = st.stacksize + 8;
            let st1 = SemaSt { vars: st.vars.insert(name, SVar { ty, offset: off }), stacksize: off };
            match swalk_list(init, st1) {
                SemaListRes::Fail { f } => SemaRes::Fail { f },
                SemaListRes::Done { nodes, st: st2 } => SemaRes::Done {
                    node: SNode::Vardef { name, ty, init: nodes, offset: off },
                    st: st2,
                },
            }
        },
        SNode::Bin { op, lhs, rhs, ty: ty0 } => match swalk_list(lhs, st) {
            SemaListRes::Fail { f } => SemaRes::Fail { f },
            SemaListRes::Done { nodes: l2, st: st1 } => match swalk_list(rhs, st1) {
                SemaListRes::Fail { f } => SemaRes::Fail { f },
                SemaListRes::Done { nodes: r2, st: st2 } => {
                    if op == BinKind::Add || op == BinKind::Sub {
                        let swapped = r2.len() == 1 && sty_of(r2[0]).ty == CType::Ptr;
                        let l3 = if swapped { r2 } else { l2 };
                        let r3 = if swapped { l2 } else { r2 };
                        if r3.len() == 1 && sty_of(r3[0]).ty == CType::Ptr {
                            SemaRes::Fail { f: Fault::PointerPointer }
                        } else {
                            let nty = if l3.len() == 1 { sty_of(l3[0]) } else { ty0 };
                            SemaRes::Done {
                                node: SNode::Bin { op, lhs: l3, rhs: r3, ty: nty },
                                st: st2,
                            }
                        }
                    } else {
                        let nty = if l2.len() == 1 { sty_of(l2[0]) } else { ty0 };
                        SemaRes::Done {
                            node: SNode::Bin { op, lhs: l2, rhs: r2, ty: nty },
                            st: st2,
                        }
                    }
                },
            },
        },
        SNode::Deref { expr, ty: _ } => match swalk_list(expr, st) {
            SemaListRes::Fail { f } => SemaRes::Fail { f },
            SemaListRes::Done { nodes: e2, st: st1 } => {
                if e2.len() == 1 && sty_of(e2[0]).ty == CType::Ptr {
                    match sty_of(e2[0]).ptr_to {
                        Some(b) => SemaRes::Done {
                            node: SNode::Deref { expr: e2, ty: *b },
                            st: st1,
                        },
                        None => SemaRes::Fail { f: Fault::NotAPointer },
                    }
                } else {
                    SemaRes::Fail { f: Fault::NotAPointer }
                }
            },
        },
        SNode::If { cond, thn, els } => match swalk_list(cond, st) {
            SemaListRes::Fail { f } => SemaRes::Fail { f },
            SemaListRes::Done { nodes: c2, st: st1 } => match swalk_list(thn, st1) {
                SemaListRes::Fail { f } => SemaRes::Fail { f },
                SemaListRes::Done { nodes: t2, st: st2 } => match swalk_list(els, st2) {
                    SemaListRes::Fail { f } => SemaRes::Fail { f },
                    SemaListRes::Done { nodes: e2, st: st3 } => SemaRes::Done {
                        node: SNode::If { cond: c2, thn: t2, els: e2 },
                        st: st3,
                    },
                },
            },
        },
        SNode::For { init, cond, inc, body } => match swalk_list(init, st) {
            SemaListRes::Fail { f } => SemaRes::Fail { f },
            SemaListRes::Done { nodes: i2, st: st1 } => match swalk_list(cond, st1) {
                SemaListRes::Fail { f } => SemaRes::Fail { f },
                SemaListRes::Done { nodes: c2, st: st2 } => match swalk_list(inc, st2) {
                    SemaListRes::Fail { f } => SemaRes::Fail { f },
                    SemaListRes::Done { nodes: n2, st: st3 } => match swalk_list(body, st3) {
                        SemaListRes::Fail { f } => SemaRes::Fail { f },
                        SemaListRes::Done { nodes: b2, st: st4 } => SemaRes::Done {
                            node: SNode::For { init: i2, cond: c2, inc: n2, body: b2 },
                            st: st4,
                        },
                    },
                },
            },
        },
        SNode::Return { expr } => match swalk_list(expr, st) {
            SemaListRes::Fail { f } => SemaRes::Fail { f },
            SemaListRes::Done { nodes: e2, st: st1 } => SemaRes::Done {
                node: SNode::Return { expr: e2 },
                st: st1,
            },
        },
        SNode::ExprStmt { expr } => match swalk_list(expr, st) {
            SemaListRes::Fail { f } => SemaRes::Fail { f },
            SemaListRes::Done { nodes: e2, st: st1 } => SemaRes::Done {
                node: SNode::ExprStmt { expr: e2 },
                st: st1,
            },
        },
        SNode::CompStmt { stmts } => match swalk_list(stmts, st) {
            SemaListRes::Fail { f } => SemaRes::Fail { f },
            SemaListRes::Done { nodes: s2, st: st1 } => SemaRes::Done {
                node: SNode::CompStmt { stmts: s2 },
                st: st1,
            },
        },
        SNode::Call { name, args, ty: _ } => match swalk_list(args, st) {
            SemaListRes::Fail { f } => SemaRes::Fail { f },
            SemaListRes::Done { nodes: a2, st: st1 } => SemaRes::Done {
                node: SNode::Call { name, args: a2, ty: sint_ty() },
                st: st1,
            },
        },
        SNode::Func { name, args, body, stacksize } => match swalk_list(args, st) {
            SemaListRes::Fail { f } => SemaRes::Fail { f },
            SemaListRes::Done { nodes: a2, st: st1 } => match swalk_list(body, st1) {
                SemaListRes::Fail { f } => SemaRes::Fail { f },
                SemaListRes::Done { nodes: b2, st: st2 } => SemaRes::Done {
                    node: SNode::Func { name, args: a2, body: b2, stacksize },
                    st: st2,
                },
            },
        },
        SNode::Lvar { .. } => SemaRes::Fail { f: Fault::UnknownNode },
    }
}

/// Walks the nodes of a sequence in order, threading the state, aborting at
/// the first fault.
pub open spec fn swalk_list(ns: Seq<SNode>, st: SemaSt) -> SemaListRes
    decreases ns,
{
    if ns.len() == 0 {
        SemaListRes::Done { nodes: Seq::empty(), st }
    } else {
        match swalk_list(ns.subrange(0, ns.len() - 1), st) {
            SemaListRes::Fail { f } => SemaListRes::Fail { f },
            SemaListRes::Done { nodes, st: st1 } => match swalk(ns[ns.len() - 1], st1) {
                SemaRes::Fail { f } => SemaListRes::Fail { f },
                SemaRes::Done { node, st: st2 } => SemaListRes::Done {
                    nodes: nodes + seq![node],
                    st: st2,
                },
            },
        }
    }
}

/// A singleton list walks as its one element does.
pub proof fn lemma_swalk_singleton(x: SNode, st: SemaSt)
    ensures
        swalk_list(seq![x], st) == (match swalk(x, st) {
            SemaRes::Done { node, st: st1 } => SemaListRes::Done { nodes: seq![node], st: st1 },
            SemaRes::Fail { f } => SemaListRes::Fail { f },
        }),
{
    let s = seq![x];
    let e = Seq::<SNode>::empty();
    assert(s.len() == 1);
    assert(s.subrange(0, 0) =~= e);
    assert(swalk_list(e, st) == (SemaListRes::Done { nodes: e, st }));
    assert(s[0] == x);
    match swalk(x, st) {
        SemaRes::Done { node, st: st1 } => {
            assert(swalk_list(s, st) == (SemaListRes::Done { nodes: e + seq![node], st: st1 }));
            assert(e + seq![node] =~= seq![node]);
        },
        SemaRes::Fail { f: _ } => {},
    }
}

/// If a prefix of a list walks successfully and the next node fails, the
/// whole list fails with that fault.
pub proof fn lemma_swalk_list_fail_at(ns: Seq<SNode>, st: SemaSt, i: int, f: Fault)
    requires
        0 <= i < ns.len(),
        (swalk_list(ns.subrange(0, i), st) matches SemaListRes::Done { st: st1, .. }
            && swalk(ns[i], st1) == SemaRes::Fail { f }),
    ensures
        swalk_list(ns, st) == (SemaListRes::Fail { f }),
    decreases ns.len(),
{
    let pre = ns.subrange(0, ns.len() - 1);
    if i == ns.len() - 1 {
        assert(ns.subrange(0, i) =~= pre);
    } else {
        assert(pre.subrange(0, i) =~= ns.subrange(0, i));
        assert(pre[i] == ns[i]);
        lemma_swalk_list_fail_at(pre, st, i, f);
    }
}

/// Over a successful walk the stack-size accumulator never shrinks and grows
/// by at most eight bytes per node.
pub proof fn lemma_swalk_bounds(n: SNode, st: SemaSt)
    ensures
        (swalk(n, st) matches SemaRes::Done { st: st1, .. } ==> st.stacksize <= st1.stacksize
            <= st.stacksize + 8 * snsize(n)),
    decreases n,
{
    match n {
        SNode::Vardef { name, ty, init, offset: _ } => {
            let off = st.stacksize + 8;
            let st1 = SemaSt { vars: st.vars.insert(name, SVar { ty, offset: off }), stacksize: off };
            lemma_swalk_list_bounds(init, st1);
        },
        SNode::Bin { op: _, lhs, rhs, ty: _ } => {
            lemma_swalk_list_bounds(lhs, st);
            if let SemaListRes::Done { st: st1, .. } = swalk_list(lhs, st) {
                lemma_swalk_list_bounds(rhs, st1);
            }
        },
        SNode::Deref { expr, ty: _ } => {
            lemma_swalk_list_bounds(expr, st);
        },
        SNode::If { cond, thn, els } => {
            lemma_swalk_list_bounds(cond, st);
            if let SemaListRes::Done { st: st1, .. } = swalk_list(cond, st) {
                lemma_swalk_list_bounds(thn, st1);
                if let SemaListRes::Done { st: st2, .. } = swalk_list(thn, st1) {
                    lemma_swalk_list_bounds(els, st2);
                }
            }
        },
        SNode::For { init, cond, inc, body } => {
            lemma_swalk_list_bounds(init, st);
            if let SemaListRes::Done { st: st1, .. } = swalk_list(init, st) {
                lemma_swalk_list_bounds(cond, st1);
                if let SemaListRes::Done { st: st2, .. } = swalk_list(cond, st1) {
                    lemma_swalk_list_bounds(inc, st2);
                    if let SemaListRes::Done { st: st3, .. } = swalk_list(inc, st2) {
                        lemma_swalk_list_bounds(body, st3);
                    }
                }
            }
        },
        SNode::Return { expr } => {
            lemma_swalk_list_bounds(expr, st);
        },
        SNode::ExprStmt { expr } => {
            lemma_swalk_list_bounds(expr, st);
        },
        SNode::CompStmt { stmts } => {
            lemma_swalk_list_bounds(stmts, st);
        },
        SNode::Call { name: _, args, ty: _ } => {
            lemma_swalk_list_bounds(args, st);
        },
        SNode::Func { name: _, args, body, stacksize: _ } => {
            lemma_swalk_list_bounds(args, st);
            if let SemaListRes::Done { st: st1, .. } = swalk_list(args, st) {
                lemma_swalk_list_bounds(body, st1);
            }
        },
        _ => {},
    }
}

/// List form of `lemma_swalk_bounds`.
pub proof fn lemma_swalk_list_bounds(ns: Seq<SNode>, st: SemaSt)
    ensures
        (swalk_list(ns, st) matches SemaListRes::Done { st: st1, .. } ==> st.stacksize
            <= st1.stacksize <= st.stacksize + 8 * slsize(ns)),
    decreases ns,
{
    if ns.len() > 0 {
        let pre = ns.subrange(0, ns.len() - 1);
        lemma_swalk_list_bounds(pre, st);
        if let SemaListRes::Done { st: st1, .. } = swalk_list(pre, st) {
            lemma_swalk_bounds(ns[ns.len() - 1], st1);
        }
    }
}

/// A one-node sequence holds one node.
pub proof fn lemma_slsize_singleton(x: SNode)
    ensures
        slsize(seq![x]) == snsize(x),
{
    let s = seq![x];
    assert(s.subrange(0, 0) =~= Seq::<SNode>::empty());
    assert(slsize(Seq::<SNode>::empty()) == 0);
    assert(s[0] == x);
}

/// The node count of a sequence splits at its head.
pub proof fn lemma_slsize_head(s: Seq<SNode>)
    requires
        s.len() > 0,
    ensures
        slsize(s) == snsize(s[0]) + slsize(s.skip(1)),
    decreases s.len(),
{
    if s.len() == 1 {
        lemma_slsize_singleton(s[0]);
        assert(s =~= seq![s[0]]);
        assert(s.skip(1) =~= Seq::<SNode>::empty());
        assert(slsize(Seq::<SNode>::empty()) == 0);
    } else {
        let pre = s.subrange(0, s.len() - 1);
        lemma_slsize_head(pre);
        assert(pre[0] == s[0]);
        let t = s.skip(1);
        assert(t.len() == s.len() - 1);
        assert(pre.skip(1) =~= t.subrange(0, t.len() - 1));
        assert(t[t.len() - 1] == s[s.len() - 1]);
        assert(slsize(t) == slsize(t.subrange(0, t.len() - 1)) + snsize(t[t.len() - 1]));
    }
}

/// The table of an association list after a push: the pushed entry is added
/// to the map, shadowing any earlier entry of the same name.
pub proof fn lemma_svars_push(s: Seq<(String, Var)>, name: String, v: Var)
    ensures
        svars(s.push((name, v))) == svars(s).insert(name@, v@),
{
    let p = s.push((name, v));
    assert(p.subrange(0, p.len() - 1) =~= s);
    assert(p[p.len() - 1] == (name, v));
}

/// In the table, a name maps to the last entry of that name in the list.
pub proof fn lemma_svars_last(s: Seq<(String, Var)>, i: int)
    requires
        0 <= i < s.len(),
        forall|j: int| i < j < s.len() ==> s[j].0@ != s[i].0@,
    ensures
        svars(s).contains_key(s[i].0@),
        svars(s)[s[i].0@] == s[i].1@,
    decreases s.len(),
{
    if i < s.len() - 1 {
        let pre = s.subrange(0, s.len() - 1);
        assert(pre[i] == s[i]);
        assert(forall|j: int| i < j < pre.len() ==> pre[j] == s[j]);
        lemma_svars_last(pre, i);
    }
}

/// A name on no entry of the list is not in the table.
pub proof fn lemma_svars_absent(s: Seq<(String, Var)>, k: Seq<char>)
    requires
        forall|j: int| 0 <= j < s.len() ==> s[j].0@ != k,
    ensures
        !svars(s).contains_key(k),
    decreases s.len(),
{
    if s.len() > 0 {
        let pre = s.subrange(0, s.len() - 1);
        assert(forall|j: int| 0 <= j < pre.len() ==> pre[j] == s[j]);
        lemma_svars_absent(pre, k);
    }
}

/// Finds the entry of a name in the table, the last one of that name.
fn vars_find(vars: &Vec<(String, Var)>, name: &String) -> (r: Option<usize>)
    ensures
        (match r {
            Some(i) => i < vars@.len() && svars(vars@).contains_key(name@) && svars(
                vars@,
            )[name@] == vars@[i as int].1@,
            None => !svars(vars@).contains_key(name@),
        }),
{
    let mut i = vars.len();
    while i > 0
        invariant
            i <= vars@.len(),
            forall|j: int| i <= j < vars@.len() ==> vars@[j].0@ != name@,
        decreases i,
    {
        i = i - 1;
        if vars[i].0 == *name {
            proof {
                lemma_svars_last(vars@, i as int);
            }
            return Some(i);
        }
    }
    proof {
        lemma_svars_absent(vars@, name@);
    }
    None
}

/// The type attached to a node, the integer type for kinds that carry none.
pub fn ty_of(n: &Node) -> (r: Type)
    ensures
        r == sty_of(nview(*n)),
{
    match n {
        Node::Num { ty, .. } => type_clone(ty),
        Node::Ident { ty, .. } => type_clone(ty),
        Node::Lvar { ty, .. } => type_clone(ty),
        Node::Vardef { ty, .. } => type_clone(ty),
        Node::Bin { ty, .. } => type_clone(ty),
        Node::Deref { ty, .. } => type_clone(ty),
        Node::Call { ty, .. } => type_clone(ty),
        _ => int_ty(),
    }
}

/// The ghost mirror of an optional child as a child-slot sequence.
pub open spec fn optv(o: Option<Box<Node>>) -> Seq<SNode> {
    match o {
        Some(b) => seq![nview(*b)],
        None => Seq::<SNode>::empty(),
    }
}

/// Walks one node, producing the annotated node; the variable table and the
/// stack-size accumulator move as [`swalk`] says.
#[verifier::rlimit(100)]
pub fn walk(n: &Node, ctx: &mut SemaCtx) -> (r: Result<Node, Fault>)
    requires
        old(ctx)@.stacksize + 8 * snsize(nview(*n)) <= i32::MAX,
    ensures
        (match swalk(nview(*n), old(ctx)@) {
            SemaRes::Done { node, st } => (r matches Ok(out) && nview(out) == node && final(ctx)@ == st),
            SemaRes::Fail { f } => (r matches Err(g) && g == f),
        }),
    decreases *n, 1int,
{
    let ghost st0 = ctx@;
    match n {
        Node::Num { val, ty } => Ok(Node::Num { val: *val, ty: type_clone(ty) }),
        Node::Ident { name, ty: _ } => {
            match vars_find(&ctx.vars, name) {
                Some(i) => {
                    let vty = type_clone(&ctx.vars[i].1.ty);
                    let off = ctx.vars[i].1.offset;
                    Ok(Node::Lvar { name: name.clone(), ty: vty, offset: off })
                },
                None => Err(Fault::UndefinedVariable),
            }
        },
        Node::Lvar { .. } => Err(Fault::UnknownNode),
        Node::Vardef { .. } => walk_vardef(n, ctx),
        Node::Bin { .. } => walk_bin(n, ctx),
        Node::Deref { expr, ty: _ } => {
            proof {
                lemma_slsize_singleton(nview(**expr));
                lemma_swalk_singleton(nview(**expr), st0);
            }
            let e2 = match walk(expr, ctx) {
                Ok(v) => v,
                Err(g) => {
                    return Err(g);
                },
            };
            let t = ty_of(&e2);
            if t.ty == CType::Ptr {
                match t.ptr_to {
                    Some(b) => Ok(Node::Deref { expr: Box::new(e2), ty: *b }),
                    None => Err(Fault::NotAPointer),
                }
            } else {
                Err(Fault::NotAPointer)
            }
        },
        Node::If { .. } => walk_if(n, ctx),
        Node::For { .. } => walk_for(n, ctx),
        Node::Return { expr } => {
            proof {
                lemma_slsize_singleton(nview(**expr));
                lemma_swalk_singleton(nview(**expr), st0);
            }
            let e2 = match walk(expr, ctx) {
                Ok(v) => v,
                Err(g) => {
                    return Err(g);
                },
            };
            Ok(Node::Return { expr: Box::new(e2) })
        },
        Node::ExprStmt { expr } => {
            proof {
                lemma_slsize_singleton(nview(**expr));
                lemma_swalk_singleton(nview(**expr), st0);
            }
            let e2 = match walk(expr, ctx) {
                Ok(v) => v,
                Err(g) => {
                    return Err(g);
                },
            };
            Ok(Node::ExprStmt { expr: Box::new(e2) })
        },
        Node::CompStmt { stmts } => {
            let s2 = match walk_list(stmts, ctx) {
                Ok(v) => v,
                Err(g) => {
                    return Err(g);
                },
            };
            Ok(Node::CompStmt { stmts: s2 })
        },
        Node::Call { name, args, ty: _ } => {
            let a2 = match walk_list(args, ctx) {
                Ok(v) => v,
                Err(g) => {
                    return Err(g);
                },
            };
            Ok(Node::Call { name: name.clone(), args: a2, ty: int_ty() })
        },
        Node::Func { name, args, body, stacksize } => {
            proof {
                lemma_slsize_singleton(nview(**body));
            }
            let ghost sta = ctx@;
            let a2 = match walk_list(args, ctx) {
                Ok(v) => v,
                Err(g) => {
                    return Err(g);
                },
            };
            proof {
                lemma_swalk_list_bounds(seqv(args@), sta);
                lemma_swalk_singleton(nview(**body), ctx@);
            }
            let b2 = match walk(body, ctx) {
                Ok(v) => v,
                Err(g) => {
                    return Err(g);
                },
            };
            Ok(Node::Func {
                name: name.clone(),
                args: a2,
                body: Box::new(b2),
                stacksize: *stacksize,
            })
        },
    }
}

/// The declaration rule: allocate a fresh 8-byte stack slot, register the
/// variable, then walk the initializer.
fn walk_vardef(n: &Node, ctx: &mut SemaCtx) -> (r: Result<Node, Fault>)
    requires
        (*n matches Node::Vardef { .. }),
        old(ctx)@.stacksize + 8 * snsize(nview(*n)) <= i32::MAX,
    ensures
        (match swalk(nview(*n), old(ctx)@) {
            SemaRes::Done { node, st } => (r matches Ok(out) && nview(out) == node && final(ctx)@ == st),
            SemaRes::Fail { f } => (r matches Err(g) && g == f),
        }),
    decreases *n, 0int,
{
    match n {
        Node::Vardef { name, ty, init, offset: _ } => {
            proof {
                lemma_slsize_optv(*init);
            }
            let ghost vs0 = ctx.vars@;
            ctx.stacksize = ctx.stacksize + 8;
            let off = ctx.stacksize;
            let cname = name.clone();
            let cvar = Var { ty: type_clone(ty), offset: off };
            let ghost gname = cname;
            let ghost gvar = cvar;
            ctx.vars.push((cname, cvar));
            proof {
                lemma_svars_push(vs0, gname, gvar);
            }
            let init2 = match walk_opt(init, ctx) {
                Ok(o) => o,
                Err(g) => {
                    return Err(g);
                },
            };
            Ok(Node::Vardef { name: name.clone(), ty: type_clone(ty), init: init2, offset: off })
        },
        _ => {
            proof {
                assert(false);
            }
            Err(Fault::UnknownNode)
        },
    }
}

/// The binary-operator rule: walk both operands; for addition and
/// subtraction swap a pointer operand to the left and refuse two pointers;
/// the node takes its left operand's type.
fn walk_bin(n: &Node, ctx: &mut SemaCtx) -> (r: Result<Node, Fault>)
    requires
        (*n matches Node::Bin { .. }),
        old(ctx)@.stacksize + 8 * snsize(nview(*n)) <= i32::MAX,
    ensures
        (match swalk(nview(*n), old(ctx)@) {
            SemaRes::Done { node, st } => (r matches Ok(out) && nview(out) == node && final(ctx)@ == st),
            SemaRes::Fail { f } => (r matches Err(g) && g == f),
        }),
    decreases *n, 0int,
{
    let ghost st0 = ctx@;
    match n {
        Node::Bin { op, lhs, rhs, ty: _ } => {
            proof {
                lemma_slsize_singleton(nview(**lhs));
                lemma_slsize_singleton(nview(**rhs));
                lemma_swalk_singleton(nview(**lhs), st0);
            }
            let l2 = match walk(lhs, ctx) {
                Ok(v) => v,
                Err(g) => {
                    return Err(g);
                },
            };
            proof {
                lemma_swalk_bounds(nview(**lhs), st0);
                lemma_swalk_singleton(nview(**rhs), ctx@);
            }
            let r2 = match walk(rhs, ctx) {
                Ok(v) => v,
                Err(g) => {
                    return Err(g);
                },
            };
            if *op == BinKind::Add || *op == BinKind::Sub {
                let swapped = ty_of(&r2).ty == CType::Ptr;
                let (l3, r3) = if swapped { (r2, l2) } else { (l2, r2) };
                if ty_of(&r3).ty == CType::Ptr {
                    return Err(Fault::PointerPointer);
                }
                let nty = ty_of(&l3);
                Ok(Node::Bin { op: *op, lhs: Box::new(l3), rhs: Box::new(r3), ty: nty })
            } else {
                let nty = ty_of(&l2);
                Ok(Node::Bin { op: *op, lhs: Box::new(l2), rhs: Box::new(r2), ty: nty })
            }
        },
        _ => {
            proof {
                assert(false);
            }
            Err(Fault::UnknownNode)
        },
    }
}

/// The conditional rule: walk the condition, the then-branch, and the
/// optional else-branch in order.
fn walk_if(n: &Node, ctx: &mut SemaCtx) -> (r: Result<Node, Fault>)
    requires
        (*n matches Node::If { .. }),
        old(ctx)@.stacksize + 8 * snsize(nview(*n)) <= i32::MAX,
    ensures
        (match swalk(nview(*n), old(ctx)@) {
            SemaRes::Done { node, st } => (r matches Ok(out) && nview(out) == node && final(ctx)@ == st),
            SemaRes::Fail { f } => (r matches Err(g) && g == f),
        }),
    decreases *n, 0int,
{
    let ghost st0 = ctx@;
    match n {
        Node::If { cond, thn, els } => {
            proof {
                lemma_slsize_singleton(nview(**cond));
                lemma_slsize_singleton(nview(**thn));
                lemma_slsize_optv(*els);
                lemma_swalk_singleton(nview(**cond), st0);
            }
            let c2 = match walk(cond, ctx) {
                Ok(v) => v,
                Err(g) => {
                    return Err(g);
                },
            };
            proof {
                lemma_swalk_bounds(nview(**cond), st0);
                lemma_swalk_singleton(nview(**thn), ctx@);
            }
            let t2 = match walk(thn, ctx) {
                Ok(v) => v,
                Err(g) => {
                    return Err(g);
                },
            };
            proof {
                lemma_swalk_bounds(nview(**thn), swalk_st_after(nview(**cond), st0));
                lemma_swalk_bounds(nview(**cond), st0);
            }
            let e2 = match walk_opt(els, ctx) {
                Ok(o) => o,
                Err(g) => {
                    return Err(g);
                },
            };
            Ok(Node::If { cond: Box::new(c2), thn: Box::new(t2), els: e2 })
        },
        _ => {
            proof {
                assert(false);
            }
            Err(Fault::UnknownNode)
        },
    }
}

/// The loop rule: walk the initializer, the condition, the increment and
/// the body in order, each optional.
fn walk_for(n: &Node, ctx: &mut SemaCtx) -> (r: Result<Node, Fault>)
    requires
        (*n matches Node::For { .. }),
        old(ctx)@.stacksize + 8 * snsize(nview(*n)) <= i32::MAX,
    ensures
        (match swalk(nview(*n), old(ctx)@) {
            SemaRes::Done { node, st } => (r matches Ok(out) && nview(out) == node && final(ctx)@ == st),
            SemaRes::Fail { f } => (r matches Err(g) && g == f),
        }),
    decreases *n, 0int,
{
    match n {
        Node::For { init, cond, inc, body } => {
            proof {
                lemma_slsize_optv(*init);
                lemma_slsize_optv(*cond);
                lemma_slsize_optv(*inc);
                lemma_slsize_optv(*body);
            }
            let ghost sti = ctx@;
            let i2 = match walk_opt(init, ctx) {
                Ok(o) => o,
                Err(g) => {
                    return Err(g);
                },
            };
            proof {
                lemma_swalk_list_bounds(optv(*init), sti);
            }
            let ghost stc = ctx@;
            let c2 = match walk_opt(cond, ctx) {
                Ok(o) => o,
                Err(g) => {
                    return Err(g);
                },
            };
            proof {
                lemma_swalk_list_bounds(optv(*cond), stc);
            }
            let ghost stn = ctx@;
            let n2 = match walk_opt(inc, ctx) {
                Ok(o) => o,
                Err(g) => {
                    return Err(g);
                },
            };
            proof {
                lemma_swalk_list_bounds(optv(*inc), stn);
            }
            let b2 = match walk_opt(body, ctx) {
                Ok(o) => o,
                Err(g) => {
                    return Err(g);
                },
            };
            Ok(Node::For { init: i2, cond: c2, inc: n2, body: b2 })
        },
        _ => {
            proof {
                assert(false);
            }
            Err(Fault::UnknownNode)
        },
    }
}


/// The state after a successful walk of one node, the given one otherwise.
pub open spec fn swalk_st_after(n: SNode, st: SemaSt) -> SemaSt {
    match swalk(n, st) {
        SemaRes::Done { st: st1, .. } => st1,
        SemaRes::Fail { .. } => st,
    }
}

/// An optional child holds at most one node.
pub proof fn lemma_slsize_optv(o: Option<Box<Node>>)
    ensures
        (o matches Some(b) ==> slsize(optv(o)) == snsize(nview(*b))),
        (o is None ==> slsize(optv(o)) == 0),
{
    match o {
        Some(b) => {
            lemma_slsize_singleton(nview(*b));
        },
        None => {
            assert(slsize(Seq::<SNode>::empty()) == 0);
        },
    }
}

/// Walks an optional child: absent stays absent, present is walked.
pub fn walk_opt(o: &Option<Box<Node>>, ctx: &mut SemaCtx) -> (r: Result<
    Option<Box<Node>>,
    Fault,
>)
    requires
        old(ctx)@.stacksize + 8 * slsize(optv(*o)) <= i32::MAX,
    ensures
        (match swalk_list(optv(*o), old(ctx)@) {
            SemaListRes::Done { nodes, st } => (r matches Ok(out) && optv(out) == nodes && final(ctx)@
                == st),
            SemaListRes::Fail { f } => (r matches Err(g) && g == f),
        }),
    decreases *o, 1int,
{
    let ghost st0 = ctx@;
    match o {
        None => {
            proof {
                assert(swalk_list(Seq::<SNode>::empty(), st0) == (SemaListRes::Done {
                    nodes: Seq::<SNode>::empty(),
                    st: st0,
                }));
            }
            Ok(None)
        },
        Some(b) => {
            proof {
                lemma_slsize_singleton(nview(**b));
                lemma_swalk_singleton(nview(**b), st0);
            }
            match walk(&**b, ctx) {
                Ok(w) => Ok(Some(Box::new(w))),
                Err(g) => Err(g),
            }
        },
    }
}

/// Walks the nodes of a vector in order, threading the state.
#[verifier::loop_isolation(false)]
pub fn walk_list(v: &Vec<Node>, ctx: &mut SemaCtx) -> (r: Result<Vec<Node>, Fault>)
    requires
        old(ctx)@.stacksize + 8 * slsize(seqv(v@)) <= i32::MAX,
    ensures
        (match swalk_list(seqv(v@), old(ctx)@) {
            SemaListRes::Done { nodes, st } => (r matches Ok(out) && seqv(out@) == nodes && final(ctx)@
                == st),
            SemaListRes::Fail { f } => (r matches Err(g) && g == f),
        }),
    decreases *v, 1int,
{
    let ghost st0 = ctx@;
    let ghost sns = seqv(v@);
    proof {
        lemma_seqv(v@);
        assert(sns.skip(0) =~= sns);
        assert(sns.take(0) =~= Seq::<SNode>::empty());
        assert(seqv(Seq::<Node>::empty()) =~= Seq::<SNode>::empty());
        assert(swalk_list(Seq::<SNode>::empty(), st0) == (SemaListRes::Done {
            nodes: Seq::<SNode>::empty(),
            st: st0,
        }));
    }
    let mut out: Vec<Node> = Vec::new();
    let mut i: usize = 0;
    while i < v.len()
        invariant
            i <= v@.len(),
            sns == seqv(v@),
            sns.len() == v@.len(),
            (swalk_list(sns.take(i as int), st0) matches SemaListRes::Done { nodes, st } && nodes
                == seqv(out@) && st == ctx@),
            ctx@.stacksize + 8 * slsize(sns.skip(i as int)) <= i32::MAX,
        decreases v@.len() - i,
    {
        proof {
            lemma_seqv(v@);
            lemma_slsize_head(sns.skip(i as int));
            assert(sns.skip(i as int)[0] == sns[i as int]);
            assert(sns[i as int] == nview(v@[i as int]));
            assert(sns.skip(i as int).skip(1) =~= sns.skip(i as int + 1));
        }
        let ghost stp = ctx@;
        let w = match walk(&v[i], ctx) {
            Ok(w) => w,
            Err(g) => {
                proof {
                    assert(swalk(sns[i as int], stp) == (SemaRes::Fail { f: g }));
                    assert(sns.take(i as int) =~= sns.subrange(0, i as int));
                    assert(swalk_list(sns.subrange(0, i as int), st0) matches SemaListRes::Done {
                        st: st1,
                        ..
                    } && st1 == stp);
                    lemma_swalk_list_fail_at(sns, st0, i as int, g);
                    assert(swalk_list(sns, st0) == (SemaListRes::Fail { f: g }));
                }
                return Err(g);
            },
        };
        proof {
            lemma_swalk_bounds(sns[i as int], stp);
            lemma_seqv_push(out@, w);
            let t1 = sns.take(i as int + 1);
            assert(t1.subrange(0, i as int) =~= sns.take(i as int));
            assert(t1[i as int] == sns[i as int]);
            assert(t1.len() == i + 1);
            assert(swalk_list(t1, st0) == (match swalk_list(t1.subrange(0, i as int), st0) {
                SemaListRes::Fail { f } => SemaListRes::Fail { f },
                SemaListRes::Done { nodes, st: st1 } => match swalk(t1[i as int], st1) {
                    SemaRes::Fail { f } => SemaListRes::Fail { f },
                    SemaRes::Done { node, st: st2 } => SemaListRes::Done {
                        nodes: nodes + seq![node],
                        st: st2,
                    },
                },
            }));
        }
        out.push(w);
        i = i + 1;
    }
    proof {
        assert(sns.take(i as int) =~= sns);
    }
    Ok(out)
}

/// Analysis of one top-level node: it must be a function; its body is
/// walked from an empty table and a zero stack size, and the function's
/// final stack size is recorded on the node.
pub open spec fn ssema_one(n: SNode) -> SemaRes {
    if !(n matches SNode::Func { .. }) {
        SemaRes::Fail { f: Fault::NotAFunction }
    } else {
        match swalk(n, SemaSt { vars: Map::empty(), stacksize: 0 }) {
            SemaRes::Fail { f } => SemaRes::Fail { f },
            SemaRes::Done { node, st } => match node {
                SNode::Func { name, args, body, stacksize: _ } => SemaRes::Done {
                    node: SNode::Func { name, args, body, stacksize: st.stacksize },
                    st,
                },
                _ => SemaRes::Fail { f: Fault::UnknownNode },
            },
        }
    }
}

/// Analysis of a whole forest, each function independently, aborting at the
/// first fault.
pub open spec fn ssema(ns: Seq<SNode>) -> SemaForestRes
    decreases ns,
{
    if ns.len() == 0 {
        SemaForestRes::Done { nodes: Seq::empty() }
    } else {
        match ssema(ns.subrange(0, ns.len() - 1)) {
            SemaForestRes::Fail { f } => SemaForestRes::Fail { f },
            SemaForestRes::Done { nodes } => match ssema_one(ns[ns.len() - 1]) {
                SemaRes::Fail { f } => SemaForestRes::Fail { f },
                SemaRes::Done { node, st: _ } => SemaForestRes::Done {
                    nodes: nodes + seq![node],
                },
            },
        }
    }
}

/// If a prefix of the forest analyzes successfully and the next function
/// fails, the whole forest fails with that fault.
pub proof fn lemma_ssema_fail_at(ns: Seq<SNode>, i: int, f: Fault)
    requires
        0 <= i < ns.len(),
        (ssema(ns.subrange(0, i)) matches SemaForestRes::Done { .. }),
        ssema_one(ns[i]) == (SemaRes::Fail { f }),
    ensures
        ssema(ns) == (SemaForestRes::Fail { f }),
    decreases ns.len(),
{
    let pre = ns.subrange(0, ns.len() - 1);
    if i == ns.len() - 1 {
        assert(ns.subrange(0, i) =~= pre);
    } else {
        assert(pre.subrange(0, i) =~= ns.subrange(0, i));
        assert(pre[i] == ns[i]);
        lemma_ssema_fail_at(pre, i, f);
    }
}

/// Pointer-arithmetic canonicalization: for an addition or subtraction,
/// after analysis the pointer operand is always the left child and the
/// node takes that operand's type; two pointer operands fail with the
/// pointer-arithmetic fault, so a walked node's right child is never a
/// pointer.
pub proof fn lemma_pointer_canonical(op: BinKind, l: SNode, r: SNode, ty0: Type, st: SemaSt)
    requires
        op == BinKind::Add || op == BinKind::Sub,
    ensures
        (match swalk(l, st) {
            SemaRes::Fail { .. } => true,
            SemaRes::Done { node: l2, st: st1 } => match swalk(r, st1) {
                SemaRes::Fail { .. } => true,
                SemaRes::Done { node: r2, st: st2 } => {
                    let res = swalk(SNode::Bin { op, lhs: seq![l], rhs: seq![r], ty: ty0 }, st);
                    let lp = sty_of(l2).ty == CType::Ptr;
                    let rp = sty_of(r2).ty == CType::Ptr;
                    &&& (lp && rp ==> res == SemaRes::Fail { f: Fault::PointerPointer })
                    &&& (rp && !lp ==> res == SemaRes::Done {
                        node: SNode::Bin { op, lhs: seq![r2], rhs: seq![l2], ty: sty_of(r2) },
                        st: st2,
                    })
                    &&& (!rp ==> res == SemaRes::Done {
                        node: SNode::Bin { op, lhs: seq![l2], rhs: seq![r2], ty: sty_of(l2) },
                        st: st2,
                    })
                    &&& (res matches SemaRes::Done { node: out, .. } ==> (out matches SNode::Bin {
                        lhs: l3,
                        rhs: r3,
                        ty: t3,
                        ..
                    } && r3.len() == 1 && sty_of(r3[0]).ty != CType::Ptr && ((lp || rp) ==> (
                    l3.len() == 1 && sty_of(l3[0]).ty == CType::Ptr && t3.ty == CType::Ptr))))
                },
            },
        }),
{
    lemma_swalk_singleton(l, st);
    match swalk(l, st) {
        SemaRes::Done { st: st1, .. } => {
            lemma_swalk_singleton(r, st1);
        },
        SemaRes::Fail { .. } => {},
    }
}

/// Dereference typing: walking `*e` succeeds exactly when the walked
/// operand has pointer type (its pointee present), and the node's type is
/// then the pointee type; otherwise the pointer-required fault comes.
pub proof fn lemma_deref_type(e: SNode, ty0: Type, st: SemaSt)
    ensures
        (match swalk(e, st) {
            SemaRes::Fail { f } => swalk(SNode::Deref { expr: seq![e], ty: ty0 }, st)
                == (SemaRes::Fail { f }),
            SemaRes::Done { node: e2, st: st1 } => {
                let res = swalk(SNode::Deref { expr: seq![e], ty: ty0 }, st);
                match sty_of(e2).ptr_to {
                    Some(b) => (sty_of(e2).ty == CType::Ptr ==> res == SemaRes::Done {
                        node: SNode::Deref { expr: seq![e2], ty: *b },
                        st: st1,
                    }) && (sty_of(e2).ty != CType::Ptr ==> res == SemaRes::Fail {
                        f: Fault::NotAPointer,
                    }),
                    None => res == (SemaRes::Fail { f: Fault::NotAPointer }),
                }
            },
        }),
{
    lemma_swalk_singleton(e, st);
}

/// Declaration offsets: a declaration statement allocates the next 8-byte
/// stack slot, so its resolved offset is the accumulator plus eight, and
/// the accumulator moves to that offset before the initializer is walked.
/// Declarations in order thus get offsets 8, 16, 24, ... and the final
/// accumulator is the function's frame size.
pub proof fn lemma_vardef_offset(name: Seq<char>, ty: Type, init: Seq<SNode>, off0: int, st: SemaSt)
    ensures
        (match swalk(SNode::Vardef { name, ty, init, offset: off0 }, st) {
            SemaRes::Fail { .. } => true,
            SemaRes::Done { node, st: st1 } => (node matches SNode::Vardef { offset, .. }
                && offset == st.stacksize + 8) && st1.stacksize >= st.stacksize + 8,
        }),
        init.len() == 0 ==> swalk(SNode::Vardef { name, ty, init, offset: off0 }, st)
            == (SemaRes::Done {
            node: SNode::Vardef { name, ty, init, offset: st.stacksize + 8 },
            st: SemaSt {
                vars: st.vars.insert(name, SVar { ty, offset: st.stacksize + 8 }),
                stacksize: st.stacksize + 8,
            },
        }),
{
    let off = st.stacksize + 8;
    let st1 = SemaSt { vars: st.vars.insert(name, SVar { ty, offset: off }), stacksize: off };
    lemma_swalk_list_bounds(init, st1);
    if init.len() == 0 {
        assert(swalk_list(init, st1) == (SemaListRes::Done { nodes: Seq::empty(), st: st1 }));
        assert(init =~= Seq::<SNode>::empty());
    }
}

/// Size of a primitive type: 4 bytes for the integer type, 8 for a pointer.
pub fn size_of(ty: Type) -> (r: i32)
    requires
        ty.ty == CType::Int || ty.ty == CType::Ptr,
    ensures
        ty.ty == CType::Int ==> r == 4,
        ty.ty == CType::Ptr ==> r == 8,
{
    if ty.ty == CType::Int {
        4
    } else {
        8
    }
}

/// Semantic analysis of a forest of functions: resolves every identifier,
/// types every expression, and records each function's stack-frame size.
#[verifier::loop_isolation(false)]
pub fn sema(nodes: Vec<Node>) -> (r: Result<Vec<Node>, Fault>)
    requires
        forall|i: int| 0 <= i < nodes@.len() ==> 8 * snsize(#[trigger] nview(nodes@[i]))
            <= i32::MAX,
    ensures
        (match ssema(seqv(nodes@)) {
            SemaForestRes::Done { nodes: out } => (r matches Ok(v) && seqv(v@) == out),
            SemaForestRes::Fail { f } => (r matches Err(g) && g == f),
        }),
{
    let ghost sns = seqv(nodes@);
    proof {
        lemma_seqv(nodes@);
        assert(sns.take(0) =~= Seq::<SNode>::empty());
    }
    let mut out: Vec<Node> = Vec::new();
    let mut i: usize = 0;
    while i < nodes.len()
        invariant
            i <= nodes@.len(),
            sns == seqv(nodes@),
            sns.len() == nodes@.len(),
            forall|j: int| 0 <= j < nodes@.len() ==> 8 * snsize(#[trigger] nview(nodes@[j]))
                <= i32::MAX,
            (ssema(sns.take(i as int)) matches SemaForestRes::Done { nodes: o } && o == seqv(
                out@,
            )),
        decreases nodes@.len() - i,
    {
        proof {
            lemma_seqv(nodes@);
            assert(sns[i as int] == nview(nodes@[i as int]));
        }
        let isfunc = match &nodes[i] {
            Node::Func { .. } => true,
            _ => false,
        };
        if !isfunc {
            proof {
                assert(ssema_one(sns[i as int]) == (SemaRes::Fail { f: Fault::NotAFunction }));
                assert(sns.take(i as int) =~= sns.subrange(0, i as int));
                lemma_ssema_fail_at(sns, i as int, Fault::NotAFunction);
            }
            return Err(Fault::NotAFunction);
        }
        let mut ctx = SemaCtx { vars: Vec::new(), stacksize: 0 };
        proof {
            assert(svars(Seq::<(String, Var)>::empty()) =~= Map::<Seq<char>, SVar>::empty());
            assert(ctx.vars@ =~= Seq::<(String, Var)>::empty());
            assert(ctx@ == (SemaSt { vars: Map::<Seq<char>, SVar>::empty(), stacksize: 0 }));
        }
        let w = match walk(&nodes[i], &mut ctx) {
            Ok(w) => w,
            Err(g) => {
                proof {
                    assert(sns.take(i as int) =~= sns.subrange(0, i as int));
                    lemma_ssema_fail_at(sns, i as int, g);
                }
                return Err(g);
            },
        };
        let w2 = match w {
            Node::Func { name, args, body, stacksize: _ } => Node::Func {
                name,
                args,
                body,
                stacksize: ctx.stacksize,
            },
            _ => {
                proof {
                    assert(false);
                }
                return Err(Fault::UnknownNode);
            },
        };
        proof {
            lemma_seqv_push(out@, w2);
            let t1 = sns.take(i as int + 1);
            assert(t1.subrange(0, i as int) =~= sns.take(i as int));
            assert(t1[i as int] == sns[i as int]);
            assert(t1.len() == i + 1);
            assert(ssema(t1) == (match ssema(t1.subrange(0, i as int)) {
                SemaForestRes::Fail { f } => SemaForestRes::Fail { f },
                SemaForestRes::Done { nodes: o } => match ssema_one(t1[i as int]) {
                    SemaRes::Fail { f } => SemaForestRes::Fail { f },
                    SemaRes::Done { node, st: _ } => SemaForestRes::Done {
                        nodes: o + seq![node],
                    },
                },
            }));
        }
        out.push(w2);
        i = i + 1;
    }
    proof {
        assert(sns.take(i as int) =~= sns);
    }
    Ok(out)
}

} // verus!
