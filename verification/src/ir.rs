//! The intermediate representation: the instruction vocabulary, its static
//! descriptor table, and the generator that lowers an analyzed syntax tree
//! into per-function sequences of virtual-register instructions.

use vstd::prelude::*;
use crate::ast::{BinKind, Fault, Node, SNode, Type, nview, seqv, lemma_seqv};
use crate::sema::{snsize, slsize, lemma_slsize_singleton, lemma_slsize_head};

verus! {

/// The instruction opcodes.
#[allow(non_camel_case_types)]
#[derive(Clone, Copy, Debug, PartialEq, Eq, Structural)]
pub enum IRType {
    IMM,
    ADD_IMM,
    MOV,
    RETURN,
    CALL,
    LABEL,
    JMP,
    UNLESS,
    ALLOCA,
    LOAD,
    STORE,
    KILL,
    ADD,
    SUB,
    MUL,
    DIV,
    NOP,
    NULL,
}

/// The operand shape of an opcode, used to format or consume an instruction
/// without re-deriving the shape from the opcode.
#[allow(non_camel_case_types)]
#[derive(Clone, Copy, Debug, PartialEq, Eq, Structural)]
pub enum IRInfoType {
    NOARG,
    REG,
    LABEL,
    REG_REG,
    REG_IMM,
    REG_LABEL,
    CALL,
    NULL,
}

/// One instruction; a call carries a name and up to six argument registers.
/// A value of this type also serves as a per-function record: `name` is then
/// the function's name and `ir` its instruction sequence.
#[derive(Debug)]
pub struct IR {
    pub op: IRType,
    pub lhs: i32,
    pub rhs: i32,
    pub name: String,
    pub nargs: usize,
    pub args: [i32; 6],
    pub ir: Vec<IR>,
}

/// One entry of the descriptor table: an opcode, its display mnemonic, and
/// its operand shape.
#[derive(Clone, Debug)]
pub struct IRInfo {
    pub op: IRType,
    pub name: String,
    pub ty: IRInfoType,
}

/// Ghost mirror of an instruction.
#[verifier::ext_equal]
pub ghost struct SIR {
    pub op: IRType,
    pub lhs: int,
    pub rhs: int,
    pub name: Seq<char>,
    pub nargs: int,
    pub args: Seq<int>,
    pub ir: Seq<SIR>,
}

/// The ghost mirror of an instruction.
pub open spec fn irv(i: IR) -> SIR
    decreases i,
{
    SIR {
        op: i.op,
        lhs: i.lhs as int,
        rhs: i.rhs as int,
        name: i.name@,
        nargs: i.nargs as int,
        args: Seq::new(6, |k: int| i.args@[k] as int),
        ir: irsv(i.ir@),
    }
}

/// The ghost mirror of an instruction sequence, element by element.
pub open spec fn irsv(s: Seq<IR>) -> Seq<SIR>
    decreases s,
{
    if s.len() == 0 {
        Seq::<SIR>::empty()
    } else {
        irsv(s.subrange(0, s.len() - 1)) + seq![irv(s[s.len() - 1])]
    }
}

/// Appending an instruction appends its mirror.
pub proof fn lemma_irsv_push(s: Seq<IR>, x: IR)
    ensures
        irsv(s.push(x)) == irsv(s) + seq![irv(x)],
{
    let p = s.push(x);
    assert(p.len() == s.len() + 1);
    assert(p.subrange(0, p.len() - 1) =~= s);
    assert(p[p.len() - 1] == x);
}

/// A plain instruction: an opcode and two operands, no name, no arguments,
/// no nested instruction list.
pub open spec fn plain(op: IRType, lhs: int, rhs: int) -> SIR {
    SIR {
        op,
        lhs,
        rhs,
        name: Seq::<char>::empty(),
        nargs: 0,
        args: Seq::new(6, |k: int| 0int),
        ir: Seq::<SIR>::empty(),
    }
}

/// The display mnemonic of an opcode.
pub open spec fn smnemonic(op: IRType) -> Seq<char> {
    match op {
        IRType::ADD => "+"@,
        IRType::SUB => "-"@,
        IRType::MUL => "*"@,
        IRType::DIV => "/"@,
        IRType::IMM => "MOV"@,
        IRType::ADD_IMM => "ADD"@,
        IRType::MOV => "MOV"@,
        IRType::LABEL => ""@,
        IRType::JMP => "JMP"@,
        IRType::UNLESS => "UNLESS"@,
        IRType::CALL => "CALL"@,
        IRType::RETURN => "RET"@,
        IRType::ALLOCA => "ALLOCA"@,
        IRType::LOAD => "LOAD"@,
        IRType::STORE => "STORE"@,
        IRType::KILL => "KILL"@,
        IRType::NOP => "NOP"@,
        IRType::NULL => ""@,
    }
}

/// The operand shape of an opcode.
pub open spec fn sshape(op: IRType) -> IRInfoType {
    match op {
        IRType::ADD => IRInfoType::REG_REG,
        IRType::SUB => IRInfoType::REG_REG,
        IRType::MUL => IRInfoType::REG_REG,
        IRType::DIV => IRInfoType::REG_REG,
        IRType::IMM => IRInfoType::REG_IMM,
        IRType::ADD_IMM => IRInfoType::REG_IMM,
        IRType::MOV => IRInfoType::REG_REG,
        IRType::LABEL => IRInfoType::LABEL,
        IRType::JMP => IRInfoType::LABEL,
        IRType::UNLESS => IRInfoType::REG_LABEL,
        IRType::CALL => IRInfoType::CALL,
        IRType::RETURN => IRInfoType::REG,
        IRType::ALLOCA => IRInfoType::REG_IMM,
        IRType::LOAD => IRInfoType::REG_REG,
        IRType::STORE => IRInfoType::REG_REG,
        IRType::KILL => IRInfoType::REG,
        IRType::NOP => IRInfoType::NOARG,
        IRType::NULL => IRInfoType::NULL,
    }
}

/// Builds one descriptor entry for an opcode.
fn info_of(op: IRType, name: &str, ty: IRInfoType) -> (r: IRInfo)
    ensures
        r.op == op,
        r.name@ == name@,
        r.ty == ty,
{
    IRInfo { op, name: name.to_owned(), ty }
}

/// The descriptor of an instruction: its opcode's mnemonic and shape. The
/// lookup scans the fixed table, which holds one entry for every opcode.
#[verifier::loop_isolation(false)]
pub fn get_irinfo(ir: &IR) -> (r: IRInfo)
    ensures
        r.op == ir.op,
        r.name@ == smnemonic(ir.op),
        r.ty == sshape(ir.op),
{
    let mut table: Vec<IRInfo> = Vec::new();
    table.push(info_of(IRType::ADD, "+", IRInfoType::REG_REG));
    table.push(info_of(IRType::SUB, "-", IRInfoType::REG_REG));
    table.push(info_of(IRType::MUL, "*", IRInfoType::REG_REG));
    table.push(info_of(IRType::DIV, "/", IRInfoType::REG_REG));
    table.push(info_of(IRType::IMM, "MOV", IRInfoType::REG_IMM));
    table.push(info_of(IRType::ADD_IMM, "ADD", IRInfoType::REG_IMM));
    table.push(info_of(IRType::MOV, "MOV", IRInfoType::REG_REG));
    table.push(info_of(IRType::LABEL, "", IRInfoType::LABEL));
    table.push(info_of(IRType::JMP, "JMP", IRInfoType::LABEL));
    table.push(info_of(IRType::UNLESS, "UNLESS", IRInfoType::REG_LABEL));
    table.push(info_of(IRType::CALL, "CALL", IRInfoType::CALL));
    table.push(info_of(IRType::RETURN, "RET", IRInfoType::REG));
    table.push(info_of(IRType::ALLOCA, "ALLOCA", IRInfoType::REG_IMM));
    table.push(info_of(IRType::LOAD, "LOAD", IRInfoType::REG_REG));
    table.push(info_of(IRType::STORE, "STORE", IRInfoType::REG_REG));
    table.push(info_of(IRType::KILL, "KILL", IRInfoType::REG));
    table.push(info_of(IRType::NOP, "NOP", IRInfoType::NOARG));
    table.push(info_of(IRType::NULL, "", IRInfoType::NULL));
    let ghost t = table@;
    proof {
        assert(t.len() == 18);
        assert(forall|j: int| 0 <= j < 18 ==> #[trigger] t[j].name@ == smnemonic(t[j].op) && t[j].ty
            == sshape(t[j].op));
    }
    let mut i: usize = 0;
    while i < table.len()
        invariant
            table@ == t,
            i <= 18,
            forall|j: int| 0 <= j < i ==> #[trigger] t[j].op != ir.op,
        decreases 18 - i,
    {
        if table[i].op == ir.op {
            let e = &table[i];
            return IRInfo { op: e.op, name: e.name.clone(), ty: e.ty };
        }
        i = i + 1;
    }
    proof {
        assert(t[0].op == IRType::ADD);
        assert(t[1].op == IRType::SUB);
        assert(t[2].op == IRType::MUL);
        assert(t[3].op == IRType::DIV);
        assert(t[4].op == IRType::IMM);
        assert(t[5].op == IRType::ADD_IMM);
        assert(t[6].op == IRType::MOV);
        assert(t[7].op == IRType::LABEL);
        assert(t[8].op == IRType::JMP);
        assert(t[9].op == IRType::UNLESS);
        assert(t[10].op == IRType::CALL);
        assert(t[11].op == IRType::RETURN);
        assert(t[12].op == IRType::ALLOCA);
        assert(t[13].op == IRType::LOAD);
        assert(t[14].op == IRType::STORE);
        assert(t[15].op == IRType::KILL);
        assert(t[16].op == IRType::NOP);
        assert(t[17].op == IRType::NULL);
        assert(false);
    }
    IRInfo { op: IRType::NOP, name: String::new(), ty: IRInfoType::NOARG }
}

/// Ghost state of the generator: the virtual-register counter, the frame
/// base register, the label counter, the running stack offset, and the
/// name-to-offset table. The counters are never reset between functions.
pub ghost struct GSt {
    pub regno: int,
    pub basereg: int,
    pub label: int,
    pub bpoff: int,
    pub vars: Map<Seq<char>, int>,
}

/// Outcome of lowering an expression: the instructions emitted, the
/// register holding the value, and the state after.
pub ghost enum GenRes {
    Done { emitted: Seq<SIR>, reg: int, st: GSt },
    Fail { f: Fault },
}

/// Outcome of lowering a statement.
pub ghost enum GenStmtRes {
    Done { emitted: Seq<SIR>, st: GSt },
    Fail { f: Fault },
}

/// Outcome of lowering a call's arguments in order.
pub ghost enum GenArgsRes {
    Done { emitted: Seq<SIR>, regs: Seq<int>, st: GSt },
    Fail { f: Fault },
}

/// Outcome of lowering one function: its record and the state after.
pub ghost enum GenFnRes {
    Done { func: SIR, st: GSt },
    Fail { f: Fault },
}

/// Outcome of lowering a whole compilation unit.
pub ghost enum GenForestRes {
    Done { funcs: Seq<SIR>, st: GSt },
    Fail { f: Fault },
}

/// The opcode of an arithmetic operator.
pub open spec fn sbinop_ir(op: BinKind) -> IRType {
    match op {
        BinKind::Add => IRType::ADD,
        BinKind::Sub => IRType::SUB,
        BinKind::Mul => IRType::MUL,
        BinKind::Div => IRType::DIV,
        _ => IRType::NOP,
    }
}

/// Lowers an identifier to its address: on first use the name is given the
/// next free 8-byte stack slot; the address is the frame base plus the
/// offset, computed in a fresh register.
pub open spec fn sgen_lval(n: SNode, st: GSt) -> GenRes {
    match n {
        SNode::Ident { name, ty: _ } => {
            let known = st.vars.contains_key(name);
            let vars1 = if known {
                st.vars
            } else {
                st.vars.insert(name, st.bpoff)
            };
            let off = if known {
                st.vars[name]
            } else {
                st.bpoff
            };
            let bp1 = if known {
                st.bpoff
            } else {
                st.bpoff + 8
            };
            let r = st.regno;
            GenRes::Done {
                emitted: seq![plain(IRType::MOV, r, st.basereg), plain(IRType::ADD_IMM, r, off)],
                reg: r,
                st: GSt { regno: r + 1, vars: vars1, bpoff: bp1, ..st },
            }
        },
        _ => GenRes::Fail { f: Fault::NotAnLvalue },
    }
}

/// Lowers an expression to a register holding its value.
pub open spec fn sgen_expr(n: SNode, st: GSt) -> GenRes
    decreases n, 1int,
{
    match n {
        SNode::Num { val, ty: _ } => GenRes::Done {
            emitted: seq![plain(IRType::IMM, st.regno, val)],
            reg: st.regno,
            st: GSt { regno: st.regno + 1, ..st },
        },
        SNode::Ident { .. } => match sgen_lval(n, st) {
            GenRes::Fail { f } => GenRes::Fail { f },
            GenRes::Done { emitted, reg, st: st1 } => GenRes::Done {
                emitted: emitted + seq![plain(IRType::LOAD, reg, reg)],
                reg,
                st: st1,
            },
        },
        SNode::Call { name, args, ty: _ } => match sgen_args(args, st) {
            GenArgsRes::Fail { f } => GenRes::Fail { f },
            GenArgsRes::Done { emitted, regs, st: st1 } => {
                let r = st1.regno;
                let call = SIR {
                    op: IRType::CALL,
                    lhs: r,
                    rhs: -1,
                    name,
                    nargs: regs.len() as int,
                    args: Seq::new(6, |k: int| if k < regs.len() { regs[k] } else { 0int }),
                    ir: Seq::<SIR>::empty(),
                };
                let kills = Seq::new(regs.len(), |k: int| plain(IRType::KILL, regs[k], -1));
                GenRes::Done {
                    emitted: emitted + seq![call] + kills,
                    reg: r,
                    st: GSt { regno: r + 1, ..st1 },
                }
            },
        },
        SNode::Bin { op, lhs, rhs, ty: _ } => {
            if lhs.len() != 1 || rhs.len() != 1 {
                GenRes::Fail { f: Fault::NotAnOperator }
            } else if op == BinKind::Assign {
                match sgen_expr(rhs[0], st) {
                    GenRes::Fail { f } => GenRes::Fail { f },
                    GenRes::Done { emitted: er, reg: rr, st: st1 } => match sgen_lval(
                        lhs[0],
                        st1,
                    ) {
                        GenRes::Fail { f } => GenRes::Fail { f },
                        GenRes::Done { emitted: el, reg: rl, st: st2 } => GenRes::Done {
                            emitted: er + el + seq![
                                plain(IRType::STORE, rl, rr),
                                plain(IRType::KILL, rr, -1),
                            ],
                            reg: rl,
                            st: st2,
                        },
                    },
                }
            } else if op == BinKind::Add || op == BinKind::Sub || op == BinKind::Mul || op
                == BinKind::Div {
                match sgen_expr(lhs[0], st) {
                    GenRes::Fail { f } => GenRes::Fail { f },
                    GenRes::Done { emitted: el, reg: rl, st: st1 } => match sgen_expr(
                        rhs[0],
                        st1,
                    ) {
                        GenRes::Fail { f } => GenRes::Fail { f },
                        GenRes::Done { emitted: er, reg: rr, st: st2 } => GenRes::Done {
                            emitted: el + er + seq![
                                plain(sbinop_ir(op), rl, rr),
                                plain(IRType::KILL, rr, -1),
                            ],
                            reg: rl,
                            st: st2,
                        },
                    },
                }
            } else {
                GenRes::Fail { f: Fault::NotAnOperator }
            }
        },
        _ => GenRes::Fail { f: Fault::NotAnOperator },
    }
}

/// Lowers a call's arguments left to right, collecting their registers.
pub open spec fn sgen_args(ns: Seq<SNode>, st: GSt) -> GenArgsRes
    decreases ns, 2int,
{
    if ns.len() == 0 {
        GenArgsRes::Done { emitted: Seq::<SIR>::empty(), regs: Seq::<int>::empty(), st }
    } else {
        match sgen_args(ns.subrange(0, ns.len() - 1), st) {
            GenArgsRes::Fail { f } => GenArgsRes::Fail { f },
            GenArgsRes::Done { emitted, regs, st: st1 } => match sgen_expr(ns[ns.len() - 1], st1) {
                GenRes::Fail { f } => GenArgsRes::Fail { f },
                GenRes::Done { emitted: e2, reg, st: st2 } => GenArgsRes::Done {
                    emitted: emitted + e2,
                    regs: regs.push(reg),
                    st: st2,
                },
            },
        }
    }
}

/// Lowers a statement.
pub open spec fn sgen_stmt(n: SNode, st: GSt) -> GenStmtRes
    decreases n, 1int,
{
    match n {
        SNode::If { cond, thn, els } => {
            if cond.len() != 1 || thn.len() != 1 || els.len() > 1 {
                GenStmtRes::Fail { f: Fault::UnknownNode }
            } else {
                match sgen_expr(cond[0], st) {
                    GenRes::Fail { f } => GenStmtRes::Fail { f },
                    GenRes::Done { emitted: ec, reg: r, st: st1 } => {
                        let x = st1.label;
                        let st2 = GSt { label: x + 1, ..st1 };
                        let pre = ec + seq![
                            plain(IRType::UNLESS, r, x),
                            plain(IRType::KILL, r, -1),
                        ];
                        match sgen_stmt(thn[0], st2) {
                            GenStmtRes::Fail { f } => GenStmtRes::Fail { f },
                            GenStmtRes::Done { emitted: et, st: st3 } => {
                                if els.len() == 0 {
                                    GenStmtRes::Done {
                                        emitted: pre + et + seq![plain(IRType::LABEL, x, -1)],
                                        st: st3,
                                    }
                                } else {
                                    let y = st3.label;
                                    let st4 = GSt { label: y + 1, ..st3 };
                                    match sgen_stmt(els[0], st4) {
                                        GenStmtRes::Fail { f } => GenStmtRes::Fail { f },
                                        GenStmtRes::Done { emitted: ee, st: st5 } => GenStmtRes::Done {
                                            emitted: pre + et + seq![
                                                plain(IRType::JMP, y, -1),
                                                plain(IRType::LABEL, x, -1),
                                            ] + ee + seq![plain(IRType::LABEL, y, -1)],
                                            st: st5,
                                        },
                                    }
                                }
                            },
                        }
                    },
                }
            }
        },
        SNode::Return { expr } => {
            if expr.len() != 1 {
                GenStmtRes::Fail { f: Fault::UnknownNode }
            } else {
                match sgen_expr(expr[0], st) {
                    GenRes::Fail { f } => GenStmtRes::Fail { f },
                    GenRes::Done { emitted, reg, st: st1 } => GenStmtRes::Done {
                        emitted: emitted + seq![
                            plain(IRType::RETURN, reg, -1),
                            plain(IRType::KILL, reg, -1),
                        ],
                        st: st1,
                    },
                }
            }
        },
        SNode::ExprStmt { expr } => {
            if expr.len() != 1 {
                GenStmtRes::Fail { f: Fault::UnknownNode }
            } else {
                match sgen_expr(expr[0], st) {
                    GenRes::Fail { f } => GenStmtRes::Fail { f },
                    GenRes::Done { emitted, reg, st: st1 } => GenStmtRes::Done {
                        emitted: emitted + seq![plain(IRType::KILL, reg, -1)],
                        st: st1,
                    },
                }
            }
        },
        SNode::CompStmt { stmts } => sgen_stmts(stmts, st),
        _ => GenStmtRes::Fail { f: Fault::UnknownNode },
    }
}

/// Lowers the statements of a sequence in order.
pub open spec fn sgen_stmts(ns: Seq<SNode>, st: GSt) -> GenStmtRes
    decreases ns, 2int,
{
    if ns.len() == 0 {
        GenStmtRes::Done { emitted: Seq::<SIR>::empty(), st }
    } else {
        match sgen_stmts(ns.subrange(0, ns.len() - 1), st) {
            GenStmtRes::Fail { f } => GenStmtRes::Fail { f },
            GenStmtRes::Done { emitted, st: st1 } => match sgen_stmt(ns[ns.len() - 1], st1) {
                GenStmtRes::Fail { f } => GenStmtRes::Fail { f },
                GenStmtRes::Done { emitted: e2, st: st2 } => GenStmtRes::Done {
                    emitted: emitted + e2,
                    st: st2,
                },
            },
        }
    }
}

/// Lowers one function: ALLOCA on the frame base register first, its
/// immediate back-patched to the stack offset reached at the end of the
/// body, the lowered body, and a final KILL of the frame base register.
pub open spec fn sgen_fn(n: SNode, st: GSt) -> GenFnRes {
    match n {
        SNode::Func { name, args: _, body, stacksize: _ } => {
            if body.len() != 1 {
                GenFnRes::Fail { f: Fault::UnknownNode }
            } else {
                match sgen_stmt(body[0], st) {
                    GenStmtRes::Fail { f } => GenFnRes::Fail { f },
                    GenStmtRes::Done { emitted, st: st1 } => GenFnRes::Done {
                        func: SIR {
                            op: IRType::NOP,
                            lhs: 0,
                            rhs: 0,
                            name,
                            nargs: 0,
                            args: Seq::new(6, |k: int| 0int),
                            ir: seq![plain(IRType::ALLOCA, st.basereg, st1.bpoff)] + emitted
                                + seq![plain(IRType::KILL, st.basereg, -1)],
                        },
                        st: st1,
                    },
                }
            }
        },
        _ => GenFnRes::Fail { f: Fault::NotAFunction },
    }
}

/// Lowers a whole compilation unit, function by function, threading the
/// counters and the offset table across all of them.
pub open spec fn sgen_ir(ns: Seq<SNode>, st: GSt) -> GenForestRes
    decreases ns,
{
    if ns.len() == 0 {
        GenForestRes::Done { funcs: Seq::<SIR>::empty(), st }
    } else {
        match sgen_ir(ns.subrange(0, ns.len() - 1), st) {
            GenForestRes::Fail { f } => GenForestRes::Fail { f },
            GenForestRes::Done { funcs, st: st1 } => match sgen_fn(ns[ns.len() - 1], st1) {
                GenFnRes::Fail { f } => GenForestRes::Fail { f },
                GenFnRes::Done { func, st: st2 } => GenForestRes::Done {
                    funcs: funcs.push(func),
                    st: st2,
                },
            },
        }
    }
}

/// Over a successful lowering the counters never shrink: the register
/// counter grows by at most one per node, the label counter by at most two
/// per node, the stack offset by at most eight bytes per node; the frame
/// base register never changes; a fresh value register is allocated from
/// the counter.
pub proof fn lemma_sgen_expr_bounds(n: SNode, st: GSt)
    ensures
        (sgen_expr(n, st) matches GenRes::Done { reg, st: st1, .. } ==> st.regno <= reg < st1.regno
            && st.regno <= st1.regno <= st.regno + snsize(n) && st.label <= st1.label <= st.label
            + 2 * snsize(n) && st.bpoff <= st1.bpoff <= st.bpoff + 8 * snsize(n) && st1.basereg
            == st.basereg),
    decreases n, 1int,
{
    match n {
        SNode::Call { name: _, args, ty: _ } => {
            lemma_sgen_args_bounds(args, st);
        },
        SNode::Bin { op, lhs, rhs, ty: _ } => {
            if lhs.len() == 1 && rhs.len() == 1 {
                if op == BinKind::Assign {
                    lemma_sgen_expr_bounds(rhs[0], st);
                    if let GenRes::Done { st: st1, .. } = sgen_expr(rhs[0], st) {
                    }
                } else {
                    lemma_sgen_expr_bounds(lhs[0], st);
                    if let GenRes::Done { st: st1, .. } = sgen_expr(lhs[0], st) {
                        lemma_sgen_expr_bounds(rhs[0], st1);
                    }
                }
            }
        },
        _ => {},
    }
}

/// List form of the expression bounds, over a call's arguments.
pub proof fn lemma_sgen_args_bounds(ns: Seq<SNode>, st: GSt)
    ensures
        (sgen_args(ns, st) matches GenArgsRes::Done { regs, st: st1, .. } ==> st.regno <= st1.regno
            <= st.regno + slsize(ns) && st.label <= st1.label <= st.label + 2 * slsize(ns)
            && st.bpoff <= st1.bpoff <= st.bpoff + 8 * slsize(ns) && st1.basereg == st.basereg
            && regs.len() == ns.len()),
    decreases ns, 2int,
{
    if ns.len() > 0 {
        let pre = ns.subrange(0, ns.len() - 1);
        lemma_sgen_args_bounds(pre, st);
        if let GenArgsRes::Done { st: st1, .. } = sgen_args(pre, st) {
            lemma_sgen_expr_bounds(ns[ns.len() - 1], st1);
        }
    }
}

/// Statement form of the bounds.
pub proof fn lemma_sgen_stmt_bounds(n: SNode, st: GSt)
    ensures
        (sgen_stmt(n, st) matches GenStmtRes::Done { st: st1, .. } ==> st.regno <= st1.regno
            <= st.regno + snsize(n) && st.label <= st1.label <= st.label + 2 * snsize(n)
            && st.bpoff <= st1.bpoff <= st.bpoff + 8 * snsize(n) && st1.basereg == st.basereg),
    decreases n, 1int,
{
    match n {
        SNode::If { cond, thn, els } => {
            if cond.len() == 1 && thn.len() == 1 && els.len() <= 1 {
                lemma_sgen_expr_bounds(cond[0], st);
                if let GenRes::Done { st: st1, .. } = sgen_expr(cond[0], st) {
                    let st2 = GSt { label: st1.label + 1, ..st1 };
                    lemma_sgen_stmt_bounds(thn[0], st2);
                    if let GenStmtRes::Done { st: st3, .. } = sgen_stmt(thn[0], st2) {
                        if els.len() == 1 {
                            let st4 = GSt { label: st3.label + 1, ..st3 };
                            lemma_sgen_stmt_bounds(els[0], st4);
                        }
                    }
                }
            }
        },
        SNode::Return { expr } => {
            if expr.len() == 1 {
                lemma_sgen_expr_bounds(expr[0], st);
            }
        },
        SNode::ExprStmt { expr } => {
            if expr.len() == 1 {
                lemma_sgen_expr_bounds(expr[0], st);
            }
        },
        SNode::CompStmt { stmts } => {
            lemma_sgen_stmts_bounds(stmts, st);
        },
        _ => {},
    }
}

/// List form of the statement bounds.
pub proof fn lemma_sgen_stmts_bounds(ns: Seq<SNode>, st: GSt)
    ensures
        (sgen_stmts(ns, st) matches GenStmtRes::Done { st: st1, .. } ==> st.regno <= st1.regno
            <= st.regno + slsize(ns) && st.label <= st1.label <= st.label + 2 * slsize(ns)
            && st.bpoff <= st1.bpoff <= st.bpoff + 8 * slsize(ns) && st1.basereg == st.basereg),
    decreases ns, 2int,
{
    if ns.len() > 0 {
        let pre = ns.subrange(0, ns.len() - 1);
        lemma_sgen_stmts_bounds(pre, st);
        if let GenStmtRes::Done { st: st1, .. } = sgen_stmts(pre, st) {
            lemma_sgen_stmt_bounds(ns[ns.len() - 1], st1);
        }
    }
}

/// Function form of the bounds.
pub proof fn lemma_sgen_fn_bounds(n: SNode, st: GSt)
    ensures
        (sgen_fn(n, st) matches GenFnRes::Done { st: st1, .. } ==> st.regno <= st1.regno
            <= st.regno + snsize(n) && st.label <= st1.label <= st.label + 2 * snsize(n)
            && st.bpoff <= st1.bpoff <= st.bpoff + 8 * snsize(n) && st1.basereg == st.basereg),
{
    match n {
        SNode::Func { name: _, args, body, stacksize: _ } => {
            if body.len() == 1 {
                lemma_sgen_stmt_bounds(body[0], st);
                lemma_slsize_head(body);
                assert(body[0] == body.skip(0)[0] || true);
                assert(slsize(body) >= snsize(body[0])) by {
                    lemma_slsize_head(body);
                }
            }
        },
        _ => {},
    }
}

/// Every call in the tree passes at most six arguments.
pub open spec fn scalls_ok(n: SNode) -> bool
    decreases n,
{
    match n {
        SNode::Call { args, .. } => args.len() <= 6 && (forall|i: int|
            0 <= i < args.len() ==> scalls_ok(#[trigger] args[i])),
        SNode::Vardef { init, .. } => forall|i: int|
            0 <= i < init.len() ==> scalls_ok(#[trigger] init[i]),
        SNode::Bin { lhs, rhs, .. } => (forall|i: int|
            0 <= i < lhs.len() ==> scalls_ok(#[trigger] lhs[i])) && (forall|i: int|
            0 <= i < rhs.len() ==> scalls_ok(#[trigger] rhs[i])),
        SNode::Deref { expr, .. } => forall|i: int|
            0 <= i < expr.len() ==> scalls_ok(#[trigger] expr[i]),
        SNode::If { cond, thn, els } => (forall|i: int|
            0 <= i < cond.len() ==> scalls_ok(#[trigger] cond[i])) && (forall|i: int|
            0 <= i < thn.len() ==> scalls_ok(#[trigger] thn[i])) && (forall|i: int|
            0 <= i < els.len() ==> scalls_ok(#[trigger] els[i])),
        SNode::For { init, cond, inc, body } => (forall|i: int|
            0 <= i < init.len() ==> scalls_ok(#[trigger] init[i])) && (forall|i: int|
            0 <= i < cond.len() ==> scalls_ok(#[trigger] cond[i])) && (forall|i: int|
            0 <= i < inc.len() ==> scalls_ok(#[trigger] inc[i])) && (forall|i: int|
            0 <= i < body.len() ==> scalls_ok(#[trigger] body[i])),
        SNode::Return { expr } => forall|i: int|
            0 <= i < expr.len() ==> scalls_ok(#[trigger] expr[i]),
        SNode::ExprStmt { expr } => forall|i: int|
            0 <= i < expr.len() ==> scalls_ok(#[trigger] expr[i]),
        SNode::CompStmt { stmts } => forall|i: int|
            0 <= i < stmts.len() ==> scalls_ok(#[trigger] stmts[i]),
        SNode::Func { args, body, .. } => (forall|i: int|
            0 <= i < args.len() ==> scalls_ok(#[trigger] args[i])) && (forall|i: int|
            0 <= i < body.len() ==> scalls_ok(#[trigger] body[i])),
        _ => true,
    }
}

/// The executable generator's mutable state: the staging instruction
/// buffer for the function being lowered, the counters, and the
/// name-to-offset table.
pub struct GenCtx {
    pub code: Vec<IR>,
    pub regno: i32,
    pub basereg: i32,
    pub label: i32,
    pub bpoff: i32,
    pub vars: Vec<(String, i32)>,
}

/// The offset table held by an association list.
pub open spec fn ivars(s: Seq<(String, i32)>) -> Map<Seq<char>, int>
    decreases s.len(),
{
    if s.len() == 0 {
        Map::empty()
    } else {
        ivars(s.subrange(0, s.len() - 1)).insert(s[s.len() - 1].0@, s[s.len() - 1].1 as int)
    }
}

/// The ghost state a generator context holds, the staging buffer aside.
pub open spec fn gst(c: GenCtx) -> GSt {
    GSt {
        regno: c.regno as int,
        basereg: c.basereg as int,
        label: c.label as int,
        bpoff: c.bpoff as int,
        vars: ivars(c.vars@),
    }
}

/// The state a compilation starts from: register counter 1, frame base
/// register 0, label counter 0, stack offset 0, empty table.
pub open spec fn init_gst() -> GSt {
    GSt { regno: 1, basereg: 0, label: 0, bpoff: 0, vars: Map::empty() }
}

/// A sequence of registers as unbounded integers.
pub open spec fn iseq(s: Seq<i32>) -> Seq<int> {
    Seq::new(s.len(), |k: int| s[k] as int)
}

/// Pushing an entry adds it to the offset table.
pub proof fn lemma_ivars_push(s: Seq<(String, i32)>, name: String, off: i32)
    ensures
        ivars(s.push((name, off))) == ivars(s).insert(name@, off as int),
{
    let p = s.push((name, off));
    assert(p.subrange(0, p.len() - 1) =~= s);
    assert(p[p.len() - 1] == (name, off));
}

/// In the offset table, a name maps to the last entry of that name.
pub proof fn lemma_ivars_last(s: Seq<(String, i32)>, i: int)
    requires
        0 <= i < s.len(),
        forall|j: int| i < j < s.len() ==> s[j].0@ != s[i].0@,
    ensures
        ivars(s).contains_key(s[i].0@),
        ivars(s)[s[i].0@] == s[i].1 as int,
    decreases s.len(),
{
    if i < s.len() - 1 {
        let pre = s.subrange(0, s.len() - 1);
        assert(pre[i] == s[i]);
        assert(forall|j: int| i < j < pre.len() ==> pre[j] == s[j]);
        lemma_ivars_last(pre, i);
    }
}

/// A name on no entry of the list is not in the offset table.
pub proof fn lemma_ivars_absent(s: Seq<(String, i32)>, k: Seq<char>)
    requires
        forall|j: int| 0 <= j < s.len() ==> s[j].0@ != k,
    ensures
        !ivars(s).contains_key(k),
    decreases s.len(),
{
    if s.len() > 0 {
        let pre = s.subrange(0, s.len() - 1);
        assert(forall|j: int| 0 <= j < pre.len() ==> pre[j] == s[j]);
        lemma_ivars_absent(pre, k);
    }
}

/// Finds the entry of a name in the offset table.
fn ivars_find(vars: &Vec<(String, i32)>, name: &String) -> (r: Option<usize>)
    ensures
        (match r {
            Some(i) => i < vars@.len() && ivars(vars@).contains_key(name@) && ivars(
                vars@,
            )[name@] == vars@[i as int].1 as int,
            None => !ivars(vars@).contains_key(name@),
        }),
{
    let mut i = vars.len();
    while i > 0
        invariant
            i <= vars@.len(),
            forall|j: int| i <= j < vars@.len() ==> vars@[j].0@ != name@,
        decreases i,
    {
        i = i - 1;
        if vars[i].0 == *name {
            proof {
                lemma_ivars_last(vars@, i as int);
            }
            return Some(i);
        }
    }
    proof {
        lemma_ivars_absent(vars@, name@);
    }
    None
}

/// A fresh instruction: NOP with empty operands, as staged instructions
/// start out.
fn alloc_ir() -> (r: IR)
    ensures
        irv(r) == plain(IRType::NOP, 0, 0),
{
    let r = IR {
        op: IRType::NOP,
        lhs: 0,
        rhs: 0,
        name: String::new(),
        nargs: 0,
        args: [0i32; 6],
        ir: Vec::new(),
    };
    proof {
        assert(r.name@ =~= Seq::<char>::empty());
        assert(Seq::new(6, |k: int| r.args@[k] as int) =~= Seq::new(6, |k: int| 0int));
        assert(irsv(r.ir@) =~= Seq::<SIR>::empty());
        assert(irv(r) =~~= plain(IRType::NOP, 0, 0));
    }
    r
}

/// Appends a plain instruction to the staging buffer; returns its index.
fn emit(code: &mut Vec<IR>, op: IRType, lhs: i32, rhs: i32) -> (idx: usize)
    ensures
        irsv(final(code)@) == irsv(old(code)@) + seq![plain(op, lhs as int, rhs as int)],
        final(code)@.len() == old(code)@.len() + 1,
        idx == old(code)@.len(),
{
    let mut ir = alloc_ir();
    ir.op = op;
    ir.lhs = lhs;
    ir.rhs = rhs;
    let ghost gir = ir;
    let idx = code.len();
    code.push(ir);
    proof {
        lemma_irsv_push(old(code)@, gir);
        assert(irv(gir) =~~= plain(op, lhs as int, rhs as int));
    }
    idx
}

/// Lowers an identifier to its address in a fresh register: MOV from the
/// frame base, then ADD of the variable's stack offset, allocated on first
/// use.
fn gen_lval(n: &Node, ctx: &mut GenCtx) -> (r: Result<i32, Fault>)
    requires
        gst(*old(ctx)).regno + snsize(nview(*n)) <= i32::MAX,
        gst(*old(ctx)).bpoff + 8 * snsize(nview(*n)) <= i32::MAX,
    ensures
        (match sgen_lval(nview(*n), gst(*old(ctx))) {
            GenRes::Done { emitted, reg, st } => (r matches Ok(rr) && rr as int == reg && gst(
                *final(ctx),
            ) == st && irsv(final(ctx).code@) == irsv(old(ctx).code@) + emitted),
            GenRes::Fail { f } => (r matches Err(g) && g == f),
        }),
{
    let ghost code0 = ctx.code@;
    match n {
        Node::Ident { name, ty: _ } => {
            let off = match ivars_find(&ctx.vars, name) {
                Some(i) => ctx.vars[i].1,
                None => {
                    let o = ctx.bpoff;
                    let ghost vs0 = ctx.vars@;
                    let cname = name.clone();
                    let ghost gname = cname;
                    ctx.vars.push((cname, o));
                    proof {
                        lemma_ivars_push(vs0, gname, o);
                    }
                    ctx.bpoff = ctx.bpoff + 8;
                    o
                },
            };
            let r = ctx.regno;
            ctx.regno = ctx.regno + 1;
            emit(&mut ctx.code, IRType::MOV, r, ctx.basereg);
            emit(&mut ctx.code, IRType::ADD_IMM, r, off);
            proof {
                assert(irsv(ctx.code@) =~= irsv(code0) + seq![
                    plain(IRType::MOV, r as int, ctx.basereg as int),
                    plain(IRType::ADD_IMM, r as int, off as int),
                ]);
            }
            Ok(r)
        },
        _ => Err(Fault::NotAnLvalue),
    }
}

/// If a prefix of the arguments lowers successfully and the next one
/// fails, the whole argument list fails with that fault.
pub proof fn lemma_sgen_args_fail_at(ns: Seq<SNode>, st: GSt, i: int, f: Fault)
    requires
        0 <= i < ns.len(),
        (sgen_args(ns.subrange(0, i), st) matches GenArgsRes::Done { st: st1, .. } && sgen_expr(
            ns[i],
            st1,
        ) == GenRes::Fail { f }),
    ensures
        sgen_args(ns, st) == (GenArgsRes::Fail { f }),
    decreases ns.len(),
{
    let pre = ns.subrange(0, ns.len() - 1);
    if i == ns.len() - 1 {
        assert(ns.subrange(0, i) =~= pre);
    } else {
        assert(pre.subrange(0, i) =~= ns.subrange(0, i));
        assert(pre[i] == ns[i]);
        lemma_sgen_args_fail_at(pre, st, i, f);
    }
}

/// If a prefix of the statements lowers successfully and the next one
/// fails, the whole statement list fails with that fault.
pub proof fn lemma_sgen_stmts_fail_at(ns: Seq<SNode>, st: GSt, i: int, f: Fault)
    requires
        0 <= i < ns.len(),
        (sgen_stmts(ns.subrange(0, i), st) matches GenStmtRes::Done { st: st1, .. } && sgen_stmt(
            ns[i],
            st1,
        ) == GenStmtRes::Fail { f }),
    ensures
        sgen_stmts(ns, st) == (GenStmtRes::Fail { f }),
    decreases ns.len(),
{
    let pre = ns.subrange(0, ns.len() - 1);
    if i == ns.len() - 1 {
        assert(ns.subrange(0, i) =~= pre);
    } else {
        assert(pre.subrange(0, i) =~= ns.subrange(0, i));
        assert(pre[i] == ns[i]);
        lemma_sgen_stmts_fail_at(pre, st, i, f);
    }
}

/// If a prefix of the functions lowers successfully and the next one
/// fails, the whole compilation fails with that fault.
pub proof fn lemma_sgen_ir_fail_at(ns: Seq<SNode>, st: GSt, i: int, f: Fault)
    requires
        0 <= i < ns.len(),
        (sgen_ir(ns.subrange(0, i), st) matches GenForestRes::Done { st: st1, .. } && sgen_fn(
            ns[i],
            st1,
        ) == GenFnRes::Fail { f }),
    ensures
        sgen_ir(ns, st) == (GenForestRes::Fail { f }),
    decreases ns.len(),
{
    let pre = ns.subrange(0, ns.len() - 1);
    if i == ns.len() - 1 {
        assert(ns.subrange(0, i) =~= pre);
    } else {
        assert(pre.subrange(0, i) =~= ns.subrange(0, i));
        assert(pre[i] == ns[i]);
        lemma_sgen_ir_fail_at(pre, st, i, f);
    }
}

/// Register sequences mirror element by element under a push.
pub proof fn lemma_iseq_push(s: Seq<i32>, x: i32)
    ensures
        iseq(s.push(x)) == iseq(s).push(x as int),
{
    assert(iseq(s.push(x)) =~= iseq(s).push(x as int));
}

/// The opcode of an arithmetic operator node.
fn to_ir_type(op: &BinKind) -> (r: IRType)
    requires
        *op == BinKind::Add || *op == BinKind::Sub || *op == BinKind::Mul || *op == BinKind::Div,
    ensures
        r == sbinop_ir(*op),
{
    match op {
        BinKind::Add => IRType::ADD,
        BinKind::Sub => IRType::SUB,
        BinKind::Mul => IRType::MUL,
        _ => IRType::DIV,
    }
}

/// Lowers an expression into the staging buffer; the returned register
/// holds the value.
#[verifier::rlimit(100)]
pub fn gen_expr(n: &Node, ctx: &mut GenCtx) -> (r: Result<i32, Fault>)
    requires
        scalls_ok(nview(*n)),
        gst(*old(ctx)).regno + snsize(nview(*n)) <= i32::MAX,
        gst(*old(ctx)).bpoff + 8 * snsize(nview(*n)) <= i32::MAX,
    ensures
        (match sgen_expr(nview(*n), gst(*old(ctx))) {
            GenRes::Done { emitted, reg, st } => (r matches Ok(rr) && rr as int == reg && gst(
                *final(ctx),
            ) == st && irsv(final(ctx).code@) == irsv(old(ctx).code@) + emitted),
            GenRes::Fail { f } => (r matches Err(g) && g == f),
        }),
    decreases *n, 1int,
{
    let ghost code0 = ctx.code@;
    match n {
        Node::Num { val, ty: _ } => {
            let r = ctx.regno;
            ctx.regno = ctx.regno + 1;
            emit(&mut ctx.code, IRType::IMM, r, *val);
            Ok(r)
        },
        Node::Ident { .. } => {
            let r = match gen_lval(n, ctx) {
                Ok(v) => v,
                Err(g) => {
                    return Err(g);
                },
            };
            let ghost mid = irsv(ctx.code@);
            emit(&mut ctx.code, IRType::LOAD, r, r);
            proof {
                if let GenRes::Done { emitted, .. } = sgen_lval(nview(*n), gst(*old(ctx))) {
                    assert(irsv(ctx.code@) =~= irsv(code0) + (emitted + seq![
                        plain(IRType::LOAD, r as int, r as int),
                    ]));
                }
            }
            Ok(r)
        },
        Node::Call { .. } => gen_call(n, ctx),
        Node::Bin { .. } => gen_bin(n, ctx),
        _ => Err(Fault::NotAnOperator),
    }
}

/// Lowers an assignment or an arithmetic binary expression.
#[verifier::rlimit(100)]
fn gen_bin(n: &Node, ctx: &mut GenCtx) -> (r: Result<i32, Fault>)
    requires
        (*n matches Node::Bin { .. }),
        scalls_ok(nview(*n)),
        gst(*old(ctx)).regno + snsize(nview(*n)) <= i32::MAX,
        gst(*old(ctx)).bpoff + 8 * snsize(nview(*n)) <= i32::MAX,
    ensures
        (match sgen_expr(nview(*n), gst(*old(ctx))) {
            GenRes::Done { emitted, reg, st } => (r matches Ok(rr) && rr as int == reg && gst(
                *final(ctx),
            ) == st && irsv(final(ctx).code@) == irsv(old(ctx).code@) + emitted),
            GenRes::Fail { f } => (r matches Err(g) && g == f),
        }),
    decreases *n, 0int,
{
    let ghost code0 = ctx.code@;
    let ghost st0 = gst(*ctx);
    match n {
        Node::Bin { op, lhs, rhs, ty: _ } => {
            proof {
                lemma_slsize_singleton(nview(**lhs));
                lemma_slsize_singleton(nview(**rhs));
            }
            if *op == BinKind::Assign {
                let rr = match gen_expr(&**rhs, ctx) {
                    Ok(v) => v,
                    Err(g) => {
                        return Err(g);
                    },
                };
                proof {
                    lemma_sgen_expr_bounds(nview(**rhs), st0);
                }
                let rl = match gen_lval(&**lhs, ctx) {
                    Ok(v) => v,
                    Err(g) => {
                        return Err(g);
                    },
                };
                emit(&mut ctx.code, IRType::STORE, rl, rr);
                emit(&mut ctx.code, IRType::KILL, rr, -1);
                proof {
                    if let GenRes::Done { emitted: er, .. } = sgen_expr(nview(**rhs), st0) {
                        if let GenRes::Done { emitted: el, .. } = sgen_lval(
                            nview(**lhs),
                            sgen_expr_st(nview(**rhs), st0),
                        ) {
                            assert(irsv(ctx.code@) =~= irsv(code0) + (er + el + seq![
                                plain(IRType::STORE, rl as int, rr as int),
                                plain(IRType::KILL, rr as int, -1),
                            ]));
                        }
                    }
                }
                Ok(rl)
            } else if *op == BinKind::Add || *op == BinKind::Sub || *op == BinKind::Mul || *op
                == BinKind::Div {
                let rl = match gen_expr(&**lhs, ctx) {
                    Ok(v) => v,
                    Err(g) => {
                        return Err(g);
                    },
                };
                proof {
                    lemma_sgen_expr_bounds(nview(**lhs), st0);
                }
                let rr = match gen_expr(&**rhs, ctx) {
                    Ok(v) => v,
                    Err(g) => {
                        return Err(g);
                    },
                };
                let opir = to_ir_type(op);
                emit(&mut ctx.code, opir, rl, rr);
                emit(&mut ctx.code, IRType::KILL, rr, -1);
                proof {
                    if let GenRes::Done { emitted: el, .. } = sgen_expr(nview(**lhs), st0) {
                        if let GenRes::Done { emitted: er, .. } = sgen_expr(
                            nview(**rhs),
                            sgen_expr_st(nview(**lhs), st0),
                        ) {
                            assert(irsv(ctx.code@) =~= irsv(code0) + (el + er + seq![
                                plain(sbinop_ir(*op), rl as int, rr as int),
                                plain(IRType::KILL, rr as int, -1),
                            ]));
                        }
                    }
                }
                Ok(rl)
            } else {
                Err(Fault::NotAnOperator)
            }
        },
        _ => {
            proof {
                assert(false);
            }
            Err(Fault::NotAnOperator)
        },
    }
}

/// The state after a successful expression lowering, the given one
/// otherwise.
pub open spec fn sgen_expr_st(n: SNode, st: GSt) -> GSt {
    match sgen_expr(n, st) {
        GenRes::Done { st: st1, .. } => st1,
        GenRes::Fail { .. } => st,
    }
}

/// Lowers a call: the arguments left to right into registers, the CALL
/// carrying them, then a KILL for each argument register in order.
#[verifier::rlimit(100)]
fn gen_call(n: &Node, ctx: &mut GenCtx) -> (r: Result<i32, Fault>)
    requires
        (*n matches Node::Call { .. }),
        scalls_ok(nview(*n)),
        gst(*old(ctx)).regno + snsize(nview(*n)) <= i32::MAX,
        gst(*old(ctx)).bpoff + 8 * snsize(nview(*n)) <= i32::MAX,
    ensures
        (match sgen_expr(nview(*n), gst(*old(ctx))) {
            GenRes::Done { emitted, reg, st } => (r matches Ok(rr) && rr as int == reg && gst(
                *final(ctx),
            ) == st && irsv(final(ctx).code@) == irsv(old(ctx).code@) + emitted),
            GenRes::Fail { f } => (r matches Err(g) && g == f),
        }),
    decreases *n, 0int,
{
    let ghost code0 = ctx.code@;
    let ghost st0 = gst(*ctx);
    match n {
        Node::Call { name, args, ty: _ } => {
            proof {
                lemma_seqv(args@);
            }
            let regs = match gen_args(args, ctx) {
                Ok(v) => v,
                Err(g) => {
                    return Err(g);
                },
            };
            proof {
                lemma_sgen_args_bounds(seqv(args@), st0);
            }
            let ghost sregs = (match sgen_args(seqv(args@), st0) {
                GenArgsRes::Done { regs: rs, .. } => rs,
                GenArgsRes::Fail { .. } => Seq::<int>::empty(),
            });
            let r = ctx.regno;
            ctx.regno = ctx.regno + 1;
            let nargs = args.len();
            let a0 = if nargs > 0 { regs[0] } else { 0 };
            let a1 = if nargs > 1 { regs[1] } else { 0 };
            let a2 = if nargs > 2 { regs[2] } else { 0 };
            let a3 = if nargs > 3 { regs[3] } else { 0 };
            let a4 = if nargs > 4 { regs[4] } else { 0 };
            let a5 = if nargs > 5 { regs[5] } else { 0 };
            let arr = [a0, a1, a2, a3, a4, a5];
            let call_ir = IR {
                op: IRType::CALL,
                lhs: r,
                rhs: -1,
                name: name.clone(),
                nargs,
                args: arr,
                ir: Vec::new(),
            };
            let ghost gcall = call_ir;
            let ghost mid = ctx.code@;
            ctx.code.push(call_ir);
            proof {
                lemma_irsv_push(mid, gcall);
                assert(irv(gcall) =~~= SIR {
                    op: IRType::CALL,
                    lhs: r as int,
                    rhs: -1,
                    name: name@,
                    nargs: sregs.len() as int,
                    args: Seq::new(6, |k: int| if k < sregs.len() { sregs[k] } else { 0int }),
                    ir: Seq::<SIR>::empty(),
                });
            }
            let ghost base = irsv(ctx.code@);
            let ghost stc = gst(*ctx);
            let ghost kills = Seq::new(sregs.len(), |k: int| plain(IRType::KILL, sregs[k], -1));
            let mut i: usize = 0;
            while i < nargs
                invariant
                    i <= nargs,
                    nargs == regs@.len(),
                    iseq(regs@) == sregs,
                    nargs == sregs.len(),
                    kills == Seq::new(sregs.len(), |k: int| plain(IRType::KILL, sregs[k], -1)),
                    gst(*ctx) == stc,
                    irsv(ctx.code@) == base + kills.take(i as int),
                decreases nargs - i,
            {
                let ghost pre = irsv(ctx.code@);
                emit(&mut ctx.code, IRType::KILL, regs[i], -1);
                proof {
                    assert(kills.take(i as int + 1) =~= kills.take(i as int) + seq![kills[i as int]]);
                    assert(kills[i as int] == plain(IRType::KILL, sregs[i as int], -1));
                    assert(irsv(ctx.code@) =~= base + kills.take(i as int + 1));
                }
                i = i + 1;
            }
            proof {
                assert(kills.take(nargs as int) =~= kills);
                if let GenArgsRes::Done { emitted: ea, .. } = sgen_args(seqv(args@), st0) {
                    assert(irsv(ctx.code@) =~= irsv(code0) + (ea + seq![irv(gcall)] + kills));
                }
            }
            Ok(r)
        },
        _ => {
            proof {
                assert(false);
            }
            Err(Fault::NotAnOperator)
        },
    }
}

/// Lowers a call's arguments in order, collecting their registers.
#[verifier::loop_isolation(false)]
fn gen_args(v: &Vec<Node>, ctx: &mut GenCtx) -> (r: Result<Vec<i32>, Fault>)
    requires
        forall|i: int| 0 <= i < v@.len() ==> scalls_ok(nview(#[trigger] v@[i])),
        gst(*old(ctx)).regno + slsize(seqv(v@)) <= i32::MAX,
        gst(*old(ctx)).bpoff + 8 * slsize(seqv(v@)) <= i32::MAX,
    ensures
        (match sgen_args(seqv(v@), gst(*old(ctx))) {
            GenArgsRes::Done { emitted, regs, st } => (r matches Ok(out) && iseq(out@) == regs
                && gst(*final(ctx)) == st && irsv(final(ctx).code@) == irsv(old(ctx).code@)
                + emitted),
            GenArgsRes::Fail { f } => (r matches Err(g) && g == f),
        }),
    decreases *v, 1int,
{
    let ghost st0 = gst(*ctx);
    let ghost code0 = ctx.code@;
    let ghost sns = seqv(v@);
    proof {
        lemma_seqv(v@);
        assert(sns.skip(0) =~= sns);
        assert(sns.take(0) =~= Seq::<SNode>::empty());
    }
    let mut out: Vec<i32> = Vec::new();
    let mut i: usize = 0;
    while i < v.len()
        invariant
            i <= v@.len(),
            (sgen_args(sns.take(i as int), st0) matches GenArgsRes::Done { emitted, regs, st }
                && regs == iseq(out@) && st == gst(*ctx) && irsv(ctx.code@) == irsv(code0)
                + emitted),
            gst(*ctx).regno + slsize(sns.skip(i as int)) <= i32::MAX,
            gst(*ctx).bpoff + 8 * slsize(sns.skip(i as int)) <= i32::MAX,
        decreases v@.len() - i,
    {
        proof {
            lemma_slsize_head(sns.skip(i as int));
            assert(sns.skip(i as int)[0] == sns[i as int]);
            assert(sns.skip(i as int).skip(1) =~= sns.skip(i as int + 1));
        }
        let ghost stp = gst(*ctx);
        let ghost codep = ctx.code@;
        let w = match gen_expr(&v[i], ctx) {
            Ok(w) => w,
            Err(g) => {
                proof {
                    assert(sns.take(i as int) =~= sns.subrange(0, i as int));
                    lemma_sgen_args_fail_at(sns, st0, i as int, g);
                }
                return Err(g);
            },
        };
        proof {
            lemma_sgen_expr_bounds(sns[i as int], stp);
            lemma_iseq_push(out@, w);
            let t1 = sns.take(i as int + 1);
            assert(t1.subrange(0, i as int) =~= sns.take(i as int));
            assert(t1[i as int] == sns[i as int]);
            assert(t1.len() == i + 1);
            assert(sgen_args(t1, st0) == (match sgen_args(t1.subrange(0, i as int), st0) {
                GenArgsRes::Fail { f } => GenArgsRes::Fail { f },
                GenArgsRes::Done { emitted, regs, st: st1 } => match sgen_expr(
                    t1[i as int],
                    st1,
                ) {
                    GenRes::Fail { f } => GenArgsRes::Fail { f },
                    GenRes::Done { emitted: e2, reg, st: st2 } => GenArgsRes::Done {
                        emitted: emitted + e2,
                        regs: regs.push(reg),
                        st: st2,
                    },
                },
            }));
            if let GenArgsRes::Done { emitted: ep, .. } = sgen_args(sns.take(i as int), st0) {
                if let GenRes::Done { emitted: e2, .. } = sgen_expr(sns[i as int], stp) {
                    assert(irsv(ctx.code@) =~= irsv(code0) + (ep + e2));
                }
            }
        }
        out.push(w);
        i = i + 1;
    }
    proof {
        assert(sns.take(i as int) =~= sns);
    }
    Ok(out)
}

/// Lowers a statement into the staging buffer.
pub fn gen_stmt(n: &Node, ctx: &mut GenCtx) -> (r: Result<(), Fault>)
    requires
        scalls_ok(nview(*n)),
        gst(*old(ctx)).regno + snsize(nview(*n)) <= i32::MAX,
        gst(*old(ctx)).bpoff + 8 * snsize(nview(*n)) <= i32::MAX,
        gst(*old(ctx)).label + 2 * snsize(nview(*n)) <= i32::MAX,
    ensures
        (match sgen_stmt(nview(*n), gst(*old(ctx))) {
            GenStmtRes::Done { emitted, st } => (r is Ok && gst(*final(ctx)) == st && irsv(
                final(ctx).code@,
            ) == irsv(old(ctx).code@) + emitted),
            GenStmtRes::Fail { f } => (r matches Err(g) && g == f),
        }),
    decreases *n, 1int,
{
    let ghost code0 = ctx.code@;
    let ghost st0 = gst(*ctx);
    match n {
        Node::If { .. } => gen_if(n, ctx),
        Node::Return { expr } => {
            proof {
                lemma_slsize_singleton(nview(**expr));
            }
            let rv = match gen_expr(&**expr, ctx) {
                Ok(v) => v,
                Err(g) => {
                    return Err(g);
                },
            };
            emit(&mut ctx.code, IRType::RETURN, rv, -1);
            emit(&mut ctx.code, IRType::KILL, rv, -1);
            proof {
                if let GenRes::Done { emitted, .. } = sgen_expr(nview(**expr), st0) {
                    assert(irsv(ctx.code@) =~= irsv(code0) + (emitted + seq![
                        plain(IRType::RETURN, rv as int, -1),
                        plain(IRType::KILL, rv as int, -1),
                    ]));
                }
            }
            Ok(())
        },
        Node::ExprStmt { expr } => {
            proof {
                lemma_slsize_singleton(nview(**expr));
            }
            let rv = match gen_expr(&**expr, ctx) {
                Ok(v) => v,
                Err(g) => {
                    return Err(g);
                },
            };
            emit(&mut ctx.code, IRType::KILL, rv, -1);
            proof {
                if let GenRes::Done { emitted, .. } = sgen_expr(nview(**expr), st0) {
                    assert(irsv(ctx.code@) =~= irsv(code0) + (emitted + seq![
                        plain(IRType::KILL, rv as int, -1),
                    ]));
                }
            }
            Ok(())
        },
        Node::CompStmt { stmts } => {
            proof {
                lemma_seqv(stmts@);
            }
            gen_stmts(stmts, ctx)
        },
        _ => Err(Fault::UnknownNode),
    }
}

/// Lowers a conditional: the condition into a register, UNLESS to the
/// first label, KILL of the condition register, the then-branch, and for
/// an else-branch a JMP over it between two labels.
#[verifier::rlimit(100)]
fn gen_if(n: &Node, ctx: &mut GenCtx) -> (r: Result<(), Fault>)
    requires
        (*n matches Node::If { .. }),
        scalls_ok(nview(*n)),
        gst(*old(ctx)).regno + snsize(nview(*n)) <= i32::MAX,
        gst(*old(ctx)).bpoff + 8 * snsize(nview(*n)) <= i32::MAX,
        gst(*old(ctx)).label + 2 * snsize(nview(*n)) <= i32::MAX,
    ensures
        (match sgen_stmt(nview(*n), gst(*old(ctx))) {
            GenStmtRes::Done { emitted, st } => (r is Ok && gst(*final(ctx)) == st && irsv(
                final(ctx).code@,
            ) == irsv(old(ctx).code@) + emitted),
            GenStmtRes::Fail { f } => (r matches Err(g) && g == f),
        }),
    decreases *n, 0int,
{
    let ghost code0 = ctx.code@;
    let ghost st0 = gst(*ctx);
    match n {
        Node::If { cond, thn, els } => {
            proof {
                lemma_slsize_singleton(nview(**cond));
                lemma_slsize_singleton(nview(**thn));
                if let Some(b) = els {
                    lemma_slsize_singleton(nview(**b));
                }
            }
            let rcond = match gen_expr(&**cond, ctx) {
                Ok(v) => v,
                Err(g) => {
                    return Err(g);
                },
            };
            proof {
                lemma_sgen_expr_bounds(nview(**cond), st0);
            }
            let x = ctx.label;
            ctx.label = ctx.label + 1;
            emit(&mut ctx.code, IRType::UNLESS, rcond, x);
            emit(&mut ctx.code, IRType::KILL, rcond, -1);
            let ghost st2 = gst(*ctx);
            match gen_stmt(&**thn, ctx) {
                Ok(_) => (),
                Err(g) => {
                    return Err(g);
                },
            };
            proof {
                lemma_sgen_stmt_bounds(nview(**thn), st2);
            }
            match els {
                None => {
                    emit(&mut ctx.code, IRType::LABEL, x, -1);
                    proof {
                        if let GenRes::Done { emitted: ec, .. } = sgen_expr(nview(**cond), st0) {
                            if let GenStmtRes::Done { emitted: et, .. } = sgen_stmt(
                                nview(**thn),
                                st2,
                            ) {
                                let pre = ec + seq![
                                    plain(IRType::UNLESS, rcond as int, x as int),
                                    plain(IRType::KILL, rcond as int, -1),
                                ];
                                assert(irsv(ctx.code@) =~= irsv(code0) + (pre + et + seq![
                                    plain(IRType::LABEL, x as int, -1),
                                ]));
                            }
                        }
                    }
                    Ok(())
                },
                Some(b) => {
                    let y = ctx.label;
                    ctx.label = ctx.label + 1;
                    emit(&mut ctx.code, IRType::JMP, y, -1);
                    emit(&mut ctx.code, IRType::LABEL, x, -1);
                    let ghost st4 = gst(*ctx);
                    match gen_stmt(&**b, ctx) {
                        Ok(_) => (),
                        Err(g) => {
                            return Err(g);
                        },
                    };
                    emit(&mut ctx.code, IRType::LABEL, y, -1);
                    proof {
                        if let GenRes::Done { emitted: ec, .. } = sgen_expr(nview(**cond), st0) {
                            if let GenStmtRes::Done { emitted: et, .. } = sgen_stmt(
                                nview(**thn),
                                st2,
                            ) {
                                if let GenStmtRes::Done { emitted: ee, .. } = sgen_stmt(
                                    nview(**b),
                                    st4,
                                ) {
                                    let pre = ec + seq![
                                        plain(IRType::UNLESS, rcond as int, x as int),
                                        plain(IRType::KILL, rcond as int, -1),
                                    ];
                                    assert(irsv(ctx.code@) =~= irsv(code0) + (pre + et + seq![
                                        plain(IRType::JMP, y as int, -1),
                                        plain(IRType::LABEL, x as int, -1),
                                    ] + ee + seq![plain(IRType::LABEL, y as int, -1)]));
                                }
                            }
                        }
                    }
                    Ok(())
                },
            }
        },
        _ => {
            proof {
                assert(false);
            }
            Err(Fault::UnknownNode)
        },
    }
}

/// Lowers the statements of a vector in order.
#[verifier::loop_isolation(false)]
fn gen_stmts(v: &Vec<Node>, ctx: &mut GenCtx) -> (r: Result<(), Fault>)
    requires
        forall|i: int| 0 <= i < v@.len() ==> scalls_ok(nview(#[trigger] v@[i])),
        gst(*old(ctx)).regno + slsize(seqv(v@)) <= i32::MAX,
        gst(*old(ctx)).bpoff + 8 * slsize(seqv(v@)) <= i32::MAX,
        gst(*old(ctx)).label + 2 * slsize(seqv(v@)) <= i32::MAX,
    ensures
        (match sgen_stmts(seqv(v@), gst(*old(ctx))) {
            GenStmtRes::Done { emitted, st } => (r is Ok && gst(*final(ctx)) == st && irsv(
                final(ctx).code@,
            ) == irsv(old(ctx).code@) + emitted),
            GenStmtRes::Fail { f } => (r matches Err(g) && g == f),
        }),
    decreases *v, 1int,
{
    let ghost st0 = gst(*ctx);
    let ghost code0 = ctx.code@;
    let ghost sns = seqv(v@);
    proof {
        lemma_seqv(v@);
        assert(sns.skip(0) =~= sns);
        assert(sns.take(0) =~= Seq::<SNode>::empty());
    }
    let mut i: usize = 0;
    while i < v.len()
        invariant
            i <= v@.len(),
            (sgen_stmts(sns.take(i as int), st0) matches GenStmtRes::Done { emitted, st } && st
                == gst(*ctx) && irsv(ctx.code@) == irsv(code0) + emitted),
            gst(*ctx).regno + slsize(sns.skip(i as int)) <= i32::MAX,
            gst(*ctx).bpoff + 8 * slsize(sns.skip(i as int)) <= i32::MAX,
            gst(*ctx).label + 2 * slsize(sns.skip(i as int)) <= i32::MAX,
        decreases v@.len() - i,
    {
        proof {
            lemma_slsize_head(sns.skip(i as int));
            assert(sns.skip(i as int)[0] == sns[i as int]);
            assert(sns.skip(i as int).skip(1) =~= sns.skip(i as int + 1));
        }
        let ghost stp = gst(*ctx);
        match gen_stmt(&v[i], ctx) {
            Ok(_) => (),
            Err(g) => {
                proof {
                    assert(sns.take(i as int) =~= sns.subrange(0, i as int));
                    lemma_sgen_stmts_fail_at(sns, st0, i as int, g);
                }
                return Err(g);
            },
        };
        proof {
            lemma_sgen_stmt_bounds(sns[i as int], stp);
            let t1 = sns.take(i as int + 1);
            assert(t1.subrange(0, i as int) =~= sns.take(i as int));
            assert(t1[i as int] == sns[i as int]);
            assert(t1.len() == i + 1);
            assert(sgen_stmts(t1, st0) == (match sgen_stmts(t1.subrange(0, i as int), st0) {
                GenStmtRes::Fail { f } => GenStmtRes::Fail { f },
                GenStmtRes::Done { emitted, st: st1 } => match sgen_stmt(t1[i as int], st1) {
                    GenStmtRes::Fail { f } => GenStmtRes::Fail { f },
                    GenStmtRes::Done { emitted: e2, st: st2 } => GenStmtRes::Done {
                        emitted: emitted + e2,
                        st: st2,
                    },
                },
            }));
            if let GenStmtRes::Done { emitted: ep, .. } = sgen_stmts(sns.take(i as int), st0) {
                if let GenStmtRes::Done { emitted: e2, .. } = sgen_stmt(sns[i as int], stp) {
                    assert(irsv(ctx.code@) =~= irsv(code0) + (ep + e2));
                }
            }
        }
        i = i + 1;
    }
    proof {
        assert(sns.take(i as int) =~= sns);
    }
    Ok(())
}

/// The mirror of a concatenation is the concatenation of the mirrors.
pub proof fn lemma_irsv_concat(a: Seq<IR>, b: Seq<IR>)
    ensures
        irsv(a + b) == irsv(a) + irsv(b),
    decreases b.len(),
{
    if b.len() == 0 {
        assert(a + b =~= a);
        assert(irsv(a) + irsv(b) =~= irsv(a));
    } else {
        let c = a + b;
        let bp = b.subrange(0, b.len() - 1);
        lemma_irsv_concat(a, bp);
        assert(c.subrange(0, c.len() - 1) =~= a + bp);
        assert(c[c.len() - 1] == b[b.len() - 1]);
        assert(irsv(a) + irsv(bp) + seq![irv(b[b.len() - 1])] =~= irsv(a) + irsv(b));
    }
}

/// Lowers a whole compilation unit: each top-level node must be a
/// function; its body is lowered into a fresh staging buffer framed by
/// ALLOCA and KILL on the frame base register, while the register counter,
/// the label counter, the offset table and the running stack offset thread
/// across all functions.
#[verifier::loop_isolation(false)]
#[verifier::rlimit(100)]
pub fn gen_ir(nodes: Vec<Node>) -> (r: Result<Vec<IR>, Fault>)
    requires
        forall|i: int| 0 <= i < nodes@.len() ==> scalls_ok(nview(#[trigger] nodes@[i])),
        1 + slsize(seqv(nodes@)) <= i32::MAX,
        2 * slsize(seqv(nodes@)) <= i32::MAX,
        8 * slsize(seqv(nodes@)) <= i32::MAX,
    ensures
        (match sgen_ir(seqv(nodes@), init_gst()) {
            GenForestRes::Done { funcs, .. } => (r matches Ok(v) && irsv(v@) == funcs),
            GenForestRes::Fail { f } => (r matches Err(g) && g == f),
        }),
{
    let mut ctx = GenCtx {
        code: Vec::new(),
        regno: 1,
        basereg: 0,
        label: 0,
        bpoff: 0,
        vars: Vec::new(),
    };
    proof {
        assert(ctx.vars@ =~= Seq::<(String, i32)>::empty());
        assert(ivars(Seq::<(String, i32)>::empty()) =~= Map::<Seq<char>, int>::empty());
        assert(gst(ctx) == init_gst());
    }
    let ghost sns = seqv(nodes@);
    proof {
        lemma_seqv(nodes@);
        assert(sns.skip(0) =~= sns);
        assert(sns.take(0) =~= Seq::<SNode>::empty());
    }
    let mut out: Vec<IR> = Vec::new();
    let mut i: usize = 0;
    while i < nodes.len()
        invariant
            i <= nodes@.len(),
            (sgen_ir(sns.take(i as int), init_gst()) matches GenForestRes::Done { funcs, st }
                && funcs == irsv(out@) && st == gst(ctx)),
            gst(ctx).regno + slsize(sns.skip(i as int)) <= i32::MAX,
            gst(ctx).bpoff + 8 * slsize(sns.skip(i as int)) <= i32::MAX,
            gst(ctx).label + 2 * slsize(sns.skip(i as int)) <= i32::MAX,
            gst(ctx).basereg == 0,
        decreases nodes@.len() - i,
    {
        proof {
            lemma_slsize_head(sns.skip(i as int));
            assert(sns.skip(i as int)[0] == sns[i as int]);
            assert(sns.skip(i as int).skip(1) =~= sns.skip(i as int + 1));
            assert(sns[i as int] == nview(nodes@[i as int]));
        }
        let ghost stp = gst(ctx);
        match &nodes[i] {
            Node::Func { name, args: _, body, stacksize: _ } => {
                proof {
                    lemma_slsize_singleton(nview(**body));
                }
                ctx.code = Vec::new();
                let ghost st_entry = gst(ctx);
                match gen_stmt(&**body, &mut ctx) {
                    Ok(_) => (),
                    Err(g) => {
                        proof {
                            assert(sgen_fn(sns[i as int], stp) == (GenFnRes::Fail { f: g }));
                            assert(sns.take(i as int) =~= sns.subrange(0, i as int));
                            lemma_sgen_ir_fail_at(sns, init_gst(), i as int, g);
                        }
                        return Err(g);
                    },
                };
                proof {
                    lemma_sgen_stmt_bounds(nview(**body), stp);
                }
                let mut fncode: Vec<IR> = Vec::new();
                emit(&mut fncode, IRType::ALLOCA, ctx.basereg, ctx.bpoff);
                let ghost alloca_seq = fncode@;
                let ghost body_seq = ctx.code@;
                fncode.append(&mut ctx.code);
                proof {
                    lemma_irsv_concat(alloca_seq, body_seq);
                }
                emit(&mut fncode, IRType::KILL, ctx.basereg, -1);
                let fun = IR {
                    op: IRType::NOP,
                    lhs: 0,
                    rhs: 0,
                    name: name.clone(),
                    nargs: 0,
                    args: [0i32; 6],
                    ir: fncode,
                };
                let ghost gfun = fun;
                proof {
                    if let GenStmtRes::Done { emitted, st: st1 } = sgen_stmt(
                        nview(**body),
                        stp,
                    ) {
                        assert(irsv(gfun.ir@) =~= seq![
                            plain(IRType::ALLOCA, stp.basereg, st1.bpoff),
                        ] + emitted + seq![plain(IRType::KILL, stp.basereg, -1)]);
                        assert(gfun.name@ =~= name@);
                        assert(Seq::new(6, |k: int| gfun.args@[k] as int) =~= Seq::new(
                            6,
                            |k: int| 0int,
                        ));
                        if let GenFnRes::Done { func, .. } = sgen_fn(sns[i as int], stp) {
                            assert(irv(gfun) =~~= func);
                        }
                    }
                    lemma_irsv_push(out@, gfun);
                    let t1 = sns.take(i as int + 1);
                    assert(t1.subrange(0, i as int) =~= sns.take(i as int));
                    assert(t1[i as int] == sns[i as int]);
                    assert(t1.len() == i + 1);
                    assert(sgen_ir(t1, init_gst()) == (match sgen_ir(
                        t1.subrange(0, i as int),
                        init_gst(),
                    ) {
                        GenForestRes::Fail { f } => GenForestRes::Fail { f },
                        GenForestRes::Done { funcs, st: st1 } => match sgen_fn(
                            t1[i as int],
                            st1,
                        ) {
                            GenFnRes::Fail { f } => GenForestRes::Fail { f },
                            GenFnRes::Done { func, st: st2 } => GenForestRes::Done {
                                funcs: funcs.push(func),
                                st: st2,
                            },
                        },
                    }));
                }
                out.push(fun);
            },
            _ => {
                proof {
                    assert(sgen_fn(sns[i as int], stp) == (GenFnRes::Fail {
                        f: Fault::NotAFunction,
                    }));
                    assert(sns.take(i as int) =~= sns.subrange(0, i as int));
                    lemma_sgen_ir_fail_at(sns, init_gst(), i as int, Fault::NotAFunction);
                }
                return Err(Fault::NotAFunction);
            },
        };
        i = i + 1;
    }
    proof {
        assert(sns.take(i as int) =~= sns);
    }
    Ok(out)
}

/// Conditional lowering: `if (cond) { A } else { B }` lowers, in order, to
/// the condition's code leaving register `r`, `UNLESS r, L1`, `KILL r`,
/// the code of `A`, `JMP L2`, `LABEL L1`, the code of `B`, `LABEL L2`,
/// with `L1 < L2`; without an else-branch the tail is just `LABEL L1`,
/// with no jump and no second label. Labels come from the monotone
/// counter, so both are unique in the compilation unit.
pub proof fn lemma_lower_if(cond: SNode, thn: SNode, els: Seq<SNode>, st: GSt)
    requires
        els.len() <= 1,
    ensures
        (match sgen_expr(cond, st) {
            GenRes::Fail { .. } => true,
            GenRes::Done { emitted: ec, reg: r, st: st1 } => {
                let x = st1.label;
                let st2 = GSt { label: x + 1, ..st1 };
                let pre = ec + seq![plain(IRType::UNLESS, r, x), plain(IRType::KILL, r, -1)];
                match sgen_stmt(thn, st2) {
                    GenStmtRes::Fail { .. } => true,
                    GenStmtRes::Done { emitted: et, st: st3 } => {
                        let res = sgen_stmt(SNode::If { cond: seq![cond], thn: seq![thn], els }, st);
                        if els.len() == 0 {
                            res == (GenStmtRes::Done {
                                emitted: pre + et + seq![plain(IRType::LABEL, x, -1)],
                                st: st3,
                            })
                        } else {
                            let y = st3.label;
                            let st4 = GSt { label: y + 1, ..st3 };
                            x < y && (match sgen_stmt(els[0], st4) {
                                GenStmtRes::Fail { .. } => true,
                                GenStmtRes::Done { emitted: ee, st: st5 } => res == (GenStmtRes::Done {
                                    emitted: pre + et + seq![
                                        plain(IRType::JMP, y, -1),
                                        plain(IRType::LABEL, x, -1),
                                    ] + ee + seq![plain(IRType::LABEL, y, -1)],
                                    st: st5,
                                }),
                            })
                        }
                    },
                }
            },
        }),
{
    if let GenRes::Done { reg: r, st: st1, .. } = sgen_expr(cond, st) {
        let st2 = GSt { label: st1.label + 1, ..st1 };
        lemma_sgen_stmt_bounds(thn, st2);
    }
}

/// Call lowering: the arguments are lowered left to right into registers,
/// the CALL carries those registers in argument order, and one KILL per
/// argument register follows, in the same order.
pub proof fn lemma_lower_call(name: Seq<char>, args: Seq<SNode>, ty: Type, st: GSt)
    ensures
        (match sgen_args(args, st) {
            GenArgsRes::Fail { .. } => true,
            GenArgsRes::Done { emitted: ea, regs, st: st1 } => sgen_expr(
                SNode::Call { name, args, ty },
                st,
            ) == (GenRes::Done {
                emitted: ea + seq![
                    SIR {
                        op: IRType::CALL,
                        lhs: st1.regno,
                        rhs: -1,
                        name,
                        nargs: regs.len() as int,
                        args: Seq::new(6, |k: int| if k < regs.len() { regs[k] } else { 0int }),
                        ir: Seq::<SIR>::empty(),
                    },
                ] + Seq::new(regs.len(), |k: int| plain(IRType::KILL, regs[k], -1)),
                reg: st1.regno,
                st: GSt { regno: st1.regno + 1, ..st1 },
            }) && regs.len() == args.len(),
        }),
{
    lemma_sgen_args_bounds(args, st);
}

/// Two-argument form of call lowering: `f(x, y)` lowers `x` then `y` into
/// registers `rx` and `ry` in that order, then emits the CALL with the
/// argument list `[rx, ry]`, then `KILL rx` followed by `KILL ry`.
pub proof fn lemma_lower_call2(name: Seq<char>, x: SNode, y: SNode, ty: Type, st: GSt)
    ensures
        (match sgen_expr(x, st) {
            GenRes::Fail { .. } => true,
            GenRes::Done { emitted: ex, reg: rx, st: st1 } => match sgen_expr(y, st1) {
                GenRes::Fail { .. } => true,
                GenRes::Done { emitted: ey, reg: ry, st: st2 } => sgen_expr(
                    SNode::Call { name, args: seq![x, y], ty },
                    st,
                ) == (GenRes::Done {
                    emitted: (ex + ey) + seq![
                        SIR {
                            op: IRType::CALL,
                            lhs: st2.regno,
                            rhs: -1,
                            name,
                            nargs: 2,
                            args: Seq::new(
                                6,
                                |k: int| if k == 0 { rx } else if k == 1 { ry } else { 0int },
                            ),
                            ir: Seq::<SIR>::empty(),
                        },
                    ] + seq![plain(IRType::KILL, rx, -1), plain(IRType::KILL, ry, -1)],
                    reg: st2.regno,
                    st: GSt { regno: st2.regno + 1, ..st2 },
                }),
            },
        }),
{
    let a = seq![x, y];
    assert(a.subrange(0, 1) =~= seq![x]);
    assert(seq![x].subrange(0, 0) =~= Seq::<SNode>::empty());
    assert(sgen_args(Seq::<SNode>::empty(), st) == (GenArgsRes::Done {
        emitted: Seq::<SIR>::empty(),
        regs: Seq::<int>::empty(),
        st,
    }));
    assert(a[1] == y && a[0] == x && seq![x][0] == x);
    if let GenRes::Done { emitted: ex, reg: rx, st: st1 } = sgen_expr(x, st) {
        assert(sgen_args(seq![x], st) == (GenArgsRes::Done {
            emitted: Seq::<SIR>::empty() + ex,
            regs: Seq::<int>::empty().push(rx),
            st: st1,
        }));
        if let GenRes::Done { emitted: ey, reg: ry, st: st2 } = sgen_expr(y, st1) {
            let regs2 = Seq::<int>::empty().push(rx).push(ry);
            assert(sgen_args(a, st) == (GenArgsRes::Done {
                emitted: (Seq::<SIR>::empty() + ex) + ey,
                regs: regs2,
                st: st2,
            }));
            assert((Seq::<SIR>::empty() + ex) + ey =~= ex + ey);
            assert(regs2.len() == 2 && regs2[0] == rx && regs2[1] == ry);
            assert(Seq::new(6, |k: int| if k < regs2.len() { regs2[k] } else { 0int }) =~= Seq::new(
                6,
                |k: int| if k == 0 { rx } else if k == 1 { ry } else { 0int },
            ));
            assert(Seq::new(regs2.len(), |k: int| plain(IRType::KILL, regs2[k], -1)) =~= seq![
                plain(IRType::KILL, rx, -1),
                plain(IRType::KILL, ry, -1),
            ]);
        }
    }
}

/// Function framing: every lowered function's first instruction is ALLOCA
/// on the frame base register, its immediate the stack offset reached at
/// the end of that function's lowering, and its last instruction is KILL
/// on the frame base register.
pub proof fn lemma_func_frame(n: SNode, st: GSt)
    ensures
        (match sgen_fn(n, st) {
            GenFnRes::Fail { .. } => true,
            GenFnRes::Done { func, st: st1 } => func.ir.len() >= 2 && func.ir[0] == plain(
                IRType::ALLOCA,
                st.basereg,
                st1.bpoff,
            ) && func.ir[func.ir.len() - 1] == plain(IRType::KILL, st.basereg, -1),
        }),
{
    match n {
        SNode::Func { name: _, args: _, body, stacksize: _ } => {
            if body.len() == 1 {
                if let GenStmtRes::Done { emitted, st: st1 } = sgen_stmt(body[0], st) {
                    let ir = seq![plain(IRType::ALLOCA, st.basereg, st1.bpoff)] + emitted + seq![
                        plain(IRType::KILL, st.basereg, -1),
                    ];
                    assert(ir[0] == plain(IRType::ALLOCA, st.basereg, st1.bpoff));
                    assert(ir[ir.len() - 1] == plain(IRType::KILL, st.basereg, -1));
                }
            }
        },
        _ => {},
    }
}

/// Register and label discipline: values lowered one after the other get
/// strictly increasing result registers, and no later lowering ever hands
/// out a register or label below the counters it started from — ids are
/// unique across the whole compilation unit.
pub proof fn lemma_ids_strictly_increase(x: SNode, y: SNode, st: GSt)
    ensures
        (match sgen_expr(x, st) {
            GenRes::Fail { .. } => true,
            GenRes::Done { reg: rx, st: st1, .. } => match sgen_expr(y, st1) {
                GenRes::Fail { .. } => true,
                GenRes::Done { reg: ry, .. } => rx < ry,
            },
        }),
{
    lemma_sgen_expr_bounds(x, st);
    if let GenRes::Done { st: st1, .. } = sgen_expr(x, st) {
        lemma_sgen_expr_bounds(y, st1);
    }
}

/// The decimal digit character of a value below ten.
pub open spec fn sdigit(d: int) -> char {
    if d == 0 {
        '0'
    } else if d == 1 {
        '1'
    } else if d == 2 {
        '2'
    } else if d == 3 {
        '3'
    } else if d == 4 {
        '4'
    } else if d == 5 {
        '5'
    } else if d == 6 {
        '6'
    } else if d == 7 {
        '7'
    } else if d == 8 {
        '8'
    } else {
        '9'
    }
}

/// The decimal digits of a non-negative value, most significant first.
pub open spec fn sdec_nat(n: int) -> Seq<char>
    decreases n,
{
    if n < 10 {
        seq![sdigit(n)]
    } else {
        sdec_nat(n / 10) + seq![sdigit(n % 10)]
    }
}

/// The decimal rendering of a value, a minus sign leading a negative one.
pub open spec fn sdec(x: int) -> Seq<char> {
    if x < 0 {
        seq!['-'] + sdec_nat(-x)
    } else {
        sdec_nat(x)
    }
}

/// Appends one decimal digit character.
fn push_digit(s: &mut String, d: i64)
    requires
        0 <= d < 10,
    ensures
        final(s)@ == old(s)@ + seq![sdigit(d as int)],
{
    if d == 0 {
        s.append("0");
        proof {
            reveal_strlit("0");
            assert("0"@ =~= seq![sdigit(0)]);
        }
    } else if d == 1 {
        s.append("1");
        proof {
            reveal_strlit("1");
            assert("1"@ =~= seq![sdigit(1)]);
        }
    } else if d == 2 {
        s.append("2");
        proof {
            reveal_strlit("2");
            assert("2"@ =~= seq![sdigit(2)]);
        }
    } else if d == 3 {
        s.append("3");
        proof {
            reveal_strlit("3");
            assert("3"@ =~= seq![sdigit(3)]);
        }
    } else if d == 4 {
        s.append("4");
        proof {
            reveal_strlit("4");
            assert("4"@ =~= seq![sdigit(4)]);
        }
    } else if d == 5 {
        s.append("5");
        proof {
            reveal_strlit("5");
            assert("5"@ =~= seq![sdigit(5)]);
        }
    } else if d == 6 {
        s.append("6");
        proof {
            reveal_strlit("6");
            assert("6"@ =~= seq![sdigit(6)]);
        }
    } else if d == 7 {
        s.append("7");
        proof {
            reveal_strlit("7");
            assert("7"@ =~= seq![sdigit(7)]);
        }
    } else if d == 8 {
        s.append("8");
        proof {
            reveal_strlit("8");
            assert("8"@ =~= seq![sdigit(8)]);
        }
    } else {
        s.append("9");
        proof {
            reveal_strlit("9");
            assert("9"@ =~= seq![sdigit(9)]);
        }
    }
}

/// Appends the decimal digits of a non-negative value.
fn push_dec_nat(s: &mut String, m: i64)
    requires
        0 <= m,
    ensures
        final(s)@ == old(s)@ + sdec_nat(m as int),
    decreases m,
{
    if m >= 10 {
        push_dec_nat(s, m / 10);
        push_digit(s, m % 10);
        proof {
            assert(old(s)@ + sdec_nat((m / 10) as int) + seq![sdigit((m % 10) as int)] =~= old(
                s,
            )@ + sdec_nat(m as int));
        }
    } else {
        push_digit(s, m);
    }
}

/// Appends the decimal rendering of a value.
fn push_dec(s: &mut String, x: i32)
    ensures
        final(s)@ == old(s)@ + sdec(x as int),
{
    if x < 0 {
        s.append("-");
        proof {
            reveal_strlit("-");
            assert("-"@ =~= seq!['-']);
        }
        let m: i64 = -(x as i64);
        push_dec_nat(s, m);
        proof {
            assert(old(s)@ + seq!['-'] + sdec_nat(m as int) =~= old(s)@ + sdec(x as int));
        }
    } else {
        push_dec_nat(s, x as i64);
    }
}

/// The textual rendering of a call instruction's argument slots: each of
/// the six, used or not, as `, r<id>`.
pub open spec fn scall_args(args: Seq<int>) -> Seq<char>
    decreases args,
{
    if args.len() == 0 {
        Seq::<char>::empty()
    } else {
        scall_args(args.subrange(0, args.len() - 1)) + ", r"@ + sdec(args[args.len() - 1])
    }
}

/// The textual rendering of one instruction, by its opcode's shape.
pub open spec fn stostr(i: SIR) -> Seq<char> {
    match sshape(i.op) {
        IRInfoType::LABEL => ".L"@ + sdec(i.lhs) + ":"@,
        IRInfoType::REG => smnemonic(i.op) + " r"@ + sdec(i.lhs),
        IRInfoType::REG_REG => smnemonic(i.op) + " r"@ + sdec(i.lhs) + ", r"@ + sdec(i.rhs),
        IRInfoType::REG_IMM => smnemonic(i.op) + " r"@ + sdec(i.lhs) + ", "@ + sdec(i.rhs),
        IRInfoType::REG_LABEL => smnemonic(i.op) + " r"@ + sdec(i.lhs) + ", .L"@ + sdec(i.rhs),
        IRInfoType::CALL => "r"@ + sdec(i.lhs) + " = "@ + i.name + "("@ + scall_args(i.args)
            + ")"@,
        IRInfoType::NOARG => smnemonic(i.op),
        IRInfoType::NULL => Seq::<char>::empty(),
    }
}

/// Renders one instruction for the debug dump, as [`stostr`] says. A call
/// prints all six argument slots after a leading comma, as the table-driven
/// formatter always has.
#[verifier::rlimit(100)]
#[verifier::loop_isolation(false)]
pub fn tostr(ir: &IR) -> (r: String)
    requires
        sshape(ir.op) != IRInfoType::NULL,
    ensures
        r@ == stostr(irv(*ir)),
{
    let info = get_irinfo(ir);
    let mut s = String::new();
    match info.ty {
        IRInfoType::LABEL => {
            s.append(".L");
            push_dec(&mut s, ir.lhs);
            s.append(":");
            proof {
                assert(s@ =~= ".L"@ + sdec(ir.lhs as int) + ":"@);
            }
        },
        IRInfoType::REG => {
            s.append(info.name.as_str());
            s.append(" r");
            push_dec(&mut s, ir.lhs);
            proof {
                assert(s@ =~= smnemonic(ir.op) + " r"@ + sdec(ir.lhs as int));
            }
        },
        IRInfoType::REG_REG => {
            s.append(info.name.as_str());
            s.append(" r");
            push_dec(&mut s, ir.lhs);
            s.append(", r");
            push_dec(&mut s, ir.rhs);
            proof {
                assert(s@ =~= smnemonic(ir.op) + " r"@ + sdec(ir.lhs as int) + ", r"@ + sdec(
                    ir.rhs as int,
                ));
            }
        },
        IRInfoType::REG_IMM => {
            s.append(info.name.as_str());
            s.append(" r");
            push_dec(&mut s, ir.lhs);
            s.append(", ");
            push_dec(&mut s, ir.rhs);
            proof {
                assert(s@ =~= smnemonic(ir.op) + " r"@ + sdec(ir.lhs as int) + ", "@ + sdec(
                    ir.rhs as int,
                ));
            }
        },
        IRInfoType::REG_LABEL => {
            s.append(info.name.as_str());
            s.append(" r");
            push_dec(&mut s, ir.lhs);
            s.append(", .L");
            push_dec(&mut s, ir.rhs);
            proof {
                assert(s@ =~= smnemonic(ir.op) + " r"@ + sdec(ir.lhs as int) + ", .L"@ + sdec(
                    ir.rhs as int,
                ));
            }
        },
        IRInfoType::CALL => {
            s.append("r");
            push_dec(&mut s, ir.lhs);
            s.append(" = ");
            s.append(ir.name.as_str());
            s.append("(");
            let ghost head = s@;
            let ghost sargs = irv(*ir).args;
            proof {
                assert(sargs.take(0) =~= Seq::<int>::empty());
                assert(scall_args(Seq::<int>::empty()) =~= Seq::<char>::empty());
                assert(s@ =~= head + scall_args(sargs.take(0)));
            }
            let mut k: usize = 0;
            while k < 6
                invariant
                    k <= 6,
                    s@ == head + scall_args(sargs.take(k as int)),
                decreases 6 - k,
            {
                s.append(", r");
                push_dec(&mut s, ir.args[k]);
                proof {
                    let t1 = sargs.take(k as int + 1);
                    assert(t1.subrange(0, k as int) =~= sargs.take(k as int));
                    assert(t1[k as int] == sargs[k as int]);
                    assert(sargs[k as int] == ir.args@[k as int] as int);
                    assert(s@ =~= head + scall_args(t1));
                }
                k = k + 1;
            }
            s.append(")");
            proof {
                assert(sargs.take(6) =~= sargs);
                assert(s@ =~= "r"@ + sdec(ir.lhs as int) + " = "@ + ir.name@ + "("@ + scall_args(
                    sargs,
                ) + ")"@);
            }
        },
        IRInfoType::NOARG => {
            s.append(info.name.as_str());
            proof {
                assert(s@ =~= smnemonic(ir.op));
            }
        },
        IRInfoType::NULL => {
            proof {
                assert(false);
            }
        },
    }
    s
}

} // verus!
