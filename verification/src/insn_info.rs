//! Projection of decoded instructions into control-flow edges.
//!
//! A resolved branch target maps one-to-one onto edge kinds; a `br_table`'s
//! individual entries collapse into a single indirect edge, since per-case
//! targets cannot be represented downstream. Independently of the recorded
//! target, `unreachable` yields an exception edge, `return` a return edge,
//! and `call` a call edge through the module's function-address list — with
//! no edge when the index names no decoded function. `call_indirect`
//! deliberately yields no edge: a plain indirect edge would wrongly say the
//! call does not return. The size-field and locals-vector byte ranges are
//! exposed as zero-edge pseudo-instructions so a caller can walk a
//! function's whole byte range without gaps.

use crate::insn::{Op, OpModel};
use crate::module_data::{
    lemma_tile_unique, lookup_addr, BranchTarget, BranchTargetAddr, ModuleData, OperatorData,
    TargetModel,
};
use vstd::prelude::*;

verus! {

/// One control-flow edge of an instruction, in the vocabulary the host
/// understands.
#[derive(Debug, Clone, Copy, PartialEq, Eq, Structural)]
pub enum Edge {
    /// An unconditional jump to the address.
    Unconditional(u64),
    /// The taken edge of a conditional branch.
    TrueBranch(u64),
    /// The fall-through edge of a conditional branch.
    FalseBranch(u64),
    /// A jump whose targets cannot be enumerated downstream.
    Indirect,
    /// A return from the function.
    FunctionReturn,
    /// A call to the function at the address.
    Call(u64),
    /// An exception: control does not continue.
    Exception,
}

/// One queryable instruction: its byte length and its control-flow edges.
#[derive(Debug)]
pub struct InstructionSummary {
    /// The instruction's length in bytes.
    pub length: usize,
    /// The instruction's control-flow edges.
    pub edges: Vec<Edge>,
}

/// No edges at all.
pub open spec fn no_edges() -> Seq<Edge> {
    Seq::empty()
}

/// The view of an optional resolved target.
pub open spec fn target_model(t: Option<BranchTargetAddr>) -> Option<TargetModel<u64>> {
    match t {
        Some(bt) => Some(bt@),
        None => None,
    }
}

/// The edges a resolved branch target projects to: unconditional,
/// true/false, one collapsed indirect edge for a table, and a return edge
/// for the function-level `end`.
pub open spec fn target_edges(t: Option<TargetModel<u64>>) -> Seq<Edge> {
    match t {
        None => no_edges(),
        Some(TargetModel::Unconditional(a)) => seq![Edge::Unconditional(a)],
        Some(TargetModel::Conditional { true_target, false_target }) => seq![
            Edge::TrueBranch(true_target),
            Edge::FalseBranch(false_target),
        ],
        Some(TargetModel::Table { .. }) => seq![Edge::Indirect],
        Some(TargetModel::FunctionEnd) => seq![Edge::FunctionReturn],
    }
}

/// The extra edges an opcode carries regardless of its recorded target:
/// `unreachable`, `return`, and `call` through the function-address list.
/// `call_indirect` carries none, deliberately.
pub open spec fn op_extra_edges(op: OpModel, call_target: Option<u64>) -> Seq<Edge> {
    match op {
        OpModel::Unreachable => seq![Edge::Exception],
        OpModel::Return => seq![Edge::FunctionReturn],
        OpModel::Call { .. } => match call_target {
            Some(a) => seq![Edge::Call(a)],
            None => no_edges(),
        },
        _ => no_edges(),
    }
}

/// All edges of one decoded operator, given the module's function-address
/// list.
pub open spec fn op_edges(od: OperatorData, pairs: Seq<(u64, u64)>) -> Seq<Edge> {
    target_edges(target_model(od.target)) + op_extra_edges(
        od.op@,
        match od.op@ {
            OpModel::Call { function_index } => lookup_addr(pairs, function_index as u64),
            _ => None,
        },
    )
}

/// Answers a by-address query against the module index: `None` when the
/// address is no instruction boundary of any decoded function, otherwise
/// the instruction's byte length and control-flow edges. The size-field and
/// locals-vector ranges answer as zero-edge pseudo-instructions.
#[verifier::rlimit(60)]
pub fn instruction_info(md: &ModuleData, addr: u64) -> (r: Option<InstructionSummary>)
    requires
        md.wf(),
    ensures
        match r {
            Some(s) => md.funcs@.dom().contains(addr) && ({
                let f = md.functions@[md.funcs@[addr] as int].0;
                &&& (addr == f.size_start || addr == f.locals_start || exists|i: int|
                    0 <= i < f.ops@.len() && (#[trigger] f.ops@[i]).offset == addr)
                &&& if addr == f.size_start {
                    s.length == (f.locals_start - f.size_start) as usize && s.edges@ == no_edges()
                } else if addr == f.locals_start {
                    s.length == (f.ops_start - f.locals_start) as usize && s.edges@ == no_edges()
                } else {
                    forall|i: int|
                        (0 <= i < f.ops@.len() && (#[trigger] f.ops@[i]).offset == addr) ==> (
                        s.length == f.ops@[i].size && s.edges@ == op_edges(
                            f.ops@[i],
                            md.func_addrs@,
                        ))
                }
            }),
            None => md.funcs@.dom().contains(addr) ==> ({
                let f = md.functions@[md.funcs@[addr] as int].0;
                &&& addr != f.size_start
                &&& addr != f.locals_start
                &&& forall|i: int| 0 <= i < f.ops@.len() ==> (#[trigger] f.ops@[i]).offset != addr
            }),
        },
{
    let fa = match md.function_at(addr) {
        Some(fa) => fa,
        None => {
            return None;
        },
    };
    let f = fa.get();
    if addr == f.size_start {
        return Some(
            InstructionSummary {
                length: (f.locals_start - f.size_start) as usize,
                edges: Vec::new(),
            },
        );
    }
    if addr == f.locals_start {
        return Some(
            InstructionSummary {
                length: (f.ops_start - f.locals_start) as usize,
                edges: Vec::new(),
            },
        );
    }
    let od = match f.op_at(addr) {
        Some(od) => od,
        None => {
            return None;
        },
    };
    let mut edges: Vec<Edge> = Vec::new();
    match &od.target {
        None => {},
        Some(BranchTarget::Unconditional(a)) => {
            edges.push(Edge::Unconditional(*a));
        },
        Some(BranchTarget::Conditional { true_target, false_target }) => {
            edges.push(Edge::TrueBranch(*true_target));
            edges.push(Edge::FalseBranch(*false_target));
        },
        Some(BranchTarget::Table { .. }) => {
            edges.push(Edge::Indirect);
        },
        Some(BranchTarget::FunctionEnd) => {
            edges.push(Edge::FunctionReturn);
        },
    }
    let ghost base_edges = edges@;
    proof {
        assert(base_edges =~= target_edges(target_model(od.target)));
    }
    match &od.op {
        Op::Unreachable => {
            edges.push(Edge::Exception);
        },
        Op::Return => {
            edges.push(Edge::FunctionReturn);
        },
        Op::Call { function_index } => {
            match md.call_target(*function_index) {
                Some(a) => {
                    edges.push(Edge::Call(a));
                },
                None => {},
            }
        },
        Op::CallIndirect => {
            // Deliberately no edge: downstream's indirect edge would wrongly
            // say the call does not return.
        },
        _ => {},
    }
    proof {
        assert(edges@ =~= op_edges(*od, md.func_addrs@));
    }
    let s = InstructionSummary { length: od.size, edges };
    proof {
        let fv = md.functions@[md.funcs@[addr] as int].0;
        let i0 = choose|i: int|
            0 <= i < fv.ops@.len() && fv.ops@[i] == *od && od.offset == addr;
        assert(fv.ops@[i0].offset == addr);
        assert forall|i: int|
            (0 <= i < fv.ops@.len() && (#[trigger] fv.ops@[i]).offset == addr) implies (s.length
            == fv.ops@[i].size && s.edges@ == op_edges(fv.ops@[i], md.func_addrs@)) by {
            assert(fv.ops@[i].size >= 1);
            assert(fv.ops@[i0].size >= 1);
            lemma_tile_unique(fv.ops@, fv.ops_start as int, fv.end as int, i, i0, addr as int);
        }
    }
    Some(s)
}

/// Answers the lifting query the host makes for the two structural
/// pseudo-instructions: their byte length, with nothing lifted; a real
/// operator's address answers `None`.
pub fn header_info(md: &ModuleData, addr: u64) -> (r: Option<(usize, bool)>)
    requires
        md.wf(),
    ensures
        match r {
            Some(p) => md.funcs@.dom().contains(addr) && ({
                let f = md.functions@[md.funcs@[addr] as int].0;
                &&& (addr == f.size_start || addr == f.locals_start)
                &&& p.0 == (if addr == f.size_start {
                    (f.locals_start - f.size_start) as usize
                } else {
                    (f.ops_start - f.locals_start) as usize
                })
                &&& p.1 == false
            }),
            None => md.funcs@.dom().contains(addr) ==> ({
                let f = md.functions@[md.funcs@[addr] as int].0;
                addr != f.size_start && addr != f.locals_start
            }),
        },
{
    let fa = match md.function_at(addr) {
        Some(fa) => fa,
        None => {
            return None;
        },
    };
    let f = fa.get();
    if addr == f.size_start {
        Some(((f.locals_start - f.size_start) as usize, false))
    } else if addr == f.locals_start {
        Some(((f.ops_start - f.locals_start) as usize, false))
    } else {
        None
    }
}

} // verus!
