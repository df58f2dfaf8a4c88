//! The two-phase function-body decoder.
//!
//! A branch in a WebAssembly function names an enclosing scope by relative
//! depth, not an address, and the address a branch lands on is not known
//! until the scope's closing `end` (or its `else`) is seen later in the
//! stream. The first pass therefore walks the operator stream once, keeps a
//! stack of open scopes over a growth-only arena of scope records, and
//! records a deferred label wherever a target address is not yet known. The
//! second pass, once every scope boundary is recorded, rewrites every
//! deferred label into a concrete address.

use crate::bin_util::strictly_increasing;
use crate::insn::{decode_op, op_of, FuncError, Op, OpModel};
use crate::module_data::{ops_tile, BranchTarget, BranchTargetAddr, FunctionData, OperatorData, TargetModel};
use crate::wasm_read::{op_cuts, operator_cuts};
use vstd::prelude::*;

verus! {

/// What kind of scope a block record describes. An `if` whose `else` has
/// been seen becomes `IfElse`, carrying the address just past the `else`.
#[derive(Debug, Clone, Copy, PartialEq, Eq)]
pub enum BlockKind {
    Normal,
    Function,
    Loop,
    If,
    IfElse { else_start: u64 },
}

/// One scope record in the pass-1 arena. Records are never removed, so an
/// index into the arena stays valid for the whole decode.
#[derive(Debug, Clone, Copy)]
pub struct BlockInfo {
    /// Address of the opening operator (for the implicit function scope, the
    /// address of the first operator).
    pub start: u64,
    /// Address just past the opening operator.
    pub inner_start: u64,
    /// Address just past the scope's closing `end`; written exactly once,
    /// when that `end` is seen.
    pub after: Option<u64>,
    /// The scope's kind.
    pub kind: BlockKind,
}

/// A possibly deferred branch label, referring to a block by arena index.
#[derive(Debug, Clone, Copy)]
pub enum LabelRef {
    /// An address known already in pass 1.
    Known(u64),
    /// The address just past the block's closing `end`.
    After(usize),
    /// Where a `br` into the block lands: the block's start for a loop, the
    /// address just past its `end` otherwise.
    BreakOf(usize),
    /// Where the false edge of an `if` lands: its `else_start` when an
    /// `else` appeared, the address just past its `end` otherwise.
    ElseOf(usize),
}

/// An operator as pass 1 records it, its branch target still deferred.
#[derive(Debug)]
pub struct PendingOp {
    /// Absolute address of the operator's first byte.
    pub offset: u64,
    /// The operator's length in bytes.
    pub size: usize,
    /// The operator's classification.
    pub op: Op,
    /// The deferred branch target, for operators that carry one.
    pub target: Option<BranchTarget<LabelRef>>,
}

// ---------------------------------------------------------------------------
// The scope discipline: when pass 1 succeeds.
// ---------------------------------------------------------------------------

/// Every listed depth names an open scope.
pub open spec fn all_below(targets: Seq<u32>, n: int) -> bool {
    forall|i: int| 0 <= i < targets.len() ==> (#[trigger] targets[i]) < n
}

/// The model of a deferred target as pass 1 records it.
pub open spec fn deferred_model(t: Option<BranchTarget<LabelRef>>) -> Option<TargetModel<
    LabelRef,
>> {
    match t {
        Some(bt) => Some(bt@),
        None => None,
    }
}

/// The deferred-target models of a recorded operator sequence.
pub open spec fn deferred_models(ops: Seq<PendingOp>) -> Seq<Option<TargetModel<LabelRef>>> {
    ops.map_values(|o: PendingOp| deferred_model(o.target))
}

/// One step of the spec-level first pass: how the operator at `offset`
/// (whose successor sits at `next`) extends the recorded target, the scope
/// arena and the stack of open scopes. `None` where the operator is
/// structurally invalid: an `else` whose innermost open scope is not an
/// `if`, an `end` with no open scope, or a branch depth with no matching
/// scope.
pub open spec fn pass1_step(
    op: OpModel,
    offset: u64,
    next: u64,
    blocks: Seq<BlockInfo>,
    stack: Seq<usize>,
) -> Option<(Option<TargetModel<LabelRef>>, Seq<BlockInfo>, Seq<usize>)> {
    match op {
        OpModel::Block => Some(
            (
                None,
                blocks.push(
                    BlockInfo {
                        start: offset,
                        inner_start: next,
                        after: None,
                        kind: BlockKind::Normal,
                    },
                ),
                stack.push(blocks.len() as usize),
            ),
        ),
        OpModel::Loop => Some(
            (
                None,
                blocks.push(
                    BlockInfo {
                        start: offset,
                        inner_start: next,
                        after: None,
                        kind: BlockKind::Loop,
                    },
                ),
                stack.push(blocks.len() as usize),
            ),
        ),
        OpModel::If => Some(
            (
                Some(
                    TargetModel::Conditional {
                        true_target: LabelRef::Known(next),
                        false_target: LabelRef::ElseOf(blocks.len() as usize),
                    },
                ),
                blocks.push(
                    BlockInfo { start: offset, inner_start: next, after: None, kind: BlockKind::If },
                ),
                stack.push(blocks.len() as usize),
            ),
        ),
        OpModel::Else => if stack.len() > 0 && blocks[stack.last() as int].kind is If {
            Some(
                (
                    Some(TargetModel::Unconditional(LabelRef::After(stack.last()))),
                    blocks.update(
                        stack.last() as int,
                        BlockInfo {
                            start: blocks[stack.last() as int].start,
                            inner_start: blocks[stack.last() as int].inner_start,
                            after: blocks[stack.last() as int].after,
                            kind: BlockKind::IfElse { else_start: next },
                        },
                    ),
                    stack,
                ),
            )
        } else {
            None
        },
        OpModel::End => if stack.len() > 0 {
            Some(
                (
                    if blocks[stack.last() as int].kind is Function {
                        Some(TargetModel::FunctionEnd)
                    } else {
                        None
                    },
                    blocks.update(
                        stack.last() as int,
                        BlockInfo {
                            start: blocks[stack.last() as int].start,
                            inner_start: blocks[stack.last() as int].inner_start,
                            after: Some(next),
                            kind: blocks[stack.last() as int].kind,
                        },
                    ),
                    stack.drop_last(),
                ),
            )
        } else {
            None
        },
        OpModel::Br { relative_depth } => if relative_depth < stack.len() {
            Some(
                (
                    Some(
                        TargetModel::Unconditional(
                            LabelRef::BreakOf(stack[stack.len() - 1 - relative_depth]),
                        ),
                    ),
                    blocks,
                    stack,
                ),
            )
        } else {
            None
        },
        OpModel::BrIf { relative_depth } => if relative_depth < stack.len() {
            Some(
                (
                    Some(
                        TargetModel::Conditional {
                            true_target: LabelRef::BreakOf(stack[stack.len() - 1 - relative_depth]),
                            false_target: LabelRef::Known(next),
                        },
                    ),
                    blocks,
                    stack,
                ),
            )
        } else {
            None
        },
        OpModel::BrTable { targets, default_depth } => if all_below(targets, stack.len() as int)
            && default_depth < stack.len() {
            Some(
                (
                    Some(
                        TargetModel::Table {
                            targets: targets.map_values(
                                |d: u32| LabelRef::BreakOf(stack[stack.len() - 1 - d]),
                            ),
                            default_target: LabelRef::BreakOf(
                                stack[stack.len() - 1 - default_depth],
                            ),
                        },
                    ),
                    blocks,
                    stack,
                ),
            )
        } else {
            None
        },
        _ => Some((None, blocks, stack)),
    }
}

/// The spec-level first pass over the first `n` operators of the stream cut
/// at `cuts`: the recorded target models in stream order, the scope arena,
/// and the stack of open scopes, starting from the implicit function scope.
/// `None` as soon as an operator is malformed or structurally invalid.
/// [`pass1`] succeeds exactly when this is `Some` for the whole stream, and
/// then returns exactly these targets and scope records.
pub open spec fn pass1_at(body: Seq<u8>, cuts: Seq<usize>, locals_start: u64, n: int) -> Option<
    (Seq<Option<TargetModel<LabelRef>>>, Seq<BlockInfo>, Seq<usize>),
>
    decreases n,
{
    if n <= 0 {
        Some(
            (
                Seq::empty(),
                seq![
                    BlockInfo {
                        start: (locals_start + cuts[0]) as u64,
                        inner_start: (locals_start + cuts[0]) as u64,
                        after: None,
                        kind: BlockKind::Function,
                    }
                ],
                seq![0usize],
            ),
        )
    } else {
        match pass1_at(body, cuts, locals_start, n - 1) {
            Some(st) => match op_of(body, cuts[n - 1] as int) {
                Some(op) => match pass1_step(
                    op,
                    (locals_start + cuts[n - 1]) as u64,
                    (locals_start + cuts[n]) as u64,
                    st.1,
                    st.2,
                ) {
                    Some(q) => Some((st.0.push(q.0), q.1, q.2)),
                    None => None,
                },
                None => None,
            },
            None => None,
        }
    }
}

/// Once the spec-level pass fails it stays failed.
pub proof fn lemma_pass1_none(body: Seq<u8>, cuts: Seq<usize>, locals_start: u64, i: int, n: int)
    requires
        0 <= i <= n,
        pass1_at(body, cuts, locals_start, i) is None,
    ensures
        pass1_at(body, cuts, locals_start, n) is None,
    decreases n - i,
{
    if i < n {
        lemma_pass1_none(body, cuts, locals_start, i, n - 1);
    }
}

proof fn lemma_models_push(pre: Seq<PendingOp>, post: Seq<PendingOp>)
    requires
        post.len() == pre.len() + 1,
        forall|i: int| 0 <= i < pre.len() ==> post[i] == pre[i],
    ensures
        deferred_models(post) =~= deferred_models(pre).push(
            deferred_model(post[post.len() - 1].target),
        ),
{
    assert forall|i: int| 0 <= i < post.len() implies deferred_models(post)[i] == deferred_models(
        pre,
    ).push(deferred_model(post[post.len() - 1].target))[i] by {
        if i < pre.len() {
            assert(post[i] == pre[i]);
        }
    }
}

// ---------------------------------------------------------------------------
// Pass-1 state invariants.
// ---------------------------------------------------------------------------

/// Every block record is ordered and bounded: it opens no earlier than the
/// operator stream, its interior begins no earlier than its start, and its
/// recorded boundaries stay within `bound`.
pub open spec fn blocks_wf(blocks: Seq<BlockInfo>, ops_start: int, bound: int) -> bool {
    forall|b: int| 0 <= b < blocks.len() ==> {
        &&& ops_start <= (#[trigger] blocks[b]).start
        &&& blocks[b].start <= blocks[b].inner_start <= bound
        &&& match blocks[b].after {
            Some(a) => blocks[b].inner_start < a <= bound,
            None => true,
        }
        &&& match blocks[b].kind {
            BlockKind::IfElse { else_start } => blocks[b].inner_start < else_start <= bound,
            _ => true,
        }
    }
}

/// Whether block index `b` is on the stack of open scopes.
pub open spec fn on_stack(stack: Seq<usize>, b: int) -> bool {
    exists|p: int| 0 <= p < stack.len() && (#[trigger] stack[p]) as int == b
}

/// The stack of open scopes holds valid, strictly increasing arena indices,
/// and a block is on it exactly while its `after` address is unwritten.
pub open spec fn stack_wf(stack: Seq<usize>, blocks: Seq<BlockInfo>) -> bool {
    &&& forall|p: int| 0 <= p < stack.len() ==> (#[trigger] stack[p]) < blocks.len()
    &&& forall|p: int, q: int| 0 <= p < q < stack.len() ==> stack[p] < stack[q]
    &&& forall|b: int|
        0 <= b < blocks.len() ==> ((#[trigger] blocks[b]).after is None <==> on_stack(stack, b))
}

/// The deferred target pass 1 records for one operator has exactly the shape
/// its opcode calls for, referring only to valid arena indices.
pub open spec fn pending_shape_at(o: PendingOp, blocks: Seq<BlockInfo>) -> bool {
    match o.op@ {
        OpModel::If => match o.target {
            Some(
                BranchTarget::Conditional {
                    true_target: LabelRef::Known(t),
                    false_target: LabelRef::ElseOf(b),
                },
            ) => {
                &&& b < blocks.len()
                &&& t == o.offset + o.size
                &&& blocks[b as int].start == o.offset
                &&& blocks[b as int].inner_start == t
                &&& (blocks[b as int].kind is If || blocks[b as int].kind is IfElse)
            },
            _ => false,
        },
        OpModel::Else => match o.target {
            Some(BranchTarget::Unconditional(LabelRef::After(b))) => {
                &&& b < blocks.len()
                &&& blocks[b as int].kind matches BlockKind::IfElse { else_start } && else_start
                    == o.offset + o.size
            },
            _ => false,
        },
        OpModel::Br { .. } => match o.target {
            Some(BranchTarget::Unconditional(LabelRef::BreakOf(b))) => b < blocks.len(),
            _ => false,
        },
        OpModel::BrIf { .. } => match o.target {
            Some(
                BranchTarget::Conditional {
                    true_target: LabelRef::BreakOf(b),
                    false_target: LabelRef::Known(f),
                },
            ) => b < blocks.len() && f == o.offset + o.size,
            _ => false,
        },
        OpModel::BrTable { .. } => match o.target {
            Some(BranchTarget::Table { targets, default_target: LabelRef::BreakOf(db) }) => {
                &&& db < blocks.len()
                &&& forall|k: int|
                    0 <= k < targets@.len() ==> ((#[trigger] targets@[k]) matches LabelRef::BreakOf(
                        tb,
                    ) && tb < blocks.len())
            },
            _ => false,
        },
        OpModel::End => o.target is None || o.target matches Some(BranchTarget::FunctionEnd),
        _ => o.target is None,
    }
}

/// Every recorded operator has a well-shaped deferred target.
pub open spec fn pending_shape(ops: Seq<PendingOp>, blocks: Seq<BlockInfo>) -> bool {
    forall|j: int| 0 <= j < ops.len() ==> pending_shape_at(#[trigger] ops[j], blocks)
}

/// Each recorded operator sits at its cut point, is as long as the gap to
/// the next cut, and is classified from the bytes at its cut.
pub open spec fn ops_match_cuts(
    ops: Seq<PendingOp>,
    body: Seq<u8>,
    cuts: Seq<usize>,
    locals_start: int,
) -> bool {
    forall|j: int| 0 <= j < ops.len() ==> {
        &&& (#[trigger] ops[j]).offset == locals_start + cuts[j]
        &&& ops[j].size == cuts[j + 1] - cuts[j]
        &&& op_of(body, cuts[j] as int) == Some(ops[j].op@)
    }
}

// ---------------------------------------------------------------------------
// Frame-abstraction lemmas.
// ---------------------------------------------------------------------------

proof fn lemma_stack_push_wf(stack: Seq<usize>, blocks: Seq<BlockInfo>, nb: BlockInfo, nid: usize)
    requires
        stack_wf(stack, blocks),
        nid as int == blocks.len(),
        nb.after is None,
    ensures
        stack_wf(stack.push(nid), blocks.push(nb)),
{
    let s2 = stack.push(nid);
    let b2 = blocks.push(nb);
    assert forall|p: int| 0 <= p < s2.len() implies (#[trigger] s2[p]) < b2.len() by {
        if p < stack.len() {
            assert(s2[p] == stack[p]);
        } else {
            assert(s2[p] == nid);
        }
    }
    assert forall|p: int, q: int| 0 <= p < q < s2.len() implies s2[p] < s2[q] by {
        if q < stack.len() {
            assert(s2[p] == stack[p] && s2[q] == stack[q]);
        } else {
            assert(s2[q] == nid);
            assert(s2[p] == stack[p]);
            assert(stack[p] < blocks.len());
        }
    }
    assert forall|b: int| 0 <= b < b2.len() implies ((#[trigger] b2[b]).after is None <==> on_stack(
        s2,
        b,
    )) by {
        if b < blocks.len() {
            assert(b2[b] == blocks[b]);
            if on_stack(stack, b) {
                let p = choose|p: int| 0 <= p < stack.len() && (#[trigger] stack[p]) as int == b;
                assert(s2[p] == stack[p]);
                assert(on_stack(s2, b));
            }
            if on_stack(s2, b) {
                let p = choose|p: int| 0 <= p < s2.len() && (#[trigger] s2[p]) as int == b;
                if p < stack.len() {
                    assert(stack[p] == s2[p]);
                    assert(on_stack(stack, b));
                } else {
                    assert(s2[p] == nid);
                }
            }
        } else {
            assert(b == nid as int);
            assert(s2[stack.len() as int] == nid);
            assert(on_stack(s2, b));
        }
    }
}

proof fn lemma_stack_update_wf(stack: Seq<usize>, blocks: Seq<BlockInfo>, b: usize, nb: BlockInfo)
    requires
        stack_wf(stack, blocks),
        (b as int) < blocks.len(),
        nb.after == blocks[b as int].after,
    ensures
        stack_wf(stack, blocks.update(b as int, nb)),
{
    let b2 = blocks.update(b as int, nb);
    assert forall|bb: int| 0 <= bb < b2.len() implies ((#[trigger] b2[bb]).after is None
        <==> on_stack(stack, bb)) by {
        if bb != b as int {
            assert(b2[bb] == blocks[bb]);
        } else {
            assert(b2[bb].after == blocks[bb].after);
        }
    }
}

// ---------------------------------------------------------------------------
// Pass 1.
// ---------------------------------------------------------------------------

/// Looks up the arena index of the open scope at relative depth `d`,
/// 0 naming the innermost.
fn nth_block(stack: &Vec<usize>, d: u32) -> (r: Option<usize>)
    ensures
        match r {
            Some(b) => (d as int) < stack@.len() && b == stack@[stack@.len() - 1 - d as int],
            None => (d as int) >= stack@.len(),
        },
{
    let n: usize = stack.len();
    if (d as usize) < n {
        Some(stack[n - 1 - d as usize])
    } else {
        None
    }
}

/// Pass 1: walks the operator stream once, given the cut points of its
/// operators, and returns the recorded operators with deferred targets
/// together with the completed scope arena — exactly the targets and scope
/// records that the spec-level pass [`pass1_at`] computes. Fails exactly
/// when that pass does.
#[verifier::loop_isolation(false)]
#[verifier::rlimit(100)]
pub fn pass1(body: &Vec<u8>, locals_start: u64, cuts: &Vec<usize>) -> (r: Result<
    (Vec<PendingOp>, Vec<BlockInfo>),
    FuncError,
>)
    requires
        cuts@.len() >= 1,
        strictly_increasing(cuts@),
        cuts@[cuts@.len() - 1] == body@.len(),
        locals_start + body@.len() <= u64::MAX,
    ensures
        match r {
            Ok(p) => {
                &&& (pass1_at(body@, cuts@, locals_start, cuts@.len() - 1) matches Some(q) && {
                    &&& q.0 == deferred_models(p.0@)
                    &&& q.1 == p.1@
                })
                &&& p.0@.len() == cuts@.len() - 1
                &&& ops_match_cuts(p.0@, body@, cuts@, locals_start as int)
                &&& pending_shape(p.0@, p.1@)
                &&& blocks_wf(
                    p.1@,
                    (locals_start + cuts@[0]) as int,
                    (locals_start + body@.len()) as int,
                )
                &&& p.1@.len() >= 1
                &&& p.1@[0].kind is Function
                &&& p.1@[0].start == locals_start + cuts@[0]
            },
            Err(e) => pass1_at(body@, cuts@, locals_start, cuts@.len() - 1) is None && (e
                == FuncError::MalformedBody || e == FuncError::BadDepth || e
                == FuncError::MisplacedElse || e == FuncError::MisplacedEnd),
        },
{
    let m: usize = cuts.len() - 1;
    let first: usize = cuts[0];
    proof {
        if m > 0 {
            assert(cuts@[0] < cuts@[m as int]);
        }
    }
    let start0: u64 = locals_start + first as u64;
    let mut blocks: Vec<BlockInfo> = Vec::new();
    let mut stack: Vec<usize> = Vec::new();
    blocks.push(
        BlockInfo { start: start0, inner_start: start0, after: None, kind: BlockKind::Function },
    );
    stack.push(0);
    let mut ops: Vec<PendingOp> = Vec::new();
    proof {
        assert(stack@[0] == 0usize);
        assert(on_stack(stack@, 0));
        assert(deferred_models(ops@) =~= Seq::<Option<TargetModel<LabelRef>>>::empty());
        assert(blocks@ =~= seq![
            BlockInfo {
                start: (locals_start + cuts@[0]) as u64,
                inner_start: (locals_start + cuts@[0]) as u64,
                after: None,
                kind: BlockKind::Function,
            },
        ]);
        assert(stack@ =~= seq![0usize]);
    }
    let mut j: usize = 0;
    while j < m
        invariant
            0 <= j <= m,
            ops@.len() == j,
            pass1_at(body@, cuts@, locals_start, j as int) == Some(
                (deferred_models(ops@), blocks@, stack@),
            ),
            stack_wf(stack@, blocks@),
            blocks_wf(
                blocks@,
                (locals_start + cuts@[0]) as int,
                (locals_start + cuts@[j as int]) as int,
            ),
            pending_shape(ops@, blocks@),
            ops_match_cuts(ops@, body@, cuts@, locals_start as int),
            blocks@.len() >= 1,
            blocks@[0].kind is Function,
            blocks@[0].start == locals_start + cuts@[0],
        decreases m - j,
    {
        proof {
            if j + 1 < m {
                assert(cuts@[j + 1] < cuts@[m as int]);
            }
            assert(cuts@[j as int] < cuts@[j + 1]);
        }
        let off_rel: usize = cuts[j];
        let next_rel: usize = cuts[j + 1];
        let offset: u64 = locals_start + off_rel as u64;
        let next: u64 = locals_start + next_rel as u64;
        let size: usize = next_rel - off_rel;
        let ghost blocks0 = blocks@;
        let ghost stack0 = stack@;
        let op: Op = match decode_op(body, off_rel) {
            Ok(op) => op,
            Err(_) => {
                proof {
                    lemma_pass1_none(body@, cuts@, locals_start, j + 1, cuts@.len() - 1);
                }
                return Err(FuncError::MalformedBody);
            },
        };
        let target: Option<BranchTarget<LabelRef>>;
        match &op {
            Op::Block => {
                let bid: usize = blocks.len();
                let nb = BlockInfo {
                    start: offset,
                    inner_start: next,
                    after: None,
                    kind: BlockKind::Normal,
                };
                proof {
                    lemma_stack_push_wf(stack@, blocks@, nb, bid);
                }
                blocks.push(nb);
                stack.push(bid);
                target = None;
            },
            Op::Loop => {
                let bid: usize = blocks.len();
                let nb = BlockInfo {
                    start: offset,
                    inner_start: next,
                    after: None,
                    kind: BlockKind::Loop,
                };
                proof {
                    lemma_stack_push_wf(stack@, blocks@, nb, bid);
                }
                blocks.push(nb);
                stack.push(bid);
                target = None;
            },
            Op::If => {
                let bid: usize = blocks.len();
                let nb = BlockInfo {
                    start: offset,
                    inner_start: next,
                    after: None,
                    kind: BlockKind::If,
                };
                proof {
                    lemma_stack_push_wf(stack@, blocks@, nb, bid);
                }
                blocks.push(nb);
                stack.push(bid);
                target = Some(
                    BranchTarget::Conditional {
                        true_target: LabelRef::Known(next),
                        false_target: LabelRef::ElseOf(bid),
                    },
                );
            },
            Op::Else => {
                if stack.len() == 0 {
                    proof {
                        lemma_pass1_none(body@, cuts@, locals_start, j + 1, cuts@.len() - 1);
                    }
                    return Err(FuncError::MisplacedElse);
                }
                let b: usize = stack[stack.len() - 1];
                let ob = blocks[b];
                match ob.kind {
                    BlockKind::If => {
                        let nb = BlockInfo {
                            start: ob.start,
                            inner_start: ob.inner_start,
                            after: ob.after,
                            kind: BlockKind::IfElse { else_start: next },
                        };
                        let ghost pre_update = blocks@;
                        proof {
                            lemma_stack_update_wf(stack@, blocks@, b, nb);
                        }
                        blocks.set(b, nb);
                        target = Some(BranchTarget::Unconditional(LabelRef::After(b)));
                        proof {
                            assert forall|jj: int| 0 <= jj < ops@.len() implies pending_shape_at(
                                #[trigger] ops@[jj],
                                blocks@,
                            ) by {
                                assert(pending_shape_at(ops@[jj], pre_update));
                            }
                        }
                    },
                    _ => {
                        proof {
                            assert(!(blocks0[stack0.last() as int].kind is If));
                            assert(pass1_step(op@, offset, next, blocks0, stack0) is None);
                            lemma_pass1_none(body@, cuts@, locals_start, j + 1, cuts@.len() - 1);
                        }
                        return Err(FuncError::MisplacedElse);
                    },
                }
            },
            Op::End => {
                let ghost pre_stack = stack@;
                match stack.pop() {
                    Some(b) => {
                        proof {
                            assert(pre_stack[pre_stack.len() - 1] < blocks@.len());
                            assert(stack@ =~= pre_stack.subrange(0, pre_stack.len() - 1));
                        }
                        let ob = blocks[b];
                        let nb = BlockInfo {
                            start: ob.start,
                            inner_start: ob.inner_start,
                            after: Some(next),
                            kind: ob.kind,
                        };
                        proof {
                            assert(on_stack(pre_stack, b as int));
                        }
                        blocks.set(b, nb);
                        target = if matches!(ob.kind, BlockKind::Function) {
                            Some(BranchTarget::FunctionEnd)
                        } else {
                            None
                        };
                        proof {
                            assert forall|bb: int|
                                0 <= bb < blocks@.len() implies ((#[trigger] blocks@[bb]).after
                                is None <==> on_stack(stack@, bb)) by {
                                if bb == b as int {
                                    assert(blocks@[bb].after is Some);
                                    if on_stack(stack@, bb) {
                                        let p = choose|p: int|
                                            0 <= p < stack@.len() && (#[trigger] stack@[p]) as int
                                                == bb;
                                        assert(pre_stack[p] == stack@[p]);
                                        assert(pre_stack[p] < pre_stack[pre_stack.len() - 1]);
                                        assert(false);
                                    }
                                } else {
                                    if on_stack(pre_stack, bb) {
                                        let p = choose|p: int|
                                            0 <= p < pre_stack.len() && (#[trigger] pre_stack[p])
                                                as int == bb;
                                        if p < pre_stack.len() - 1 {
                                            assert(stack@[p] == pre_stack[p]);
                                            assert(on_stack(stack@, bb));
                                        } else {
                                            assert(pre_stack[p] == b);
                                        }
                                    }
                                    if on_stack(stack@, bb) {
                                        let p = choose|p: int|
                                            0 <= p < stack@.len() && (#[trigger] stack@[p]) as int
                                                == bb;
                                        assert(pre_stack[p] == stack@[p]);
                                        assert(on_stack(pre_stack, bb));
                                    }
                                }
                            }
                        }
                    },
                    None => {
                        proof {
                            lemma_pass1_none(body@, cuts@, locals_start, j + 1, cuts@.len() - 1);
                        }
                        return Err(FuncError::MisplacedEnd);
                    },
                }
            },
            Op::Br { relative_depth } => {
                match nth_block(&stack, *relative_depth) {
                    Some(b) => {
                        target = Some(BranchTarget::Unconditional(LabelRef::BreakOf(b)));
                    },
                    None => {
                        proof {
                            lemma_pass1_none(body@, cuts@, locals_start, j + 1, cuts@.len() - 1);
                        }
                        return Err(FuncError::BadDepth);
                    },
                }
            },
            Op::BrIf { relative_depth } => {
                match nth_block(&stack, *relative_depth) {
                    Some(b) => {
                        target = Some(
                            BranchTarget::Conditional {
                                true_target: LabelRef::BreakOf(b),
                                false_target: LabelRef::Known(next),
                            },
                        );
                    },
                    None => {
                        proof {
                            lemma_pass1_none(body@, cuts@, locals_start, j + 1, cuts@.len() - 1);
                        }
                        return Err(FuncError::BadDepth);
                    },
                }
            },
            Op::BrTable { targets, default_depth } => {
                proof {
                    assert(op@ == (OpModel::BrTable {
                        targets: targets@,
                        default_depth: *default_depth,
                    }));
                }
                let tn: usize = targets.len();
                let mut labs: Vec<LabelRef> = Vec::new();
                let mut k: usize = 0;
                while k < tn
                    invariant
                        0 <= k <= tn,
                        labs@.len() == k,
                        forall|p: int|
                            0 <= p < k ==> ((#[trigger] labs@[p]) matches LabelRef::BreakOf(bb)
                                && bb < blocks@.len()),
                        forall|p: int| 0 <= p < k ==> (#[trigger] targets@[p]) < stack@.len(),
                        forall|p: int|
                            0 <= p < k ==> (#[trigger] labs@[p]) == LabelRef::BreakOf(
                                stack@[stack@.len() - 1 - targets@[p]],
                            ),
                    decreases tn - k,
                {
                    match nth_block(&stack, targets[k]) {
                        Some(bb) => {
                            labs.push(LabelRef::BreakOf(bb));
                            k = k + 1;
                        },
                        None => {
                            proof {
                                assert(!((targets@[k as int]) < stack0.len()));
                                assert(!all_below(targets@, stack0.len() as int));
                                assert(op@ == (OpModel::BrTable {
                                    targets: targets@,
                                    default_depth: *default_depth,
                                }));
                                assert(pass1_step(op@, offset, next, blocks0, stack0) is None);
                                lemma_pass1_none(body@, cuts@, locals_start, j + 1, cuts@.len() - 1);
                            }
                            return Err(FuncError::BadDepth);
                        },
                    }
                }
                match nth_block(&stack, *default_depth) {
                    Some(db) => {
                        proof {
                            assert(labs@ =~= targets@.map_values(
                                |d: u32| LabelRef::BreakOf(stack0[stack0.len() - 1 - d]),
                            ));
                        }
                        target = Some(
                            BranchTarget::Table { targets: labs, default_target: LabelRef::BreakOf(db) },
                        );
                    },
                    None => {
                        proof {
                            assert(!((default_depth as int) < stack0.len()));
                            assert(op@ == (OpModel::BrTable {
                                targets: targets@,
                                default_depth: *default_depth,
                            }));
                            assert(pass1_step(op@, offset, next, blocks0, stack0) is None);
                            lemma_pass1_none(body@, cuts@, locals_start, j + 1, cuts@.len() - 1);
                        }
                        return Err(FuncError::BadDepth);
                    },
                }
            },
            _ => {
                target = None;
            },
        }
        proof {
            assert(offset == (locals_start + cuts@[j as int]) as u64);
            assert(next == (locals_start + cuts@[j + 1]) as u64);
            assert(pass1_step(op@, offset, next, blocks0, stack0) == Some(
                (deferred_model(target), blocks@, stack@),
            ));
        }
        let ghost pre_ops = ops@;
        ops.push(PendingOp { offset, size, op, target });
        proof {
            lemma_models_push(pre_ops, ops@);
        }
        j = j + 1;
    }
    Ok((ops, blocks))
}

// ---------------------------------------------------------------------------
// Pass 2: label resolution.
// ---------------------------------------------------------------------------

/// Where a deferred label lands once every scope boundary is known. `None`
/// when the label refers to a scope whose closing `end` was never seen.
///
/// A break into a loop lands on the loop's start (the back edge); a break
/// into any other scope kind lands just past the scope's closing `end`.
pub open spec fn resolve_label_spec(blocks: Seq<BlockInfo>, lab: LabelRef) -> Option<u64> {
    match lab {
        LabelRef::Known(a) => Some(a),
        LabelRef::After(b) => if (b as int) < blocks.len() {
            blocks[b as int].after
        } else {
            None
        },
        LabelRef::BreakOf(b) => if (b as int) < blocks.len() {
            if blocks[b as int].kind is Loop {
                Some(blocks[b as int].start)
            } else {
                blocks[b as int].after
            }
        } else {
            None
        },
        LabelRef::ElseOf(b) => if (b as int) < blocks.len() {
            match blocks[b as int].kind {
                BlockKind::IfElse { else_start } => Some(else_start),
                _ => blocks[b as int].after,
            }
        } else {
            None
        },
    }
}

/// Resolves one deferred label against the completed scope arena.
pub fn resolve_label(blocks: &Vec<BlockInfo>, lab: &LabelRef) -> (r: Result<u64, FuncError>)
    ensures
        match r {
            Ok(a) => resolve_label_spec(blocks@, *lab) == Some(a),
            Err(e) => resolve_label_spec(blocks@, *lab) is None && e
                == FuncError::UnresolvedLabel,
        },
{
    match lab {
        LabelRef::Known(a) => Ok(*a),
        LabelRef::After(b) => {
            if *b < blocks.len() {
                match blocks[*b].after {
                    Some(a) => Ok(a),
                    None => Err(FuncError::UnresolvedLabel),
                }
            } else {
                Err(FuncError::UnresolvedLabel)
            }
        },
        LabelRef::BreakOf(b) => {
            if *b < blocks.len() {
                if matches!(blocks[*b].kind, BlockKind::Loop) {
                    Ok(blocks[*b].start)
                } else {
                    match blocks[*b].after {
                        Some(a) => Ok(a),
                        None => Err(FuncError::UnresolvedLabel),
                    }
                }
            } else {
                Err(FuncError::UnresolvedLabel)
            }
        },
        LabelRef::ElseOf(b) => {
            if *b < blocks.len() {
                match blocks[*b].kind {
                    BlockKind::IfElse { else_start } => Ok(else_start),
                    _ => match blocks[*b].after {
                        Some(a) => Ok(a),
                        None => Err(FuncError::UnresolvedLabel),
                    },
                }
            } else {
                Err(FuncError::UnresolvedLabel)
            }
        },
    }
}

/// Every label of the sequence resolves.
pub open spec fn labels_resolvable(blocks: Seq<BlockInfo>, labs: Seq<LabelRef>) -> bool {
    forall|i: int| 0 <= i < labs.len() ==> resolve_label_spec(blocks, #[trigger] labs[i]) is Some
}

/// Every label of the deferred target resolves.
pub open spec fn target_resolvable(blocks: Seq<BlockInfo>, t: TargetModel<LabelRef>) -> bool {
    match t {
        TargetModel::Unconditional(l) => resolve_label_spec(blocks, l) is Some,
        TargetModel::Conditional { true_target, false_target } => resolve_label_spec(
            blocks,
            true_target,
        ) is Some && resolve_label_spec(blocks, false_target) is Some,
        TargetModel::Table { targets, default_target } => labels_resolvable(blocks, targets)
            && resolve_label_spec(blocks, default_target) is Some,
        TargetModel::FunctionEnd => true,
    }
}

/// The deferred target with every label replaced by its address.
pub open spec fn resolve_target_spec(blocks: Seq<BlockInfo>, t: TargetModel<LabelRef>) -> TargetModel<
    u64,
>
    recommends
        target_resolvable(blocks, t),
{
    match t {
        TargetModel::Unconditional(l) => TargetModel::Unconditional(
            resolve_label_spec(blocks, l)->Some_0,
        ),
        TargetModel::Conditional { true_target, false_target } => TargetModel::Conditional {
            true_target: resolve_label_spec(blocks, true_target)->Some_0,
            false_target: resolve_label_spec(blocks, false_target)->Some_0,
        },
        TargetModel::Table { targets, default_target } => TargetModel::Table {
            targets: targets.map_values(|l: LabelRef| resolve_label_spec(blocks, l)->Some_0),
            default_target: resolve_label_spec(blocks, default_target)->Some_0,
        },
        TargetModel::FunctionEnd => TargetModel::FunctionEnd,
    }
}

/// Resolves one deferred branch target against the completed scope arena.
#[verifier::loop_isolation(false)]
pub fn resolve_target(blocks: &Vec<BlockInfo>, t: &BranchTarget<LabelRef>) -> (r: Result<
    BranchTargetAddr,
    FuncError,
>)
    ensures
        match r {
            Ok(rt) => target_resolvable(blocks@, t@) && rt@ == resolve_target_spec(blocks@, t@),
            Err(e) => !target_resolvable(blocks@, t@) && e == FuncError::UnresolvedLabel,
        },
{
    match t {
        BranchTarget::Unconditional(l) => {
            match resolve_label(blocks, l) {
                Ok(a) => Ok(BranchTarget::Unconditional(a)),
                Err(e) => Err(e),
            }
        },
        BranchTarget::Conditional { true_target, false_target } => {
            let tt: u64 = match resolve_label(blocks, true_target) {
                Ok(a) => a,
                Err(e) => return Err(e),
            };
            let ft: u64 = match resolve_label(blocks, false_target) {
                Ok(a) => a,
                Err(e) => return Err(e),
            };
            Ok(BranchTarget::Conditional { true_target: tt, false_target: ft })
        },
        BranchTarget::Table { targets, default_target } => {
            let n: usize = targets.len();
            let mut out: Vec<u64> = Vec::new();
            let mut k: usize = 0;
            while k < n
                invariant
                    0 <= k <= n,
                    n == targets@.len(),
                    out@.len() == k,
                    forall|p: int|
                        0 <= p < k ==> resolve_label_spec(blocks@, targets@[p]) == Some(
                            #[trigger] out@[p],
                        ),
                decreases n - k,
            {
                match resolve_label(blocks, &targets[k]) {
                    Ok(a) => {
                        out.push(a);
                        k = k + 1;
                    },
                    Err(e) => {
                        proof {
                            assert(resolve_label_spec(blocks@, targets@[k as int]) is None);
                            assert(!labels_resolvable(blocks@, targets@));
                            assert(t@ == (TargetModel::Table {
                                targets: targets@,
                                default_target: *default_target,
                            }));
                        }
                        return Err(e);
                    },
                }
            }
            let d: u64 = match resolve_label(blocks, default_target) {
                Ok(a) => a,
                Err(e) => {
                    proof {
                        assert(t@ == (TargetModel::Table {
                            targets: targets@,
                            default_target: *default_target,
                        }));
                    }
                    return Err(e);
                },
            };
            proof {
                assert forall|p: int| 0 <= p < targets@.len() implies resolve_label_spec(
                    blocks@,
                    #[trigger] targets@[p],
                ) is Some by {
                    assert(resolve_label_spec(blocks@, targets@[p]) == Some(out@[p]));
                }
                assert(labels_resolvable(blocks@, targets@));
                assert(t@ == (TargetModel::Table {
                    targets: targets@,
                    default_target: *default_target,
                }));
                assert(out@ =~= targets@.map_values(
                    |l: LabelRef| resolve_label_spec(blocks@, l)->Some_0,
                ));
            }
            Ok(BranchTarget::Table { targets: out, default_target: d })
        },
        BranchTarget::FunctionEnd => Ok(BranchTarget::FunctionEnd),
    }
}

/// Every deferred target among the recorded operators resolves.
pub open spec fn pending_resolvable(blocks: Seq<BlockInfo>, ops: Seq<PendingOp>) -> bool {
    forall|j: int| 0 <= j < ops.len() ==> match (#[trigger] ops[j]).target {
        Some(t) => target_resolvable(blocks, t@),
        None => true,
    }
}

/// The resolved operators carry over offset, size and classification, and
/// each deferred target is replaced by its resolved addresses.
pub open spec fn resolved_rel(
    ops: Seq<PendingOp>,
    out: Seq<OperatorData>,
    blocks: Seq<BlockInfo>,
) -> bool {
    &&& out.len() == ops.len()
    &&& forall|j: int| 0 <= j < out.len() ==> {
        &&& (#[trigger] out[j]).offset == ops[j].offset
        &&& out[j].size == ops[j].size
        &&& out[j].op == ops[j].op
        &&& match ops[j].target {
            Some(t) => out[j].target matches Some(rt) && rt@ == resolve_target_spec(blocks, t@),
            None => out[j].target is None,
        }
    }
}

/// Pass 2: rewrites every deferred label into a concrete address. Fails
/// exactly when some recorded label refers to a scope that never closed.
#[verifier::loop_isolation(false)]
pub fn pass2(ops: Vec<PendingOp>, blocks: &Vec<BlockInfo>) -> (r: Result<
    Vec<OperatorData>,
    FuncError,
>)
    ensures
        match r {
            Ok(out) => pending_resolvable(blocks@, ops@) && resolved_rel(ops@, out@, blocks@),
            Err(e) => !pending_resolvable(blocks@, ops@) && e == FuncError::UnresolvedLabel,
        },
{
    let mut ops = ops;
    let ghost orig = ops@;
    let n: usize = ops.len();
    let mut out: Vec<OperatorData> = Vec::new();
    let mut j: usize = 0;
    while j < n
        invariant
            0 <= j <= n,
            ops@.len() == n,
            orig.len() == n,
            out@.len() == j,
            forall|p: int| j <= p < n ==> ops@[p] == orig[p],
            forall|p: int| 0 <= p < j ==> match (#[trigger] orig[p]).target {
                Some(t) => target_resolvable(blocks@, t@),
                None => true,
            },
            forall|p: int| 0 <= p < j ==> {
                &&& (#[trigger] out@[p]).offset == orig[p].offset
                &&& out@[p].size == orig[p].size
                &&& out@[p].op == orig[p].op
                &&& match orig[p].target {
                    Some(t) => out@[p].target matches Some(rt) && rt@ == resolve_target_spec(
                        blocks@,
                        t@,
                    ),
                    None => out@[p].target is None,
                }
            },
        decreases n - j,
    {
        let mut tmp = PendingOp { offset: 0, size: 0, op: Op::Other, target: None };
        core::mem::swap(&mut tmp, &mut ops[j]);
        let rt: Option<BranchTargetAddr> = match &tmp.target {
            Some(t) => {
                match resolve_target(blocks, t) {
                    Ok(rt) => Some(rt),
                    Err(e) => {
                        proof {
                            assert(orig[j as int].target matches Some(t0) && !target_resolvable(
                                blocks@,
                                t0@,
                            ));
                        }
                        return Err(e);
                    },
                }
            },
            None => None,
        };
        let offset: u64 = tmp.offset;
        let size: usize = tmp.size;
        out.push(OperatorData { offset, op: tmp.op, size, target: rt });
        j = j + 1;
    }
    Ok(out)
}


/// Every recorded target model resolves against the scope arena.
pub open spec fn models_resolvable(
    blocks: Seq<BlockInfo>,
    tms: Seq<Option<TargetModel<LabelRef>>>,
) -> bool {
    forall|j: int|
        0 <= j < tms.len() ==> match #[trigger] tms[j] {
            Some(t) => target_resolvable(blocks, t),
            None => true,
        }
}

/// Whether a function body decodes: the outside scan yields cut points, the
/// stream obeys the scope discipline of the spec-level first pass, and
/// every deferred label resolves against the completed scope arena.
/// [`parse_func`] succeeds on exactly these bodies.
pub open spec fn body_decodes(body: Seq<u8>, locals_start: u64) -> bool {
    op_cuts(body) matches Some(cuts) && (pass1_at(body, cuts, locals_start, cuts.len() - 1) matches
        Some(q) && models_resolvable(q.1, q.0))
}

/// Each operator carries exactly the resolution of its recorded target
/// model against the scope arena: no target where none was recorded.
pub open spec fn targets_resolved_from(
    ops: Seq<OperatorData>,
    tms: Seq<Option<TargetModel<LabelRef>>>,
    blocks: Seq<BlockInfo>,
) -> bool {
    forall|j: int|
        0 <= j < ops.len() ==> match tms[j] {
            Some(tm) => (#[trigger] ops[j]).target matches Some(rt) && rt@ == resolve_target_spec(
                blocks,
                tm,
            ),
            None => ops[j].target is None,
        }
}

proof fn lemma_models_resolvable(blocks: Seq<BlockInfo>, pending: Seq<PendingOp>)
    ensures
        models_resolvable(blocks, deferred_models(pending)) <==> pending_resolvable(
            blocks,
            pending,
        ),
{
    let tms = deferred_models(pending);
    if pending_resolvable(blocks, pending) {
        assert forall|j: int| 0 <= j < tms.len() implies match #[trigger] tms[j] {
            Some(t) => target_resolvable(blocks, t),
            None => true,
        } by {
            assert(tms[j] == deferred_model(pending[j].target));
            assert(match (#[trigger] pending[j]).target {
                Some(t) => target_resolvable(blocks, t@),
                None => true,
            });
        }
    }
    if models_resolvable(blocks, tms) {
        assert forall|j: int| 0 <= j < pending.len() implies match (#[trigger] pending[j]).target {
            Some(t) => target_resolvable(blocks, t@),
            None => true,
        } by {
            assert(tms[j] == deferred_model(pending[j].target));
        }
    }
}

proof fn lemma_targets_resolved(
    blocks: Seq<BlockInfo>,
    pending: Seq<PendingOp>,
    ops: Seq<OperatorData>,
)
    requires
        resolved_rel(pending, ops, blocks),
    ensures
        targets_resolved_from(ops, deferred_models(pending), blocks),
{
    let tms = deferred_models(pending);
    assert forall|j: int| 0 <= j < ops.len() implies match tms[j] {
        Some(tm) => (#[trigger] ops[j]).target matches Some(rt) && rt@ == resolve_target_spec(
            blocks,
            tm,
        ),
        None => ops[j].target is None,
    } by {
        assert(tms[j] == deferred_model(pending[j].target));
        assert(ops[j].offset == pending[j].offset);
    }
}

// ---------------------------------------------------------------------------
// The whole decode.

// ---------------------------------------------------------------------------


proof fn lemma_parse_assemble(
    body: Seq<u8>,
    cuts: Seq<usize>,
    locals_start: u64,
    end: u64,
    pending: Seq<PendingOp>,
    blocks: Seq<BlockInfo>,
    ops: Seq<OperatorData>,
)
    requires
        cuts.len() >= 1,
        strictly_increasing(cuts),
        cuts[cuts.len() - 1] == body.len(),
        locals_start + body.len() == end,
        pending.len() == cuts.len() - 1,
        ops_match_cuts(pending, body, cuts, locals_start as int),
        pending_shape(pending, blocks),
        blocks_wf(blocks, (locals_start + cuts[0]) as int, end as int),
        pending_resolvable(blocks, pending),
        resolved_rel(pending, ops, blocks),
    ensures
        ops_tile(ops, (locals_start + cuts[0]) as int, end as int),
        forall|j: int| 0 <= j < ops.len() ==> {
            &&& (#[trigger] ops[j]).offset == locals_start + cuts[j]
            &&& ops[j].size == cuts[j + 1] - cuts[j]
            &&& op_of(body, cuts[j] as int) == Some(ops[j].op@)
        },
{
    let m = cuts.len() - 1;
    assert forall|j: int| 0 <= j < ops.len() implies {
        &&& (#[trigger] ops[j]).offset == locals_start + cuts[j]
        &&& ops[j].size == cuts[j + 1] - cuts[j]
        &&& op_of(body, cuts[j] as int) == Some(ops[j].op@)
    } by {
        assert(pending[j].offset == locals_start + cuts[j]);
    }
    assert forall|i: int| 1 <= i < ops.len() implies (#[trigger] ops[i]).offset == ops[i
        - 1].offset + ops[i - 1].size by {
        assert(cuts[i - 1] < cuts[i]);
    }
    assert forall|i: int| 0 <= i < ops.len() implies (#[trigger] ops[i]).size >= 1 by {
        assert(cuts[i] < cuts[i + 1]);
    }
    if ops.len() > 0 {
        assert(cuts[m - 1] < cuts[m]);
        assert(ops[ops.len() - 1].offset + ops[ops.len() - 1].size == locals_start + cuts[m]);
    }
}

/// Decodes one function body: scans the operator stream, resolves all
/// structured control flow in two passes, and assembles the function's
/// instruction table. `size_start`, `locals_start` and `end` are the
/// absolute landmark addresses of the function's code-section entry; `raw`
/// holds the body bytes covering `[locals_start, end)`.
///
/// On success the returned function is well formed: its operator byte ranges
/// tile `[ops_start, end)` exactly, and each operator is classified from the
/// bytes at its own offset.
#[verifier::rlimit(100)]
pub fn parse_func(size_start: u64, locals_start: u64, end: u64, raw: Vec<u8>) -> (r: Result<
    FunctionData,
    FuncError,
>)
    requires
        size_start < locals_start,
        locals_start + raw@.len() == end,
    ensures
        match r {
            Ok(f) => {
                &&& body_decodes(raw@, locals_start)
                &&& f.wf()
                &&& f.size_start == size_start
                &&& f.locals_start == locals_start
                &&& f.end == end
                &&& f.raw@ == raw@
                &&& (op_cuts(raw@) matches Some(cuts) && {
                    &&& f.ops_start == locals_start + cuts[0]
                    &&& f.ops@.len() == cuts.len() - 1
                    &&& forall|j: int| 0 <= j < f.ops@.len() ==> {
                        &&& (#[trigger] f.ops@[j]).offset == locals_start + cuts[j]
                        &&& f.ops@[j].size == cuts[j + 1] - cuts[j]
                        &&& op_of(raw@, cuts[j] as int) == Some(f.ops@[j].op@)
                    }
                    &&& (pass1_at(raw@, cuts, locals_start, cuts.len() - 1) matches Some(q)
                        && targets_resolved_from(f.ops@, q.0, q.1))
                })
            },
            Err(e) => !body_decodes(raw@, locals_start) && (match op_cuts(raw@) {
                None => e == FuncError::MalformedLocals || e == FuncError::MalformedBody,
                Some(cuts) => if pass1_at(raw@, cuts, locals_start, cuts.len() - 1) is None {
                    e == FuncError::MalformedBody || e == FuncError::BadDepth || e
                        == FuncError::MisplacedElse || e == FuncError::MisplacedEnd
                } else {
                    e == FuncError::UnresolvedLabel
                },
            }),
        },
{
    let cuts: Vec<usize> = match operator_cuts(&raw) {
        Ok(c) => c,
        Err(e) => return Err(e),
    };
    let (pending, blocks) = match pass1(&raw, locals_start, &cuts) {
        Ok(p) => p,
        Err(e) => {
            proof {
                assert(!body_decodes(raw@, locals_start));
            }
            return Err(e);
        },
    };
    let ghost gp = pending@;
    let ops: Vec<OperatorData> = match pass2(pending, &blocks) {
        Ok(o) => o,
        Err(e) => {
            proof {
                lemma_models_resolvable(blocks@, gp);
                assert(!body_decodes(raw@, locals_start));
            }
            return Err(e);
        },
    };
    proof {
        if cuts@.len() > 1 {
            assert(cuts@[0] < cuts@[cuts@.len() - 1]);
        }
        lemma_parse_assemble(raw@, cuts@, locals_start, end, gp, blocks@, ops@);
        lemma_models_resolvable(blocks@, gp);
        lemma_targets_resolved(blocks@, gp, ops@);
        assert(body_decodes(raw@, locals_start));
    }
    let ops_start: u64 = locals_start + cuts[0] as u64;
    Ok(FunctionData { size_start, locals_start, ops_start, end, ops, raw })
}

// ---------------------------------------------------------------------------
// Resolution laws.
// ---------------------------------------------------------------------------

/// For a `loop` scope, every break into it resolves to the scope's start —
/// the back edge. For every other closed scope kind, a break resolves to
/// the address just past the scope's closing `end`.
pub proof fn lemma_break_target(blocks: Seq<BlockInfo>, b: usize)
    requires
        (b as int) < blocks.len(),
    ensures
        blocks[b as int].kind is Loop ==> resolve_label_spec(blocks, LabelRef::BreakOf(b))
            == Some(blocks[b as int].start),
        !(blocks[b as int].kind is Loop) ==> resolve_label_spec(blocks, LabelRef::BreakOf(b))
            == blocks[b as int].after,
{
}

/// For an `if` operator: pass 1 records a conditional target whose true
/// edge is the address just past the `if` itself. When no `else` ever
/// appeared and the matching `end` sits at address-after `a`, the false
/// edge resolves exactly to `a` and both edges land at or before it. When
/// an `else` appeared, the false edge resolves exactly to the address just
/// past the `else`.
pub proof fn lemma_if_op_edges(
    ops: Seq<PendingOp>,
    blocks: Seq<BlockInfo>,
    ops_start: int,
    bound: int,
    j: int,
)
    requires
        pending_shape(ops, blocks),
        blocks_wf(blocks, ops_start, bound),
        0 <= j < ops.len(),
        ops[j].op@ is If,
    ensures
        (ops[j].target matches Some(
            BranchTarget::Conditional {
                true_target: LabelRef::Known(t),
                false_target: LabelRef::ElseOf(b),
            },
        ) && {
            &&& t == ops[j].offset + ops[j].size
            &&& (b as int) < blocks.len()
            &&& (blocks[b as int].kind is If ==> (blocks[b as int].after matches Some(a) ==> (
            resolve_label_spec(blocks, LabelRef::ElseOf(b)) == Some(a) && t <= a)))
            &&& (blocks[b as int].kind matches BlockKind::IfElse { else_start } ==> (
            resolve_label_spec(blocks, LabelRef::ElseOf(b)) == Some(else_start) && t
                <= else_start))
        }),
{
    assert(pending_shape_at(ops[j], blocks));
}

/// For the `else` operator of an `if`/`else`: pass 1 records it against an
/// `if` scope already turned `IfElse` whose `else_start` is the address
/// just past the `else` itself, and its own edge resolves exactly to the
/// address just past the matching `end`.
pub proof fn lemma_else_op_edge(ops: Seq<PendingOp>, blocks: Seq<BlockInfo>, j: int)
    requires
        pending_shape(ops, blocks),
        0 <= j < ops.len(),
        ops[j].op@ is Else,
    ensures
        (ops[j].target matches Some(BranchTarget::Unconditional(LabelRef::After(b))) && {
            &&& (b as int) < blocks.len()
            &&& (blocks[b as int].kind matches BlockKind::IfElse { else_start } && else_start
                == ops[j].offset + ops[j].size)
            &&& (blocks[b as int].after matches Some(a) ==> resolve_label_spec(
                blocks,
                LabelRef::After(b),
            ) == Some(a))
        }),
{
    assert(pending_shape_at(ops[j], blocks));
}

} // verus!
