//! The decoded data model: branch targets, decoded operators, and the
//! per-function instruction table.
//!
//! A decoded function owns its body bytes and an offset-ordered table of
//! decoded operators whose byte ranges tile the operator stream exactly:
//! the first operator sits at `ops_start`, each operator begins where the
//! previous one ends, and the last one ends at `end`.

use crate::arc_identity::ArcIdentity;
use crate::insn::Op;
use crate::range_index::{no_contents, overwritten, FuncIndex};
use vstd::prelude::*;

verus! {

/// Where a control-flow operator goes, generic over how a target address is
/// expressed: during decoding `T` is a deferred label, afterwards a plain
/// address.
#[derive(Debug)]
pub enum BranchTarget<T> {
    Unconditional(T),
    Conditional { true_target: T, false_target: T },
    Table { targets: Vec<T>, default_target: T },
    FunctionEnd,
}

/// A fully resolved branch target: every label is a byte address.
pub type BranchTargetAddr = BranchTarget<u64>;

/// Mathematical model of a [`BranchTarget`]: the table becomes a sequence.
pub enum TargetModel<T> {
    Unconditional(T),
    Conditional { true_target: T, false_target: T },
    Table { targets: Seq<T>, default_target: T },
    FunctionEnd,
}

impl<T> View for BranchTarget<T> {
    type V = TargetModel<T>;

    open spec fn view(&self) -> TargetModel<T> {
        match self {
            BranchTarget::Unconditional(t) => TargetModel::Unconditional(*t),
            BranchTarget::Conditional { true_target, false_target } => TargetModel::Conditional {
                true_target: *true_target,
                false_target: *false_target,
            },
            BranchTarget::Table { targets, default_target } => TargetModel::Table {
                targets: targets@,
                default_target: *default_target,
            },
            BranchTarget::FunctionEnd => TargetModel::FunctionEnd,
        }
    }
}

/// One decoded operator: its classification, its byte length, and, for
/// control-flow operators, its resolved target.
#[derive(Debug)]
pub struct OperatorData {
    /// Absolute address of the operator's first byte.
    pub offset: u64,
    /// The operator's classification.
    pub op: Op,
    /// The operator's length in bytes.
    pub size: usize,
    /// The resolved branch target, for the operators that carry one.
    pub target: Option<BranchTargetAddr>,
}

/// The operator byte ranges of `ops` tile `[start, end)` exactly: the first
/// operator begins at `start`, each next operator begins where the previous
/// ends, the last ends at `end`, and every operator is at least one byte.
pub open spec fn ops_tile(ops: Seq<OperatorData>, start: int, end: int) -> bool {
    &&& if ops.len() == 0 {
        start == end
    } else {
        &&& ops[0].offset == start
        &&& ops[ops.len() - 1].offset + ops[ops.len() - 1].size == end
    }
    &&& forall|i: int|
        1 <= i < ops.len() ==> (#[trigger] ops[i]).offset == ops[i - 1].offset + ops[i - 1].size
    &&& forall|i: int| 0 <= i < ops.len() ==> (#[trigger] ops[i]).size >= 1
}

/// A decoded function: three landmark addresses, the raw body bytes, and the
/// offset-ordered operator table.
#[derive(Debug)]
pub struct FunctionData {
    /// Address of the size field in the function's code-section entry.
    pub size_start: u64,
    /// Address of the locals vector, just past the size field.
    pub locals_start: u64,
    /// Address of the first operator, just past the locals vector.
    pub ops_start: u64,
    /// Address one past the function's last byte.
    pub end: u64,
    /// The decoded operators, ordered by offset.
    pub ops: Vec<OperatorData>,
    /// The raw function-body bytes, covering `[locals_start, end)`.
    pub raw: Vec<u8>,
}

impl FunctionData {
    /// The landmark addresses are ordered, the raw bytes span
    /// `[locals_start, end)`, and the operator ranges tile
    /// `[ops_start, end)`.
    pub open spec fn wf(&self) -> bool {
        &&& self.size_start < self.locals_start <= self.ops_start <= self.end
        &&& self.raw@.len() == self.end - self.locals_start
        &&& ops_tile(self.ops@, self.ops_start as int, self.end as int)
    }

    pub fn new(
        size_start: u64,
        locals_start: u64,
        ops_start: u64,
        end: u64,
        ops: Vec<OperatorData>,
        raw: Vec<u8>,
    ) -> (r: FunctionData)
        ensures
            r == (FunctionData { size_start, locals_start, ops_start, end, ops, raw }),
    {
        FunctionData { size_start, locals_start, ops_start, end, ops, raw }
    }

    /// Looks up the operator that begins exactly at `addr`; an address in
    /// the middle of an operator is no instruction boundary and answers
    /// `None`.
    pub fn op_at(&self, addr: u64) -> (r: Option<&OperatorData>)
        ensures
            match r {
                Some(od) => exists|i: int|
                    0 <= i < self.ops@.len() && self.ops@[i] == *od && od.offset == addr,
                None => forall|i: int|
                    0 <= i < self.ops@.len() ==> (#[trigger] self.ops@[i]).offset != addr,
            },
    {
        let n: usize = self.ops.len();
        let mut i: usize = 0;
        while i < n
            invariant
                0 <= i <= n,
                n == self.ops@.len(),
                forall|j: int| 0 <= j < i ==> (#[trigger] self.ops@[j]).offset != addr,
            decreases n - i,
        {
            let od = &self.ops[i];
            if od.offset == addr {
                return Some(od);
            }
            i = i + 1;
        }
        None
    }
}

// ---------------------------------------------------------------------------
// Tiling laws.
// ---------------------------------------------------------------------------

/// The sum of the operators' byte lengths.
pub open spec fn total_size(ops: Seq<OperatorData>) -> int
    decreases ops.len(),
{
    if ops.len() == 0 {
        0
    } else {
        total_size(ops.drop_last()) + ops.last().size
    }
}

/// Dropping the last operator of a tiling leaves a tiling up to that
/// operator's offset.
proof fn lemma_tile_drop_last(ops: Seq<OperatorData>, start: int, end: int)
    requires
        ops_tile(ops, start, end),
        ops.len() > 0,
    ensures
        ops_tile(ops.drop_last(), start, ops.last().offset as int),
{
    let short = ops.drop_last();
    if short.len() > 0 {
        assert(ops[ops.len() - 1].offset == ops[ops.len() - 2].offset + ops[ops.len() - 2].size);
        assert(short[short.len() - 1] == ops[ops.len() - 2]);
    }
    assert forall|i: int| 1 <= i < short.len() implies (#[trigger] short[i]).offset == short[i
        - 1].offset + short[i - 1].size by {
        assert(ops[i] == short[i]);
        assert(ops[i].offset == ops[i - 1].offset + ops[i - 1].size);
    }
    assert forall|i: int| 0 <= i < short.len() implies (#[trigger] short[i]).size >= 1 by {
        assert(ops[i] == short[i]);
        assert(ops[i].size >= 1);
    }
}

/// Summing the decoded operator lengths from the stream's start reaches
/// exactly the stream's end: the round-trip law.
pub proof fn lemma_sizes_sum(ops: Seq<OperatorData>, start: int, end: int)
    requires
        ops_tile(ops, start, end),
    ensures
        total_size(ops) == end - start,
    decreases ops.len(),
{
    if ops.len() > 0 {
        lemma_tile_drop_last(ops, start, end);
        lemma_sizes_sum(ops.drop_last(), start, ops.last().offset as int);
    }
}

/// Offsets strictly increase along the table: a later operator begins at or
/// past the end of an earlier one.
proof fn lemma_tile_mono(ops: Seq<OperatorData>, start: int, end: int, i: int, j: int)
    requires
        ops_tile(ops, start, end),
        0 <= i < j < ops.len(),
    ensures
        ops[j].offset >= ops[i].offset + ops[i].size,
    decreases j - i,
{
    assert(ops[j].offset == ops[j - 1].offset + ops[j - 1].size);
    if j > i + 1 {
        lemma_tile_mono(ops, start, end, i, j - 1);
        assert(ops[j - 1].size >= 1);
    }
}

/// No gaps: every address of the operator stream lies inside some
/// operator's byte range.
pub proof fn lemma_tile_covers(ops: Seq<OperatorData>, start: int, end: int, addr: int)
    requires
        ops_tile(ops, start, end),
        start <= addr < end,
    ensures
        exists|i: int|
            0 <= i < ops.len() && (#[trigger] ops[i]).offset <= addr < ops[i].offset
                + ops[i].size,
    decreases ops.len(),
{
    let last = ops[ops.len() - 1];
    if last.offset <= addr {
        assert(last.offset <= addr < last.offset + last.size);
    } else {
        lemma_tile_drop_last(ops, start, end);
        lemma_tile_covers(ops.drop_last(), start, last.offset as int, addr);
        let i = choose|i: int|
            0 <= i < ops.drop_last().len() && (#[trigger] ops.drop_last()[i]).offset <= addr
                < ops.drop_last()[i].offset + ops.drop_last()[i].size;
        assert(ops[i] == ops.drop_last()[i]);
        assert(ops[i].offset <= addr < ops[i].offset + ops[i].size);
    }
}

/// No overlaps: at most one operator's byte range holds any address.
pub proof fn lemma_tile_unique(
    ops: Seq<OperatorData>,
    start: int,
    end: int,
    i: int,
    j: int,
    addr: int,
)
    requires
        ops_tile(ops, start, end),
        0 <= i < ops.len(),
        0 <= j < ops.len(),
        ops[i].offset <= addr < ops[i].offset + ops[i].size,
        ops[j].offset <= addr < ops[j].offset + ops[j].size,
    ensures
        i == j,
{
    if i < j {
        lemma_tile_mono(ops, start, end, i, j);
    }
    if j < i {
        lemma_tile_mono(ops, start, end, j, i);
    }
}

/// For a well-formed function, summing the decoded operator lengths from
/// the operator-stream start reaches exactly the function's end address.
pub proof fn lemma_function_length_sum(f: &FunctionData)
    requires
        f.wf(),
    ensures
        f.ops_start + total_size(f.ops@) == f.end,
{
    lemma_sizes_sum(f.ops@, f.ops_start as int, f.end as int);
}

/// The whole function tiles: every address of `[size_start, end)` falls in
/// exactly one of the size-field range, the locals range, or a single
/// operator's byte range.
pub proof fn lemma_function_tiles(f: &FunctionData, addr: int)
    requires
        f.wf(),
        f.size_start <= addr < f.end,
    ensures
        addr < f.locals_start || addr < f.ops_start || exists|i: int|
            0 <= i < f.ops@.len() && (#[trigger] f.ops@[i]).offset <= addr < f.ops@[i].offset
                + f.ops@[i].size,
        addr >= f.ops_start ==> forall|i: int, j: int|
            (0 <= i < f.ops@.len() && 0 <= j < f.ops@.len() && (#[trigger] f.ops@[i]).offset
                <= addr < f.ops@[i].offset + f.ops@[i].size && (#[trigger] f.ops@[j]).offset
                <= addr < f.ops@[j].offset + f.ops@[j].size) ==> i == j,
{
    if addr >= f.ops_start {
        lemma_tile_covers(f.ops@, f.ops_start as int, f.end as int, addr);
        assert forall|i: int, j: int|
            (0 <= i < f.ops@.len() && 0 <= j < f.ops@.len() && (#[trigger] f.ops@[i]).offset
                <= addr < f.ops@[i].offset + f.ops@[i].size && (#[trigger] f.ops@[j]).offset
                <= addr < f.ops@[j].offset + f.ops@[j].size) implies i == j by {
            lemma_tile_unique(f.ops@, f.ops_start as int, f.end as int, i, j, addr);
        }
    }
}

// ---------------------------------------------------------------------------
// The module index.
// ---------------------------------------------------------------------------

/// Declared function indices strictly increase along the address list.
pub open spec fn addrs_ascending(pairs: Seq<(u64, u64)>) -> bool {
    forall|k1: int, k2: int|
        0 <= k1 < k2 < pairs.len() ==> (#[trigger] pairs[k1]).0 < (#[trigger] pairs[k2]).0
}

/// The entry address recorded for a declared function index.
pub open spec fn lookup_addr(pairs: Seq<(u64, u64)>, idx: u64) -> Option<u64>
    decreases pairs.len(),
{
    if pairs.len() == 0 {
        None
    } else if pairs[0].0 == idx {
        Some(pairs[0].1)
    } else {
        lookup_addr(pairs.drop_first(), idx)
    }
}

/// The decoded module: functions keyed by byte-address range, plus the
/// ordered declared-function-index-to-entry-address list that `call`
/// resolution uses.
pub struct ModuleData {
    /// Address-range index: each address of a decoded function's range maps
    /// to that function's position in `functions`.
    pub funcs: FuncIndex,
    /// The decoded functions, in insertion order, behind shared handles.
    pub functions: Vec<ArcIdentity<FunctionData>>,
    /// (declared function index, entry address), in declaration order.
    pub func_addrs: Vec<(u64, u64)>,
}

impl ModuleData {
    /// Every indexed address maps to a stored, well-formed function whose
    /// range holds that address, and declared indices ascend.
    pub open spec fn wf(&self) -> bool {
        &&& forall|a: u64| #[trigger]
            self.funcs@.dom().contains(a) ==> {
                &&& self.funcs@[a] < self.functions@.len()
                &&& self.functions@[self.funcs@[a] as int].0.size_start <= a
                &&& a < self.functions@[self.funcs@[a] as int].0.end
            }
        &&& forall|i: int| 0 <= i < self.functions@.len() ==> (#[trigger] self.functions@[i]).0.wf()
        &&& addrs_ascending(self.func_addrs@)
    }

    /// An empty module index.
    pub fn new() -> (r: ModuleData)
        ensures
            r.wf(),
            r.funcs@ == no_contents(),
            r.functions@.len() == 0,
            r.func_addrs@ == Seq::<(u64, u64)>::empty(),
    {
        let r = ModuleData {
            funcs: FuncIndex::new(),
            functions: Vec::new(),
            func_addrs: Vec::new(),
        };
        proof {
            assert(r.func_addrs@ =~= Seq::<(u64, u64)>::empty());
        }
        r
    }

    /// Inserts a decoded function under its byte range and appends its entry
    /// address to the function-address list, in declaration order.
    pub fn insert_function(&mut self, declared_index: u64, f: FunctionData)
        requires
            old(self).wf(),
            f.wf(),
            forall|k: int|
                0 <= k < old(self).func_addrs@.len() ==> (#[trigger] old(
                    self,
                ).func_addrs@[k]).0 < declared_index,
        ensures
            final(self).wf(),
            final(self).func_addrs@ == old(self).func_addrs@.push((declared_index, f.size_start)),
            final(self).functions@.len() == old(self).functions@.len() + 1,
            final(self).functions@[old(self).functions@.len() as int].0 == f,
            forall|i: int|
                0 <= i < old(self).functions@.len() ==> final(self).functions@[i] == old(
                    self,
                ).functions@[i],
            final(self).funcs@ == overwritten(
                old(self).funcs@,
                f.size_start,
                f.end,
                old(self).functions@.len() as usize,
            ),
    {
        let idx: usize = self.functions.len();
        let entry_addr: u64 = f.size_start;
        self.funcs.insert(f.size_start, f.end, idx);
        self.functions.push(ArcIdentity::new(f));
        self.func_addrs.push((declared_index, entry_addr));
        proof {
            let c = self.funcs@;
            assert forall|a: u64| #[trigger] c.dom().contains(a) implies {
                &&& c[a] < self.functions@.len()
                &&& self.functions@[c[a] as int].0.size_start <= a
                &&& a < self.functions@[c[a] as int].0.end
            } by {
                if f.size_start <= a < f.end {
                    assert(c[a] == idx);
                    assert(self.functions@[idx as int].0 == f);
                }
            }
            assert forall|k1: int, k2: int|
                0 <= k1 < k2 < self.func_addrs@.len() implies (#[trigger] self.func_addrs@[k1]).0
                < (#[trigger] self.func_addrs@[k2]).0 by {
                if k2 == self.func_addrs@.len() - 1 {
                    assert(self.func_addrs@[k1] == old(self).func_addrs@[k1]);
                }
            }
        }
    }

    /// Looks up the decoded function whose byte range holds `addr`.
    pub fn function_at(&self, addr: u64) -> (r: Option<&ArcIdentity<FunctionData>>)
        requires
            self.wf(),
        ensures
            match r {
                Some(fa) => {
                    &&& self.funcs@.dom().contains(addr)
                    &&& fa.0 == self.functions@[self.funcs@[addr] as int].0
                    &&& fa.0.wf()
                    &&& fa.0.size_start <= addr < fa.0.end
                },
                None => !self.funcs@.dom().contains(addr),
            },
    {
        match self.funcs.get(addr) {
            Some(i) => Some(&self.functions[i]),
            None => None,
        }
    }

    /// The entry address of the function with the given declared index, as
    /// `call` resolution uses; `None` when the index names no decoded
    /// function (an import, a skipped entry, or out of range).
    pub fn call_target(&self, function_index: u32) -> (r: Option<u64>)
        ensures
            r == lookup_addr(self.func_addrs@, function_index as u64),
    {
        let n: usize = self.func_addrs.len();
        let mut k: usize = 0;
        proof {
            assert(self.func_addrs@.skip(0) =~= self.func_addrs@);
        }
        while k < n
            invariant
                0 <= k <= n,
                n == self.func_addrs@.len(),
                lookup_addr(self.func_addrs@, function_index as u64) == lookup_addr(
                    self.func_addrs@.skip(k as int),
                    function_index as u64,
                ),
            decreases n - k,
        {
            proof {
                assert(self.func_addrs@.skip(k as int)[0] == self.func_addrs@[k as int]);
                assert(self.func_addrs@.skip(k as int).drop_first() =~= self.func_addrs@.skip(
                    k + 1,
                ));
            }
            let pair = self.func_addrs[k];
            if pair.0 == function_index as u64 {
                return Some(pair.1);
            }
            k = k + 1;
        }
        None
    }
}

// ---------------------------------------------------------------------------
// The single-resident module registry.
// ---------------------------------------------------------------------------

/// The registry holding at most one resident module. The host keeps one
/// registry for the whole process, behind its exclusive lock.
pub struct Registry {
    /// The resident module, if one is open.
    pub resident: Option<ModuleData>,
}

impl Registry {
    /// An empty registry.
    pub fn new() -> (r: Registry)
        ensures
            r.resident is None,
    {
        Registry { resident: None }
    }

    /// Makes `m` the resident module. Opening while a module is resident
    /// fails with an explicit error and leaves the resident module's index
    /// untouched.
    pub fn open(&mut self, m: ModuleData) -> (r: Result<(), crate::module_parse::ModuleError>)
        ensures
            old(self).resident is Some ==> r is Err && r->Err_0
                == crate::module_parse::ModuleError::AlreadyResident && *final(self) == *old(self),
            old(self).resident is None ==> r is Ok && final(self).resident == Some(m),
    {
        if self.resident.is_some() {
            return Err(crate::module_parse::ModuleError::AlreadyResident);
        }
        self.resident = Some(m);
        Ok(())
    }

    /// Drops the resident module, if any.
    pub fn close(&mut self)
        ensures
            final(self).resident is None,
    {
        self.resident = None;
    }

    /// Borrows the resident module.
    pub fn module(&self) -> (r: Option<&ModuleData>)
        ensures
            match r {
                Some(m) => self.resident == Some(*m),
                None => self.resident is None,
            },
    {
        match &self.resident {
            Some(m) => Some(m),
            None => None,
        }
    }
}

} // verus!
