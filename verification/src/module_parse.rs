//! The module-level section walker's computational core.
//!
//! The code section is not delegated to a generic per-entry reader: the
//! walker reads the entry count and each entry's length-prefixed size itself,
//! because the decoder needs each entry's exact byte boundaries. A mismatch
//! between the computed end of the final entry and the section's declared
//! end is a whole-module failure. The import section matters only for how
//! many function-typed imports precede the locally-defined functions, since
//! declared function indices are contiguous across imports and local
//! functions; the export section yields the function-index-to-name pairs
//! used to name decoded functions.

use crate::bin_util::{decode_u32_leb128, leb_u32_at};
use crate::func_parse::{body_decodes, parse_func};
use crate::insn::lemma_leb_bounds;
use crate::module_data::ModuleData;
use vstd::prelude::*;

verus! {

/// Reasons a whole module fails to load.
#[derive(Debug, Clone, Copy, PartialEq, Eq)]
pub enum ModuleError {
    /// A count or size field of the code section is malformed, or an entry
    /// overruns the section.
    MalformedCode,
    /// The computed end of the final code-section entry does not meet the
    /// section's declared end.
    CodeBoundaryMismatch,
    /// The import section is malformed.
    MalformedImports,
    /// A module is already resident.
    AlreadyResident,
    /// A function body could not be read in full from the byte source.
    TruncatedRead,
}

/// The three landmark addresses of one code-section entry: where its size
/// field begins, where its locals vector begins (just past the size field),
/// and its exclusive end.
#[derive(Debug, Clone, Copy, PartialEq, Eq, Structural)]
pub struct CodeEntry {
    pub size_start: u64,
    pub locals_start: u64,
    pub end: u64,
}

/// One export-section entry naming a function.
#[derive(Debug)]
pub struct ExportEntry {
    /// The declared function index the name refers to.
    pub func_index: u32,
    /// The export name.
    pub name: String,
}

/// The entries of a code section read from relative position `pos` on, `n`
/// entries remaining: each entry is a LEB128 size field followed by that
/// many body bytes, and `base` is the section's absolute address. Yields
/// the entries and the relative position just past the last one; `None`
/// when a size field cannot be read inside the section.
pub open spec fn code_entries_from(sec: Seq<u8>, base: int, pos: int, n: nat) -> Option<
    (Seq<CodeEntry>, int),
>
    decreases n,
{
    if n == 0 {
        Some((Seq::empty(), pos))
    } else {
        match leb_u32_at(sec, pos) {
            Some(p) => {
                let ls = pos + p.1;
                let e = ls + p.0;
                let entry = CodeEntry {
                    size_start: (base + pos) as u64,
                    locals_start: (base + ls) as u64,
                    end: (base + e) as u64,
                };
                match code_entries_from(sec, base, e, (n - 1) as nat) {
                    Some(q) => Some((seq![entry].add(q.0), q.1)),
                    None => None,
                }
            },
            None => None,
        }
    }
}

/// The code section's entries: a LEB128 entry count, then that many
/// length-prefixed entries, which together must reach exactly the section's
/// end.
pub open spec fn code_entries_spec(sec: Seq<u8>, base: int) -> Option<Seq<CodeEntry>> {
    match leb_u32_at(sec, 0) {
        Some(c) => match code_entries_from(sec, base, c.1 as int, c.0 as nat) {
            Some(q) => if q.1 == sec.len() {
                Some(q.0)
            } else {
                None
            },
            None => None,
        },
        None => None,
    }
}

/// Computes the byte boundaries of every entry of a code section. `sec`
/// holds the section's contents and `base` is their absolute address.
/// Succeeds exactly when every size field reads inside the section and the
/// final entry ends exactly at the section's end.
#[verifier::loop_isolation(false)]
pub fn code_entries(sec: &Vec<u8>, base: u64) -> (r: Result<Vec<CodeEntry>, ModuleError>)
    requires
        base + sec@.len() <= u64::MAX,
    ensures
        match r {
            Ok(v) => code_entries_spec(sec@, base as int) == Some(v@),
            Err(e) => code_entries_spec(sec@, base as int) is None && (e
                == ModuleError::MalformedCode || e == ModuleError::CodeBoundaryMismatch),
        },
{
    let (count, cnb) = match decode_u32_leb128(sec, 0) {
        Ok(p) => p,
        Err(_) => return Err(ModuleError::MalformedCode),
    };
    let slen: usize = sec.len();
    proof {
        lemma_leb_bounds(sec@, 0, 0, 0);
        assert(leb_u32_at(sec@, 0) == Some((count, cnb)));
        assert(cnb as int <= slen);
    }
    let mut pos: usize = cnb as usize;
    let mut v: Vec<CodeEntry> = Vec::new();
    let mut i: u32 = 0;
    while i < count
        invariant
            0 <= i <= count,
            pos <= sec@.len(),
            v@.len() == i,
            code_entries_from(sec@, base as int, cnb as int, count as nat) == (match
                code_entries_from(sec@, base as int, pos as int, (count - i) as nat) {
                Some(q) => Some((v@ + q.0, q.1)),
                None => None::<(Seq<CodeEntry>, int)>,
            }),
        decreases count - i,
    {
        let ghost rest = (count - i) as nat;
        let (size, nb) = match decode_u32_leb128(sec, pos) {
            Ok(p) => p,
            Err(_) => return Err(ModuleError::MalformedCode),
        };
        proof {
            lemma_leb_bounds(sec@, pos as int, 0, 0);
            assert(leb_u32_at(sec@, pos as int) == Some((size, nb)));
            assert(pos + nb <= slen);
        }
        let ls: usize = pos + nb as usize;
        if (size as usize) > sec.len() - ls {
            proof {
                let e: int = ls + size;
                assert(e > slen);
                if rest == 1 {
                    assert(code_entries_from(sec@, base as int, e, 0) == Some((
                        Seq::<CodeEntry>::empty(),
                        e,
                    )));
                    assert(code_entries_from(sec@, base as int, pos as int, rest) is Some);
                    assert(code_entries_from(sec@, base as int, pos as int, rest)->Some_0.1 == e);
                    assert(e != sec@.len());
                } else {
                    assert(leb_u32_at(sec@, e) is None);
                    assert(code_entries_from(sec@, base as int, e, (rest - 1) as nat) is None);
                    assert(code_entries_from(sec@, base as int, pos as int, rest) is None);
                }
                assert(code_entries_spec(sec@, base as int) is None);
            }
            return Err(ModuleError::MalformedCode);
        }
        let e: usize = ls + size as usize;
        let entry = CodeEntry {
            size_start: base + pos as u64,
            locals_start: base + ls as u64,
            end: base + e as u64,
        };
        proof {
            let step = code_entries_from(sec@, base as int, e as int, (rest - 1) as nat);
            if step is Some {
                assert(v@ + (seq![entry].add(step->Some_0.0)) =~= (v@.push(entry))
                    + step->Some_0.0);
            }
        }
        v.push(entry);
        pos = e;
        i = i + 1;
    }
    proof {
        assert(v@ + Seq::<CodeEntry>::empty() =~= v@);
    }
    if pos == sec.len() {
        Ok(v)
    } else {
        Err(ModuleError::CodeBoundaryMismatch)
    }
}

/// How many of the flags are set: the number of function-typed imports, and
/// so the declared index of the first locally-defined function.
pub open spec fn count_trues(s: Seq<bool>) -> int
    decreases s.len(),
{
    if s.len() == 0 {
        0
    } else {
        count_trues(s.drop_last()) + if s.last() {
            1int
        } else {
            0int
        }
    }
}

/// Counts the function-typed imports among the import flags.
pub fn count_func_imports(flags: &Vec<bool>) -> (r: usize)
    ensures
        r == count_trues(flags@),
        r <= flags@.len(),
{
    let mut c: usize = 0;
    let mut i: usize = 0;
    let n: usize = flags.len();
    while i < n
        invariant
            0 <= i <= n,
            n == flags@.len(),
            c <= i,
            c == count_trues(flags@.subrange(0, i as int)),
        decreases n - i,
    {
        proof {
            assert(flags@.subrange(0, i + 1).drop_last() =~= flags@.subrange(0, i as int));
            assert(flags@.subrange(0, i + 1).last() == flags@[i as int]);
        }
        if flags[i] {
            c = c + 1;
        }
        i = i + 1;
    }
    proof {
        assert(flags@.subrange(0, n as int) =~= flags@);
    }
    c
}

/// The name the export section gives to declared function index `idx`: the
/// last matching export wins, as later entries overwrite earlier ones.
pub open spec fn last_export_name(exports: Seq<(u32, Seq<char>)>, idx: u32) -> Option<Seq<char>>
    decreases exports.len(),
{
    if exports.len() == 0 {
        None
    } else if exports.last().0 == idx {
        Some(exports.last().1)
    } else {
        last_export_name(exports.drop_last(), idx)
    }
}

/// Looks up the export name of declared function index `idx`, the last
/// matching export winning.
pub fn export_name<'a>(exports: &'a Vec<ExportEntry>, idx: u32) -> (r: Option<&'a String>)
    ensures
        match r {
            Some(s) => last_export_name(
                exports@.map_values(|e: ExportEntry| (e.func_index, e.name@)),
                idx,
            ) == Some(s@),
            None => last_export_name(
                exports@.map_values(|e: ExportEntry| (e.func_index, e.name@)),
                idx,
            ) is None,
        },
{
    let ghost m = exports@.map_values(|e: ExportEntry| (e.func_index, e.name@));
    let mut i: usize = exports.len();
    proof {
        assert(m.subrange(0, m.len() as int) =~= m);
    }
    while i > 0
        invariant
            0 <= i <= exports@.len(),
            m == exports@.map_values(|e: ExportEntry| (e.func_index, e.name@)),
            last_export_name(m, idx) == last_export_name(m.subrange(0, i as int), idx),
        decreases i,
    {
        proof {
            assert(m.subrange(0, i as int).last() == m[i - 1]);
            assert(m.subrange(0, i as int).drop_last() =~= m.subrange(0, i - 1));
        }
        i = i - 1;
        if exports[i].func_index == idx {
            return Some(&exports[i].name);
        }
    }
    proof {
        assert(m.subrange(0, 0) =~= Seq::<(u32, Seq<char>)>::empty());
    }
    None
}

/// The eight bytes every WebAssembly module starts with: magic and version.
pub open spec fn wasm_magic() -> Seq<u8> {
    seq![0x00u8, 0x61, 0x73, 0x6d, 0x01, 0x00, 0x00, 0x00]
}

/// The host-level format sniff: whether `header` is exactly a WebAssembly
/// magic-and-version header.
pub fn is_wasm_header(header: &Vec<u8>) -> (r: bool)
    ensures
        r == (header@ =~= wasm_magic()),
{
    if header.len() != 8 {
        return false;
    }
    let expected: [u8; 8] = [0x00, 0x61, 0x73, 0x6d, 0x01, 0x00, 0x00, 0x00];
    let mut i: usize = 0;
    while i < 8
        invariant
            0 <= i <= 8,
            header@.len() == 8,
            expected@ =~= wasm_magic(),
            forall|p: int| 0 <= p < i ==> header@[p] == wasm_magic()[p],
        decreases 8 - i,
    {
        if header[i] != expected[i] {
            return false;
        }
        i = i + 1;
    }
    proof {
        assert(header@ =~= wasm_magic());
    }
    true
}

/// Whether some of the given ranges wholly holds `[lo, hi)`: the check the
/// host makes that a code-section entry lies inside a declared executable
/// region.
pub fn covered_by(ranges: &Vec<(u64, u64)>, lo: u64, hi: u64) -> (r: bool)
    ensures
        r == exists|k: int|
            0 <= k < ranges@.len() && (#[trigger] ranges@[k]).0 <= lo && hi <= ranges@[k].1,
{
    let n: usize = ranges.len();
    let mut k: usize = 0;
    while k < n
        invariant
            0 <= k <= n,
            n == ranges@.len(),
            forall|p: int| 0 <= p < k ==> !((#[trigger] ranges@[p]).0 <= lo && hi <= ranges@[p].1),
        decreases n - k,
    {
        let pair = ranges[k];
        if pair.0 <= lo && hi <= pair.1 {
            return true;
        }
        k = k + 1;
    }
    false
}

/// Everything [`code_entries`] promises of the entries it computes: each
/// entry's landmarks are ordered, entries are contiguous, the first begins
/// just past the count field, and the last ends exactly at the section's
/// end.
pub proof fn lemma_code_entries_wf(sec: Seq<u8>, base: int)
    requires
        0 <= base,
        base + sec.len() <= u64::MAX,
        code_entries_spec(sec, base) is Some,
    ensures
        ({
            let es = code_entries_spec(sec, base)->Some_0;
            &&& forall|k: int|
                0 <= k < es.len() ==> {
                    &&& (#[trigger] es[k]).size_start < es[k].locals_start <= es[k].end
                    &&& es[k].end <= base + sec.len()
                }
            &&& forall|k: int| 1 <= k < es.len() ==> (#[trigger] es[k]).size_start == es[k - 1].end
            &&& (es.len() > 0 ==> es[es.len() - 1].end == base + sec.len())
        }),
{
    let c = leb_u32_at(sec, 0)->Some_0;
    lemma_leb_bounds(sec, 0, 0, 0);
    lemma_entries_from_wf(sec, base, c.1 as int, c.0 as nat);
}

proof fn lemma_entries_from_wf(sec: Seq<u8>, base: int, pos: int, n: nat)
    requires
        0 <= base,
        0 <= pos,
        base + sec.len() <= u64::MAX,
        code_entries_from(sec, base, pos, n) is Some,
        code_entries_from(sec, base, pos, n)->Some_0.1 <= sec.len(),
    ensures
        ({
            let es = code_entries_from(sec, base, pos, n)->Some_0.0;
            let fin = code_entries_from(sec, base, pos, n)->Some_0.1;
            &&& es.len() == n
            &&& pos <= fin
            &&& (n > 0 ==> es[0].size_start == base + pos)
            &&& (n > 0 ==> es[es.len() - 1].end == base + fin)
            &&& forall|k: int|
                0 <= k < es.len() ==> {
                    &&& (#[trigger] es[k]).size_start < es[k].locals_start <= es[k].end
                    &&& es[k].end <= base + sec.len()
                }
            &&& forall|k: int| 1 <= k < es.len() ==> (#[trigger] es[k]).size_start == es[k - 1].end
        }),
    decreases n,
{
    if n > 0 {
        let p = leb_u32_at(sec, pos)->Some_0;
        lemma_leb_bounds(sec, pos, 0, 0);
        let ls = pos + p.1;
        let e = ls + p.0;
        let entry = CodeEntry {
            size_start: (base + pos) as u64,
            locals_start: (base + ls) as u64,
            end: (base + e) as u64,
        };
        lemma_entries_from_wf(sec, base, e, (n - 1) as nat);
        let es = code_entries_from(sec, base, pos, n)->Some_0.0;
        let rest = code_entries_from(sec, base, e, (n - 1) as nat)->Some_0.0;
        assert(es == seq![entry].add(rest));
        assert(es[0] == entry);
        assert forall|k: int| 1 <= k < es.len() implies (#[trigger] es[k]) == rest[k - 1] by {}
        if n == 1 {
            assert(es[es.len() - 1] == entry);
        }
    }
}

/// One code-section entry handed to the loader: its computed boundaries,
/// whether the host places it inside an executable region, and the body
/// bytes read from `[locals_start, end)`.
pub struct EntryData {
    /// The entry's landmark addresses.
    pub entry: CodeEntry,
    /// Whether the entry lies inside a recognized executable region. An
    /// entry that does not is skipped — excluded from the index and the
    /// function-address list — while the declared-index counter still
    /// advances.
    pub executable: bool,
    /// The body bytes, covering `[locals_start, end)`.
    pub body: Vec<u8>,
}


/// Whether the loader accepts one entry: it lies inside an executable
/// region, its body was read whole, and the body decodes.
pub open spec fn entry_loads(e: EntryData) -> bool {
    &&& e.executable
    &&& e.body@.len() == e.entry.end - e.entry.locals_start
    &&& body_decodes(e.body@, e.entry.locals_start)
}

/// The landmarks of one loaded function, with its declared index.
pub struct LoadedFn {
    pub declared: u64,
    pub size_start: u64,
    pub locals_start: u64,
    pub end: u64,
}

/// The functions the loader accepts among the first `n` entries, in
/// declaration order; entry `k` loads under declared index `first + k`.
pub open spec fn loaded_list(entries: Seq<EntryData>, first: u64, n: int) -> Seq<LoadedFn>
    decreases n,
{
    if n <= 0 {
        Seq::empty()
    } else {
        loaded_list(entries, first, n - 1) + (if entry_loads(entries[n - 1]) {
            seq![
                LoadedFn {
                    declared: (first + n - 1) as u64,
                    size_start: entries[n - 1].entry.size_start,
                    locals_start: entries[n - 1].entry.locals_start,
                    end: entries[n - 1].entry.end,
                }
            ]
        } else {
            Seq::empty()
        })
    }
}

/// The (declared index, entry address) pairs of the loaded functions.
pub open spec fn loaded_pairs(ll: Seq<LoadedFn>) -> Seq<(u64, u64)> {
    ll.map_values(|l: LoadedFn| (l.declared, l.size_start))
}

/// Whether some loaded function's byte range holds `a`.
pub open spec fn loaded_covers(ll: Seq<LoadedFn>, a: u64) -> bool {
    exists|i: int| 0 <= i < ll.len() && (#[trigger] ll[i]).size_start <= a && a < ll[i].end
}

/// The index `m` holds exactly the addresses of `base` plus the byte ranges
/// of the loaded functions `ll`.
pub open spec fn index_covers(m: Map<u64, usize>, base: Map<u64, usize>, ll: Seq<LoadedFn>) -> bool {
    forall|a: u64| #[trigger] m.dom().contains(a) <==> (base.dom().contains(a) || loaded_covers(ll, a))
}

proof fn lemma_dom_after_insert(
    pre: Map<u64, usize>,
    post: Map<u64, usize>,
    base: Map<u64, usize>,
    llk: Seq<LoadedFn>,
    lln: Seq<LoadedFn>,
    lfn: LoadedFn,
)
    requires
        lln == llk + seq![lfn],
        forall|a: u64| #[trigger]
            post.dom().contains(a) <==> (lfn.size_start <= a < lfn.end || pre.dom().contains(a)),
        index_covers(pre, base, llk),
    ensures
        index_covers(post, base, lln),
{
    assert(lln[lln.len() - 1] == lfn);
    assert forall|a: u64| #[trigger] post.dom().contains(a) <==> (base.dom().contains(a)
        || loaded_covers(lln, a)) by {
        if post.dom().contains(a) {
            if lfn.size_start <= a < lfn.end {
                assert(lln[lln.len() - 1].size_start <= a && a < lln[lln.len() - 1].end);
                assert(loaded_covers(lln, a));
            } else {
                assert(pre.dom().contains(a));
                if !base.dom().contains(a) {
                    assert(loaded_covers(llk, a));
                    let i = choose|i: int|
                        0 <= i < llk.len() && (#[trigger] llk[i]).size_start <= a && a
                            < llk[i].end;
                    assert(lln[i] == llk[i]);
                    assert(lln[i].size_start <= a && a < lln[i].end);
                    assert(loaded_covers(lln, a));
                }
            }
        }
        if base.dom().contains(a) {
            assert(pre.dom().contains(a));
        }
        if loaded_covers(lln, a) {
            let i = choose|i: int|
                0 <= i < lln.len() && (#[trigger] lln[i]).size_start <= a && a < lln[i].end;
            if i < llk.len() {
                assert(llk[i] == lln[i]);
                assert(loaded_covers(llk, a));
                assert(pre.dom().contains(a));
            }
        }
    }
}

proof fn lemma_loaded_snoc(ll: Seq<LoadedFn>, l: LoadedFn)
    ensures
        loaded_pairs(ll + seq![l]) =~= loaded_pairs(ll).push((l.declared, l.size_start)),
        loaded_pairs(ll + Seq::<LoadedFn>::empty()) =~= loaded_pairs(ll),
{
    assert forall|i: int| 0 <= i < ll.len() + 1 implies loaded_pairs(ll + seq![l])[i]
        == loaded_pairs(ll).push((l.declared, l.size_start))[i] by {
        if i < ll.len() {
            assert((ll + seq![l])[i] == ll[i]);
        } else {
            assert((ll + seq![l])[i] == l);
        }
    }
    assert forall|i: int| 0 <= i < ll.len() implies loaded_pairs(ll + Seq::<LoadedFn>::empty())[i]
        == loaded_pairs(ll)[i] by {
        assert((ll + Seq::<LoadedFn>::empty())[i] == ll[i]);
    }
}

/// Decodes the given code-section entries into `md`, in declaration order.
/// Decodes one executable, fully-read entry and inserts it into the index;
/// a body that fails to decode leaves the index untouched.
#[verifier::rlimit(100)]
fn load_one(md: &mut ModuleData, item: EntryData, declared: u64) -> (loaded: bool)
    requires
        old(md).wf(),
        item.executable,
        item.entry.size_start < item.entry.locals_start <= item.entry.end,
        item.body@.len() == item.entry.end - item.entry.locals_start,
        forall|k: int|
            0 <= k < old(md).func_addrs@.len() ==> (#[trigger] old(md).func_addrs@[k]).0
                < declared,
    ensures
        final(md).wf(),
        loaded == entry_loads(item),
        !loaded ==> *final(md) == *old(md),
        loaded ==> {
            &&& final(md).func_addrs@ == old(md).func_addrs@.push(
                (declared, item.entry.size_start),
            )
            &&& final(md).functions@.len() == old(md).functions@.len() + 1
            &&& forall|i: int|
                0 <= i < old(md).functions@.len() ==> final(md).functions@[i] == old(
                    md,
                ).functions@[i]
            &&& ({
                let f = final(md).functions@[old(md).functions@.len() as int].0;
                &&& f.wf()
                &&& f.size_start == item.entry.size_start
                &&& f.locals_start == item.entry.locals_start
                &&& f.end == item.entry.end
            })
            &&& forall|a: u64| #[trigger]
                final(md).funcs@.dom().contains(a) <==> (item.entry.size_start <= a
                    < item.entry.end || old(md).funcs@.dom().contains(a))
        },
{
    let ce = item.entry;
    match parse_func(ce.size_start, ce.locals_start, ce.end, item.body) {
        Ok(f) => {
            md.insert_function(declared, f);
            proof {
                assert(entry_loads(item));
            }
            true
        },
        Err(_) => {
            proof {
                assert(!entry_loads(item));
            }
            false
        },
    }
}

/// The declared function index of entry `k` is `first_index + k`, counting
/// the function-typed imports that precede all locally-defined functions.
///
/// A non-executable entry is skipped with the index counter still
/// advancing; a body whose structured control flow fails to decode is
/// likewise skipped. A body shorter or longer than its declared boundaries
/// is a truncated read and aborts the whole load: the load fails exactly
/// when some executable entry's body has the wrong length. On success,
/// exactly the entries of [`loaded_list`] stand in the index, in
/// declaration order.
#[verifier::loop_isolation(false)]
#[verifier::rlimit(100)]
pub fn load_functions(md: &mut ModuleData, entries: Vec<EntryData>, first_index: u64) -> (r:
    Result<(), ModuleError>)
    requires
        old(md).wf(),
        forall|k: int|
            0 <= k < entries@.len() ==> ((#[trigger] entries@[k]).entry.size_start
                < entries@[k].entry.locals_start <= entries@[k].entry.end),
        forall|k: int|
            0 <= k < old(md).func_addrs@.len() ==> (#[trigger] old(md).func_addrs@[k]).0
                < first_index,
        first_index + entries@.len() <= u64::MAX,
    ensures
        final(md).wf(),
        forall|k: int|
            0 <= k < old(md).func_addrs@.len() ==> final(md).func_addrs@[k] == old(
                md,
            ).func_addrs@[k],
        final(md).func_addrs@.len() >= old(md).func_addrs@.len(),
        forall|k: int|
            old(md).func_addrs@.len() <= k < final(md).func_addrs@.len() ==> first_index <= (
            #[trigger] final(md).func_addrs@[k]).0 < first_index + entries@.len(),
        forall|i: int|
            0 <= i < old(md).functions@.len() ==> final(md).functions@[i] == old(
                md,
            ).functions@[i],
        (r is Err <==> exists|j: int|
            0 <= j < entries@.len() && (#[trigger] entries@[j]).executable
                && entries@[j].body@.len() != entries@[j].entry.end
                - entries@[j].entry.locals_start),
        r is Err ==> r->Err_0 == ModuleError::TruncatedRead,
        r is Ok ==> ({
            let ll = loaded_list(entries@, first_index, entries@.len() as int);
            &&& final(md).func_addrs@ == old(md).func_addrs@ + loaded_pairs(ll)
            &&& final(md).functions@.len() == old(md).functions@.len() + ll.len()
            &&& forall|i: int|
                0 <= i < ll.len() ==> {
                    let f = (#[trigger] final(md).functions@[old(md).functions@.len() + i]).0;
                    &&& f.wf()
                    &&& f.size_start == ll[i].size_start
                    &&& f.locals_start == ll[i].locals_start
                    &&& f.end == ll[i].end
                }
            &&& index_covers(final(md).funcs@, old(md).funcs@, ll)
        }),
{
    let ghost orig = entries@;
    let ghost addrs0 = old(md).func_addrs@;
    let ghost funcs0 = old(md).functions@;
    let ghost dom0 = old(md).funcs@;
    let ghost mut lload: Seq<LoadedFn> = Seq::empty();
    let mut entries = entries;
    let n: usize = entries.len();
    let mut k: usize = 0;
    proof {
        assert(addrs0 + loaded_pairs(lload) =~= addrs0);
    }
    while k < n
        invariant
            0 <= k <= n,
            entries@.len() == n,
            orig.len() == n,
            forall|p: int| k <= p < n ==> entries@[p] == orig[p],
            md.wf(),
            addrs0.len() <= md.func_addrs@.len(),
            forall|p: int| 0 <= p < addrs0.len() ==> md.func_addrs@[p] == addrs0[p],
            forall|p: int|
                addrs0.len() <= p < md.func_addrs@.len() ==> first_index <= (
                #[trigger] md.func_addrs@[p]).0 < first_index + k,
            forall|p: int|
                0 <= p < md.func_addrs@.len() ==> (#[trigger] md.func_addrs@[p]).0 < first_index
                    + k,
            forall|p: int|
                0 <= p < k ==> ((#[trigger] orig[p]).executable ==> orig[p].body@.len()
                    == orig[p].entry.end - orig[p].entry.locals_start),
            lload == loaded_list(orig, first_index, k as int),
            md.func_addrs@ == addrs0 + loaded_pairs(lload),
            md.functions@.len() == funcs0.len() + lload.len(),
            forall|i: int| 0 <= i < funcs0.len() ==> md.functions@[i] == funcs0[i],
            forall|i: int|
                0 <= i < lload.len() ==> {
                    let f = (#[trigger] md.functions@[funcs0.len() + i]).0;
                    &&& f.wf()
                    &&& f.size_start == lload[i].size_start
                    &&& f.locals_start == lload[i].locals_start
                    &&& f.end == lload[i].end
                },
            index_covers(md.funcs@, dom0, lload),
        decreases n - k,
    {
        let mut item = EntryData {
            entry: CodeEntry { size_start: 0, locals_start: 1, end: 1 },
            executable: false,
            body: Vec::new(),
        };
        core::mem::swap(&mut item, &mut entries[k]);
        proof {
            assert(item == orig[k as int]);
        }
        let declared: u64 = first_index + k as u64;
        if item.executable {
            let ce = item.entry;
            if item.body.len() as u64 != ce.end - ce.locals_start {
                return Err(ModuleError::TruncatedRead);
            }
            let ghost llk = lload;
            let ghost lfn = LoadedFn {
                declared,
                size_start: ce.size_start,
                locals_start: ce.locals_start,
                end: ce.end,
            };
            let ghost pre_dom = md.funcs@;
            let ghost pre_addrs = md.func_addrs@;
            let loaded: bool = load_one(md, item, declared);
            if loaded {
                proof {
                    assert(entry_loads(orig[k as int]));
                    assert(loaded_list(orig, first_index, k + 1) == llk + seq![lfn]);
                    lemma_loaded_snoc(llk, lfn);
                    lload = llk + seq![lfn];
                    assert(lload[lload.len() - 1] == lfn);
                    assert forall|i: int| 0 <= i < llk.len() implies #[trigger] lload[i] == llk[i]
                        by {}
                    assert(md.func_addrs@ == pre_addrs.push((declared, ce.size_start)));
                    assert(md.func_addrs@ =~= addrs0 + loaded_pairs(lload));
                    assert forall|i: int| 0 <= i < lload.len() implies {
                        let fv = (#[trigger] md.functions@[funcs0.len() + i]).0;
                        &&& fv.wf()
                        &&& fv.size_start == lload[i].size_start
                        &&& fv.locals_start == lload[i].locals_start
                        &&& fv.end == lload[i].end
                    } by {
                        if i < llk.len() {
                            assert(lload[i] == llk[i]);
                        } else {
                            assert(lload[i] == lfn);
                        }
                    }
                    lemma_dom_after_insert(pre_dom, md.funcs@, dom0, llk, lload, lfn);
                }
            } else {
                // A malformed body skips just this function: it is excluded
                // from the index while the declared-index counter still
                // advances.
                proof {
                    assert(!entry_loads(orig[k as int]));
                    assert(lload + Seq::<LoadedFn>::empty() =~= lload);
                    assert(loaded_list(orig, first_index, k + 1) == lload);
                    assert(md.funcs@ == pre_dom);
                    assert(index_covers(md.funcs@, dom0, lload));
                }
            }
        } else {
            proof {
                assert(!entry_loads(orig[k as int]));
                assert(lload + Seq::<LoadedFn>::empty() =~= lload);
                assert(loaded_list(orig, first_index, k + 1) == lload);
            }
        }
        k = k + 1;
    }
    proof {
        assert forall|j: int|
            !(0 <= j < orig.len() && (#[trigger] orig[j]).executable && orig[j].body@.len()
                != orig[j].entry.end - orig[j].entry.locals_start) by {}
    }
    Ok(())
}

} // verus!
