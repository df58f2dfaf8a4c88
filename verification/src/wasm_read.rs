//! The trusted boundary to the `wasmparser` crate.
//!
//! Decoding an arbitrary operator's byte length requires the operand
//! encoding of the whole instruction set, so the operator-stream scan is
//! delegated to `wasmparser` and trusted: the scanner below returns the cut
//! points between consecutive operators, and everything downstream —
//! classification, control-flow resolution, indexing — is verified against
//! those cut points. The import and export section walks are likewise
//! delegated, reduced to the plain values the verified logic reads.

use crate::bin_util::strictly_increasing;
use crate::insn::FuncError;
use crate::module_parse::{ExportEntry, ModuleError};
use vstd::prelude::*;

verus! {

/// The cut points of a function body's operator stream: entry 0 sits just
/// past the locals vector, every following entry is where the next operator
/// begins, and the final entry is the body's length. `None` when the body
/// cannot be scanned through to its end.
pub uninterp spec fn op_cuts(body: Seq<u8>) -> Option<Seq<usize>>;

/// Relies on wasmparser's `FunctionBody` and `OperatorsReader`: the reader
/// starts just past the locals vector (at least one byte in), each `read`
/// consumes at least one byte and never reads past the buffer, `eof` holds
/// exactly at the buffer's end, and reading fails on a malformed locals
/// vector, a malformed operator, or an operator that violates the
/// block/loop/if/else/end nesting.
#[verifier::external_body]
pub fn operator_cuts(body: &Vec<u8>) -> (r: Result<Vec<usize>, FuncError>)
    ensures
        match r {
            Ok(v) => {
                &&& op_cuts(body@) == Some(v@)
                &&& v@.len() >= 1
                &&& 1 <= v@[0]
                &&& v@[v@.len() - 1] == body@.len()
                &&& strictly_increasing(v@)
            },
            Err(e) => op_cuts(body@) is None && (e == FuncError::MalformedLocals || e
                == FuncError::MalformedBody),
        },
{
    let fb = wasmparser::FunctionBody::new(wasmparser::BinaryReader::new(body.as_slice(), 0));
    let mut rd = match fb.get_operators_reader() {
        Ok(rd) => rd,
        Err(_) => return Err(FuncError::MalformedLocals),
    };
    let mut cuts = vec![rd.original_position() as usize];
    while !rd.eof() {
        if rd.read().is_err() {
            return Err(FuncError::MalformedBody);
        }
        cuts.push(rd.original_position() as usize);
    }
    Ok(cuts)
}

/// For each import of an import section, whether it is a function import.
/// `None` when the section is malformed.
pub uninterp spec fn import_func_flags(sec: Seq<u8>) -> Option<Seq<bool>>;

/// Relies on wasmparser's `ImportSectionReader`: `into_imports` yields the
/// section's imports in order, and an import's type is a function type
/// exactly when it reads as `TypeRef::Func` or `TypeRef::FuncExact`.
#[verifier::external_body]
pub fn read_import_func_flags(sec: &Vec<u8>) -> (r: Result<Vec<bool>, ModuleError>)
    ensures
        match r {
            Ok(v) => import_func_flags(sec@) == Some(v@),
            Err(e) => import_func_flags(sec@) is None && e == ModuleError::MalformedImports,
        },
{
    let reader = wasmparser::BinaryReader::new(sec.as_slice(), 0);
    let rd = wasmparser::ImportSectionReader::new(reader).map_err(|_| ModuleError::MalformedImports)?;
    let mut v = Vec::new();
    for imp in rd.into_imports() {
        let i = imp.map_err(|_| ModuleError::MalformedImports)?;
        v.push(matches!(i.ty, wasmparser::TypeRef::Func(_) | wasmparser::TypeRef::FuncExact(_)));
    }
    Ok(v)
}

/// The function exports of an export section, as (declared function index,
/// export name) pairs in section order; a malformed entry ends the walk
/// silently, so a malformed export section never fails a load.
pub uninterp spec fn func_exports_of(sec: Seq<u8>) -> Seq<(u32, Seq<char>)>;

/// Relies on wasmparser's `ExportSectionReader`: it yields the section's
/// exports in order with their kind, index and name, and stops after the
/// first malformed entry.
#[verifier::external_body]
pub fn read_func_exports(sec: &Vec<u8>) -> (r: Vec<ExportEntry>)
    ensures
        func_exports_of(sec@) == r@.map_values(|e: ExportEntry| (e.func_index, e.name@)),
{
    let mut v = Vec::new();
    if let Ok(rd) = wasmparser::ExportSectionReader::new(
        wasmparser::BinaryReader::new(sec.as_slice(), 0),
    ) {
        for exp in rd {
            if let Ok(e) = exp {
                if e.kind == wasmparser::ExternalKind::Func {
                    v.push(ExportEntry { func_index: e.index, name: e.name.to_string() });
                }
            }
        }
    }
    v
}

} // verus!
