//! Classification of a single WebAssembly operator from raw body bytes.
//!
//! Every opcode that affects structured control flow (`block`, `loop`, `if`,
//! `else`, `end`, `br`, `br_if`, `br_table`) and every opcode the edge
//! builder treats specially (`unreachable`, `return`, `call`,
//! `call_indirect`) is a single byte, and their immediates are plain LEB128
//! integers, so this classification is decoded and verified here directly.
//! The byte length of an arbitrary operator, which depends on the full
//! instruction set, comes separately from the operator-stream scanner.

use crate::bin_util::{decode_u32_leb128, leb_u32_at, leb_u32_step};
use vstd::prelude::*;

verus! {

/// Reasons a single function body fails to decode.
#[derive(Debug, Clone, Copy, PartialEq, Eq)]
pub enum FuncError {
    /// The locals vector at the start of the body is malformed.
    MalformedLocals,
    /// An operator in the body could not be decoded.
    MalformedBody,
    /// A branch names a relative depth with no open scope.
    BadDepth,
    /// An `else` appeared whose innermost open scope is not an `if`.
    MisplacedElse,
    /// An `end` appeared with no open scope.
    MisplacedEnd,
    /// A deferred label could not be resolved once all scopes were known.
    UnresolvedLabel,
}

/// An operator, reduced to what decoding control flow needs. All remaining
/// opcodes fall under `Other`.
#[derive(Debug, PartialEq, Eq)]
pub enum Op {
    Unreachable,
    Nop,
    Block,
    Loop,
    If,
    Else,
    End,
    Br { relative_depth: u32 },
    BrIf { relative_depth: u32 },
    BrTable { targets: Vec<u32>, default_depth: u32 },
    Return,
    Call { function_index: u32 },
    CallIndirect,
    Other,
}

/// Mathematical model of an [`Op`]: the `br_table` target list becomes a
/// sequence.
pub enum OpModel {
    Unreachable,
    Nop,
    Block,
    Loop,
    If,
    Else,
    End,
    Br { relative_depth: u32 },
    BrIf { relative_depth: u32 },
    BrTable { targets: Seq<u32>, default_depth: u32 },
    Return,
    Call { function_index: u32 },
    CallIndirect,
    Other,
}

impl View for Op {
    type V = OpModel;

    open spec fn view(&self) -> OpModel {
        match self {
            Op::Unreachable => OpModel::Unreachable,
            Op::Nop => OpModel::Nop,
            Op::Block => OpModel::Block,
            Op::Loop => OpModel::Loop,
            Op::If => OpModel::If,
            Op::Else => OpModel::Else,
            Op::End => OpModel::End,
            Op::Br { relative_depth } => OpModel::Br { relative_depth: *relative_depth },
            Op::BrIf { relative_depth } => OpModel::BrIf { relative_depth: *relative_depth },
            Op::BrTable { targets, default_depth } => OpModel::BrTable {
                targets: targets@,
                default_depth: *default_depth,
            },
            Op::Return => OpModel::Return,
            Op::Call { function_index } => OpModel::Call { function_index: *function_index },
            Op::CallIndirect => OpModel::CallIndirect,
            Op::Other => OpModel::Other,
        }
    }
}

/// A run of `n` consecutive LEB128 `u32` values starting at `pos`: the
/// decoded values and the position just past the run.
pub open spec fn leb_u32_run(b: Seq<u8>, pos: int, n: nat) -> Option<(Seq<u32>, int)>
    decreases n,
{
    if n == 0 {
        Some((Seq::empty(), pos))
    } else {
        match leb_u32_at(b, pos) {
            Some(p) => match leb_u32_run(b, pos + p.1, (n - 1) as nat) {
                Some(q) => Some((seq![p.0].add(q.0), q.1)),
                None => None,
            },
            None => None,
        }
    }
}

/// The classification of the operator whose first byte sits at `pos` of `b`:
/// `None` when `pos` is out of range or a control immediate is malformed.
pub open spec fn op_of(b: Seq<u8>, pos: int) -> Option<OpModel> {
    if pos < 0 || pos >= b.len() {
        None
    } else {
        let opc = b[pos];
        if opc == 0x00 {
            Some(OpModel::Unreachable)
        } else if opc == 0x01 {
            Some(OpModel::Nop)
        } else if opc == 0x02 {
            Some(OpModel::Block)
        } else if opc == 0x03 {
            Some(OpModel::Loop)
        } else if opc == 0x04 {
            Some(OpModel::If)
        } else if opc == 0x05 {
            Some(OpModel::Else)
        } else if opc == 0x0b {
            Some(OpModel::End)
        } else if opc == 0x0c {
            match leb_u32_at(b, pos + 1) {
                Some(p) => Some(OpModel::Br { relative_depth: p.0 }),
                None => None,
            }
        } else if opc == 0x0d {
            match leb_u32_at(b, pos + 1) {
                Some(p) => Some(OpModel::BrIf { relative_depth: p.0 }),
                None => None,
            }
        } else if opc == 0x0e {
            match leb_u32_at(b, pos + 1) {
                Some(p) => match leb_u32_run(b, pos + 1 + p.1, p.0 as nat) {
                    Some(q) => match leb_u32_at(b, q.1) {
                        Some(d) => Some(OpModel::BrTable { targets: q.0, default_depth: d.0 }),
                        None => None,
                    },
                    None => None,
                },
                None => None,
            }
        } else if opc == 0x0f {
            Some(OpModel::Return)
        } else if opc == 0x10 {
            match leb_u32_at(b, pos + 1) {
                Some(p) => Some(OpModel::Call { function_index: p.0 }),
                None => None,
            }
        } else if opc == 0x11 {
            Some(OpModel::CallIndirect)
        } else {
            Some(OpModel::Other)
        }
    }
}

/// A well-formed LEB128 encoding lies entirely inside the byte sequence.
pub proof fn lemma_leb_bounds(b: Seq<u8>, pos: int, k: u32, acc: u32)
    requires
        leb_u32_step(b, pos, k, acc) is Some,
    ensures
        k < leb_u32_step(b, pos, k, acc)->Some_0.1 <= 5,
        pos + leb_u32_step(b, pos, k, acc)->Some_0.1 <= b.len(),
    decreases 5 - k,
{
    let byte = b[pos + k];
    if byte & 0x80 != 0 {
        lemma_leb_bounds(b, pos, (k + 1) as u32, acc | (((byte & 0x7f) as u32) << (7 * k)));
    }
}

/// Decodes `n` consecutive LEB128 `u32` values starting at index `pos`.
pub fn read_leb_run(bytes: &Vec<u8>, pos: usize, n: u32) -> (r: Result<(Vec<u32>, usize), ()>)
    requires
        pos <= bytes@.len(),
    ensures
        match r {
            Ok(p) => leb_u32_run(bytes@, pos as int, n as nat) == Some((p.0@, p.1 as int)),
            Err(_) => leb_u32_run(bytes@, pos as int, n as nat) is None,
        },
{
    let mut v: Vec<u32> = Vec::new();
    let mut cur: usize = pos;
    let mut i: u32 = 0;
    while i < n
        invariant
            0 <= i <= n,
            pos <= cur <= bytes@.len(),
            leb_u32_run(bytes@, pos as int, n as nat) == (match leb_u32_run(
                bytes@,
                cur as int,
                (n - i) as nat,
            ) {
                Some(q) => Some((v@ + q.0, q.1)),
                None => None::<(Seq<u32>, int)>,
            }),
        decreases n - i,
    {
        let ghost rest = (n - i) as nat;
        match decode_u32_leb128(bytes, cur) {
            Ok((val, c)) => {
                let blen: usize = bytes.len();
                proof {
                    lemma_leb_bounds(bytes@, cur as int, 0, 0);
                    assert(leb_u32_at(bytes@, cur as int) == Some((val, c)));
                    assert(cur + c <= blen);
                }
                proof {
                    let step = leb_u32_run(bytes@, (cur + c) as int, (rest - 1) as nat);
                    if step is Some {
                        assert(v@ + (seq![val].add(step->Some_0.0)) =~= (v@.push(val)) + step->Some_0.0);
                    }
                }
                v.push(val);
                cur = cur + c as usize;
                i = i + 1;
            },
            Err(_) => {
                return Err(());
            },
        }
    }
    proof {
        assert(v@ + Seq::<u32>::empty() =~= v@);
    }
    Ok((v, cur))
}

/// Classifies the operator whose first byte sits at index `pos` of `bytes`.
pub fn decode_op(bytes: &Vec<u8>, pos: usize) -> (r: Result<Op, ()>)
    ensures
        match r {
            Ok(op) => op_of(bytes@, pos as int) == Some(op@),
            Err(_) => op_of(bytes@, pos as int) is None,
        },
{
    if pos >= bytes.len() {
        return Err(());
    }
    let opc: u8 = bytes[pos];
    match opc {
        0x00 => Ok(Op::Unreachable),
        0x01 => Ok(Op::Nop),
        0x02 => Ok(Op::Block),
        0x03 => Ok(Op::Loop),
        0x04 => Ok(Op::If),
        0x05 => Ok(Op::Else),
        0x0b => Ok(Op::End),
        0x0c => {
            let (d, _) = decode_u32_leb128(bytes, pos + 1)?;
            Ok(Op::Br { relative_depth: d })
        },
        0x0d => {
            let (d, _) = decode_u32_leb128(bytes, pos + 1)?;
            Ok(Op::BrIf { relative_depth: d })
        },
        0x0e => {
            let (n, c) = decode_u32_leb128(bytes, pos + 1)?;
            proof {
                lemma_leb_bounds(bytes@, pos + 1, 0, 0);
            }
            let (targets, q) = read_leb_run(bytes, pos + 1 + c as usize, n)?;
            let (d, _) = decode_u32_leb128(bytes, q)?;
            Ok(Op::BrTable { targets, default_depth: d })
        },
        0x0f => Ok(Op::Return),
        0x10 => {
            let (f, _) = decode_u32_leb128(bytes, pos + 1)?;
            Ok(Op::Call { function_index: f })
        },
        0x11 => Ok(Op::CallIndirect),
        _ => Ok(Op::Other),
    }
}

} // verus!
