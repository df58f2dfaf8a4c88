//! LEB128 decoding of unsigned 32-bit integers, as the WebAssembly binary
//! format uses for every variable-length count and size field.
//!
//! A decoded value occupies one to five bytes; each byte contributes its low
//! seven bits, least significant group first, and a clear high bit marks the
//! final byte. Contributions past bit 31 are discarded.

use vstd::prelude::*;

verus! {

/// One step of the LEB128 decoding: `k` bytes have already been folded into
/// `acc`. Yields the decoded value and the total number of bytes consumed, or
/// `None` when the encoding runs past the end of `b` or past five bytes.
pub open spec fn leb_u32_step(b: Seq<u8>, pos: int, k: u32, acc: u32) -> Option<(u32, u8)>
    decreases 5 - k,
{
    if k >= 5 || pos < 0 || pos + k >= b.len() {
        None
    } else {
        let byte = b[pos + k];
        let acc2 = acc | (((byte & 0x7f) as u32) << (7 * k));
        if byte & 0x80 == 0 {
            Some((acc2, (k + 1) as u8))
        } else {
            leb_u32_step(b, pos, (k + 1) as u32, acc2)
        }
    }
}

/// The LEB128-encoded `u32` starting at byte `pos` of `b`: the decoded value
/// and the number of bytes it occupies, or `None` when no well-formed
/// encoding starts there.
pub open spec fn leb_u32_at(b: Seq<u8>, pos: int) -> Option<(u32, u8)> {
    leb_u32_step(b, pos, 0, 0)
}

/// Decodes the LEB128-encoded `u32` starting at index `pos` of `bytes`,
/// returning the value and the number of bytes consumed.
pub fn decode_u32_leb128(bytes: &Vec<u8>, pos: usize) -> (r: Result<(u32, u8), ()>)
    ensures
        match r {
            Ok(p) => leb_u32_at(bytes@, pos as int) == Some(p),
            Err(_) => leb_u32_at(bytes@, pos as int) is None,
        },
{
    let mut acc: u32 = 0;
    let mut k: u32 = 0;
    while k < 5
        invariant
            0 <= k <= 5,
            leb_u32_at(bytes@, pos as int) == leb_u32_step(bytes@, pos as int, k, acc),
        decreases 5 - k,
    {
        if pos >= bytes.len() || bytes.len() - pos <= k as usize {
            return Err(());
        }
        let byte: u8 = bytes[pos + k as usize];
        acc = acc | (((byte & 0x7f) as u32) << (7 * k));
        if byte & 0x80 == 0 {
            return Ok((acc, (k + 1) as u8));
        }
        k = k + 1;
    }
    Err(())
}

/// Every element of `s` is smaller than every later element.
pub open spec fn strictly_increasing(s: Seq<usize>) -> bool {
    forall|i: int, j: int| 0 <= i < j < s.len() ==> s[i] < s[j]
}

/// A source of bytes that can decode a LEB128 `u32` at an absolute address,
/// as the module walker reads every count and size field.
pub trait BinaryReadable {
    /// The addressable bytes of the source.
    spec fn source(&self) -> Seq<u8>;

    /// Decodes the LEB128 `u32` at address `addr` of the source.
    fn read_u32_leb128(&self, addr: u64) -> (r: Result<(u32, u8), ()>)
        ensures
            match r {
                Ok(p) => leb_u32_at(self.source(), addr as int) == Some(p),
                Err(_) => leb_u32_at(self.source(), addr as int) is None,
            },
    ;
}

/// A whole module image held in memory, addressed from zero.
pub struct ModuleBytes {
    pub bytes: Vec<u8>,
}

impl BinaryReadable for ModuleBytes {
    open spec fn source(&self) -> Seq<u8> {
        self.bytes@
    }

    fn read_u32_leb128(&self, addr: u64) -> (r: Result<(u32, u8), ()>)
    {
        if addr >= self.bytes.len() as u64 {
            return Err(());
        }
        decode_u32_leb128(&self.bytes, addr as usize)
    }
}

} // verus!
