//! Length-encoded integer decoder.
//!
//! MySQL encodes lengths with a variable-width scheme selected by the first
//! byte: a literal below `0xFB`, the text-protocol NULL marker `0xFB`, or a
//! 2-, 3- or 8-byte little-endian length after `0xFC`, `0xFD` or `0xFE`.
//! This module computes the total byte span (prefix plus payload) of such a
//! field without interpreting the payload.

use vstd::prelude::*;
use vstd::slice::slice_index_get;

use crate::error::DecodeError;

verus! {

/// The two bytes at `off` read as a little-endian integer.
pub open spec fn le16(b: Seq<u8>, off: int) -> int {
    b[off] + 0x100 * b[off + 1]
}

/// The three bytes at `off` read as a little-endian integer.
pub open spec fn le24(b: Seq<u8>, off: int) -> int {
    b[off] + 0x100 * b[off + 1] + 0x1_0000 * b[off + 2]
}

/// The eight bytes at `off` read as a little-endian integer.
pub open spec fn le64(b: Seq<u8>, off: int) -> int {
    b[off] + 0x100 * b[off + 1] + 0x1_0000 * b[off + 2] + 0x100_0000 * b[off + 3]
        + 0x1_0000_0000 * b[off + 4] + 0x100_0000_0000 * b[off + 5]
        + 0x1_0000_0000_0000 * b[off + 6] + 0x100_0000_0000_0000 * b[off + 7]
}

/// Total byte span (prefix plus payload) of the length-encoded field that
/// starts at `off` in `b`, or `None` when the buffer ends before the
/// declared-width length prefix is complete.
pub open spec fn lenenc_total(b: Seq<u8>, off: int) -> Option<int> {
    if off < 0 || off >= b.len() {
        None
    } else if b[off] == 0xFB {
        Some(1)
    } else if b[off] == 0xFC {
        if off + 3 <= b.len() {
            Some(3 + le16(b, off + 1))
        } else {
            None
        }
    } else if b[off] == 0xFD {
        if off + 4 <= b.len() {
            Some(4 + le24(b, off + 1))
        } else {
            None
        }
    } else if b[off] == 0xFE {
        if off + 9 <= b.len() {
            Some(9 + le64(b, off + 1))
        } else {
            None
        }
    } else {
        Some(1 + b[off])
    }
}

/// Law: the total span of a length-encoded field, keyed by its first byte:
/// `0xFB` spans 1 byte; a literal `v < 0xFB` spans `1 + v`; `0xFC`, `0xFD`
/// and `0xFE` span `3 + L`, `4 + L` and `9 + L` for the little-endian length
/// `L` that follows the prefix.
pub proof fn lemma_lenenc_totals(b: Seq<u8>, off: int)
    requires
        0 <= off < b.len(),
    ensures
        b[off] == 0xFB ==> lenenc_total(b, off) == Some(1int),
        b[off] < 0xFB ==> lenenc_total(b, off) == Some(1 + b[off] as int),
        b[off] == 0xFC && off + 3 <= b.len() ==> lenenc_total(b, off) == Some(3 + le16(b, off + 1)),
        b[off] == 0xFD && off + 4 <= b.len() ==> lenenc_total(b, off) == Some(4 + le24(b, off + 1)),
        b[off] == 0xFE && off + 9 <= b.len() ==> lenenc_total(b, off) == Some(9 + le64(b, off + 1)),
{
}

/// Length-encoded integer decoder: the total number of bytes (prefix plus
/// payload) occupied by the field starting at `off` in `b`, checked to lie
/// within `b`. Fails with [`DecodeError::Truncated`] when the length prefix
/// itself, or the span it declares, extends past the end of `b`.
pub fn get_lenenc(b: &[u8], off: usize) -> (r: Result<usize, DecodeError>)
    requires
        off <= b@.len(),
    ensures
        match r {
            Ok(s) => lenenc_total(b@, off as int) == Some(s as int) && off + s <= b@.len(),
            Err(e) => {
                &&& e == DecodeError::Truncated
                &&& match lenenc_total(b@, off as int) {
                    Some(t) => off + t > b@.len(),
                    None => true,
                }
            },
        },
{
    let len = b.len();
    if off >= len {
        return Err(DecodeError::Truncated);
    }
    let p = *slice_index_get(b, off);
    if p == 0xFB {
        Ok(1)
    } else if p == 0xFC {
        if len - off < 3 {
            return Err(DecodeError::Truncated);
        }
        let l: u64 = (*slice_index_get(b, off + 1) as u64)
            + 0x100 * (*slice_index_get(b, off + 2) as u64);
        if l <= (len - off - 3) as u64 {
            Ok(3 + l as usize)
        } else {
            Err(DecodeError::Truncated)
        }
    } else if p == 0xFD {
        if len - off < 4 {
            return Err(DecodeError::Truncated);
        }
        let l: u64 = (*slice_index_get(b, off + 1) as u64)
            + 0x100 * (*slice_index_get(b, off + 2) as u64)
            + 0x1_0000 * (*slice_index_get(b, off + 3) as u64);
        if l <= (len - off - 4) as u64 {
            Ok(4 + l as usize)
        } else {
            Err(DecodeError::Truncated)
        }
    } else if p == 0xFE {
        if len - off < 9 {
            return Err(DecodeError::Truncated);
        }
        let l: u64 = (*slice_index_get(b, off + 1) as u64)
            + 0x100 * (*slice_index_get(b, off + 2) as u64)
            + 0x1_0000 * (*slice_index_get(b, off + 3) as u64)
            + 0x100_0000 * (*slice_index_get(b, off + 4) as u64)
            + 0x1_0000_0000 * (*slice_index_get(b, off + 5) as u64)
            + 0x100_0000_0000 * (*slice_index_get(b, off + 6) as u64)
            + 0x1_0000_0000_0000 * (*slice_index_get(b, off + 7) as u64)
            + 0x100_0000_0000_0000 * (*slice_index_get(b, off + 8) as u64);
        if l <= (len - off - 9) as u64 {
            Ok(9 + l as usize)
        } else {
            Err(DecodeError::Truncated)
        }
    } else {
        let s: usize = 1 + p as usize;
        if s <= len - off {
            Ok(s)
        } else {
            Err(DecodeError::Truncated)
        }
    }
}

} // verus!
