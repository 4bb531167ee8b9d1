//! Null bitmap reader (binary protocol).
//!
//! A binary-protocol row carries, after its header byte, a bitmap of
//! `(column_count + 9) / 8` bytes. Column `i` is SQL NULL iff bit `i + 2` of
//! the bitmap is set: the first two bit positions are reserved and unused, a
//! quirk of the MySQL wire format.

use vstd::prelude::*;
use vstd::slice::slice_index_get;

verus! {

/// Whether column `i` is marked NULL in `bitmap`: bit `i + 2`, read with
/// byte index `(i + 2) / 8` and mask `1 << ((i + 2) % 8)`.
pub open spec fn spec_column_null(bitmap: Seq<u8>, i: int) -> bool {
    bitmap[(i + 2) / 8] & (1u8 << (((i + 2) % 8) as u8)) != 0
}

/// Null bitmap reader: whether column `i` is marked NULL in `bitmap`.
pub fn is_column_null(bitmap: &[u8], i: usize) -> (r: bool)
    requires
        (i + 2) / 8 < bitmap@.len(),
    ensures
        r == spec_column_null(bitmap@, i as int),
{
    let bit: u128 = i as u128 + 2;
    let byte_idx: usize = (bit / 8) as usize;
    let shift: u8 = (bit % 8) as u8;
    let byte = *slice_index_get(bitmap, byte_idx);
    (byte & (1u8 << shift)) != 0
}

} // verus!
