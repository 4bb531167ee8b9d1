//! Column wire-types and the field size resolver.
//!
//! The wire-type tag of a column is sent in its column definition; the
//! resolver maps a tag to the byte length of the column's value at a given
//! offset of a binary-protocol row buffer.

use vstd::prelude::*;
use vstd::slice::slice_index_get;

use crate::error::DecodeError;
use crate::lenenc::{get_lenenc, lenenc_total};

verus! {

/// MySQL column wire-type tag, as carried in a column definition.
#[derive(Clone, Copy, Debug, PartialEq, Eq, Structural)]
pub struct TypeId(pub u8);

pub const TINY_INT: u8 = 1;

pub const SMALL_INT: u8 = 2;

pub const INT: u8 = 3;

pub const TIMESTAMP: u8 = 7;

pub const BIG_INT: u8 = 8;

pub const DATE: u8 = 10;

pub const TIME: u8 = 11;

pub const DATETIME: u8 = 12;

pub const TINY_BLOB: u8 = 249;

pub const MEDIUM_BLOB: u8 = 250;

pub const LONG_BLOB: u8 = 251;

pub const TEXT: u8 = 252;

pub const VAR_CHAR: u8 = 253;

pub const CHAR: u8 = 254;

/// The wire-types the field size resolver has a size rule for.
pub open spec fn supported_type(ty: TypeId) -> bool {
    ||| ty.0 == TINY_INT
    ||| ty.0 == SMALL_INT
    ||| ty.0 == INT
    ||| ty.0 == BIG_INT
    ||| ty.0 == DATE
    ||| ty.0 == TIME
    ||| ty.0 == TIMESTAMP
    ||| ty.0 == DATETIME
    ||| ty.0 == TINY_BLOB
    ||| ty.0 == MEDIUM_BLOB
    ||| ty.0 == LONG_BLOB
    ||| ty.0 == CHAR
    ||| ty.0 == TEXT
    ||| ty.0 == VAR_CHAR
}

/// Field size resolver: the number of bytes the value of a column of
/// wire-type `ty` occupies at offset `off` of the row buffer `b`.
///
/// Fixed-width integers and dates have a constant size; the time family
/// carries a sub-length byte at `off`; the string and blob family is
/// length-encoded. Any other tag has no size rule.
pub open spec fn field_len(ty: TypeId, b: Seq<u8>, off: int) -> Result<int, DecodeError> {
    if ty.0 == TINY_INT {
        Ok(1)
    } else if ty.0 == SMALL_INT {
        Ok(2)
    } else if ty.0 == INT {
        Ok(4)
    } else if ty.0 == BIG_INT {
        Ok(8)
    } else if ty.0 == DATE {
        Ok(5)
    } else if ty.0 == TIME || ty.0 == TIMESTAMP || ty.0 == DATETIME {
        if 0 <= off < b.len() {
            Ok(1 + b[off])
        } else {
            Err(DecodeError::Truncated)
        }
    } else if ty.0 == TINY_BLOB || ty.0 == MEDIUM_BLOB || ty.0 == LONG_BLOB || ty.0 == CHAR
        || ty.0 == TEXT || ty.0 == VAR_CHAR {
        match lenenc_total(b, off) {
            Some(s) => Ok(s),
            None => Err(DecodeError::Truncated),
        }
    } else {
        Err(DecodeError::UnsupportedType)
    }
}

/// Law: a wire-type absent from the resolver table fails with
/// `UnsupportedType`, whatever the buffer holds — and only such a type does.
pub proof fn lemma_unsupported_type(ty: TypeId, b: Seq<u8>, off: int)
    ensures
        !supported_type(ty) <==> field_len(ty, b, off) == Err::<int, DecodeError>(
            DecodeError::UnsupportedType,
        ),
{
}

/// Field size resolver, checked against the buffer: the byte length of the
/// value of a column of wire-type `ty` at offset `off` of `b`, required to
/// lie within `b`. Fails with `Truncated` when the size cannot be read or
/// the value would extend past the end of `b`, and with `UnsupportedType`
/// when `ty` has no size rule.
pub fn field_size(ty: TypeId, b: &[u8], off: usize) -> (r: Result<usize, DecodeError>)
    requires
        off <= b@.len(),
    ensures
        match r {
            Ok(s) => field_len(ty, b@, off as int) == Ok::<int, DecodeError>(s as int) && off + s
                <= b@.len(),
            Err(e) => match field_len(ty, b@, off as int) {
                Ok(t) => e == DecodeError::Truncated && off + t > b@.len(),
                Err(e2) => e == e2,
            },
        },
{
    let len = b.len();
    let t = ty.0;
    if t == TINY_INT || t == SMALL_INT || t == INT || t == BIG_INT || t == DATE {
        let s: usize = if t == TINY_INT {
            1
        } else if t == SMALL_INT {
            2
        } else if t == INT {
            4
        } else if t == BIG_INT {
            8
        } else {
            5
        };
        if s <= len - off {
            Ok(s)
        } else {
            Err(DecodeError::Truncated)
        }
    } else if t == TIME || t == TIMESTAMP || t == DATETIME {
        if off >= len {
            return Err(DecodeError::Truncated);
        }
        let n = *slice_index_get(b, off);
        let s: usize = 1 + n as usize;
        if s <= len - off {
            Ok(s)
        } else {
            Err(DecodeError::Truncated)
        }
    } else if t == TINY_BLOB || t == MEDIUM_BLOB || t == LONG_BLOB || t == CHAR || t == TEXT || t
        == VAR_CHAR {
        get_lenenc(b, off)
    } else {
        Err(DecodeError::UnsupportedType)
    }
}

} // verus!
