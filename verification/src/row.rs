//! Row decoder and the decoded row container.
//!
//! A [`Row`] owns one contiguous buffer — the row's value bytes — and, per
//! column, either the half-open byte range of that column's value or an
//! explicit NULL. [`Row::decode`] builds it from a packet payload and the
//! result set's ordered column wire-types, for either protocol row shape.

use vstd::prelude::*;
use vstd::slice::{slice_subrange, slice_to_vec};

use crate::bitmap::spec_column_null;
use crate::error::DecodeError;
use crate::lenenc::lenenc_total;
use crate::types::{field_len, TypeId};

verus! {

/// The mathematical content of a decoded row: the row buffer and, per
/// column, either the half-open byte range of its value or `None` for NULL.
#[verifier::ext_equal]
pub struct RowModel {
    pub buffer: Seq<u8>,
    pub values: Seq<Option<(int, int)>>,
}

/// A stored range, in mathematical form.
pub open spec fn range_model(v: Option<(usize, usize)>) -> Option<(int, int)> {
    match v {
        Some(p) => Some((p.0 as int, p.1 as int)),
        None => None,
    }
}

/// The stored ranges of a row, in mathematical form.
pub open spec fn ranges_model(vs: Seq<Option<(usize, usize)>>) -> Seq<Option<(int, int)>> {
    vs.map_values(|v: Option<(usize, usize)>| range_model(v))
}

/// Ranges of the `n` length-encoded column values that start at `off` in a
/// text-protocol row buffer `b`. Every column of a text row is present; a
/// `0xFB` NULL marker only shortens its range to the single marker byte —
/// resolving that marker is left to a higher layer.
pub open spec fn spec_text_values(b: Seq<u8>, off: int, n: nat) -> Result<
    Seq<Option<(int, int)>>,
    DecodeError,
>
    decreases n,
{
    if n == 0 {
        Ok(Seq::empty())
    } else {
        match lenenc_total(b, off) {
            None => Err(DecodeError::Truncated),
            Some(s) => if off + s <= b.len() {
                match spec_text_values(b, off + s, (n - 1) as nat) {
                    Ok(rest) => Ok(seq![Some((off, off + s))] + rest),
                    Err(e) => Err(e),
                }
            } else {
                Err(DecodeError::Truncated)
            },
        }
    }
}

/// Ranges of the values of columns `i..` of a binary-protocol row, starting
/// at offset `off` of the row buffer `b`. A column whose null bit is set is
/// absent and consumes no bytes; any other column consumes the span the
/// field size resolver gives it.
pub open spec fn spec_binary_values(
    b: Seq<u8>,
    cols: Seq<TypeId>,
    bitmap: Seq<u8>,
    i: int,
    off: int,
) -> Result<Seq<Option<(int, int)>>, DecodeError>
    decreases cols.len() - i,
{
    if i < 0 || i >= cols.len() {
        Ok(Seq::empty())
    } else if spec_column_null(bitmap, i) {
        match spec_binary_values(b, cols, bitmap, i + 1, off) {
            Ok(rest) => Ok(seq![Option::<(int, int)>::None] + rest),
            Err(e) => Err(e),
        }
    } else {
        match field_len(cols[i], b, off) {
            Err(e) => Err(e),
            Ok(s) => if off + s <= b.len() {
                match spec_binary_values(b, cols, bitmap, i + 1, off + s) {
                    Ok(rest) => Ok(seq![Some((off, off + s))] + rest),
                    Err(e) => Err(e),
                }
            } else {
                Err(DecodeError::Truncated)
            },
        }
    }
}

/// Result of decoding a text-protocol row: the whole payload becomes the row
/// buffer, and every column gets a length-encoded range.
pub open spec fn spec_decode_text(payload: Seq<u8>, cols: Seq<TypeId>) -> Result<
    RowModel,
    DecodeError,
> {
    match spec_text_values(payload, 0, cols.len()) {
        Ok(v) => Ok(RowModel { buffer: payload, values: v }),
        Err(e) => Err(e),
    }
}

/// Result of decoding a binary-protocol row: a `0x00` header byte, then a
/// null bitmap of `(cols.len() + 9) / 8` bytes, then the value bytes, which
/// become the row buffer.
pub open spec fn spec_decode_binary(payload: Seq<u8>, cols: Seq<TypeId>) -> Result<
    RowModel,
    DecodeError,
> {
    if payload.len() < 1 {
        Err(DecodeError::Truncated)
    } else if payload[0] != 0 {
        Err(DecodeError::ProtocolViolation)
    } else {
        let nb = (cols.len() + 9) / 8;
        if payload.len() < 1 + nb {
            Err(DecodeError::Truncated)
        } else {
            let bm = payload.subrange(1, 1 + nb as int);
            let b = payload.subrange(1 + nb as int, payload.len() as int);
            match spec_binary_values(b, cols, bm, 0, 0) {
                Ok(v) => Ok(RowModel { buffer: b, values: v }),
                Err(e) => Err(e),
            }
        }
    }
}

/// Result of decoding one row payload against the column list `cols`, with
/// `binary` selecting the protocol row shape.
pub open spec fn spec_decode(payload: Seq<u8>, cols: Seq<TypeId>, binary: bool) -> Result<
    RowModel,
    DecodeError,
> {
    if binary {
        spec_decode_binary(payload, cols)
    } else {
        spec_decode_text(payload, cols)
    }
}

/// One decoded result-set row: an owned, immutable buffer of the row's value
/// bytes and, per column, either the byte range of its value or NULL.
pub struct Row {
    buffer: Vec<u8>,
    values: Vec<Option<(usize, usize)>>,
}

impl Row {
    /// Every stored range lies within the buffer.
    #[verifier::type_invariant]
    spec fn wf(self) -> bool {
        forall|j: int|
            0 <= j < self.values@.len() ==> ((#[trigger] self.values@[j]) matches Some(p) ==> p.0
                <= p.1 <= self.buffer@.len())
    }

    /// The mathematical content of this row.
    pub closed spec fn model(self) -> RowModel {
        RowModel { buffer: self.buffer@, values: ranges_model(self.values@) }
    }

    /// Number of columns.
    pub open spec fn ncols(self) -> nat {
        self.model().values.len()
    }

    /// Column `i`: the bytes of its value, or `None` for SQL NULL.
    pub open spec fn col(self, i: int) -> Option<Seq<u8>> {
        match self.model().values[i] {
            Some(p) => Some(self.model().buffer.subrange(p.0, p.1)),
            None => None,
        }
    }

    /// Number of columns of this row — one per entry of the column list it
    /// was decoded against.
    pub fn len(&self) -> (n: usize)
        ensures
            n == self.ncols(),
    {
        self.values.len()
    }

    /// Zero-copy access to column `index`: its raw value bytes, or `None`
    /// when the column is SQL NULL. A present value of length zero is
    /// `Some` of an empty slice, distinct from NULL.
    pub fn get(&self, index: usize) -> (r: Option<&[u8]>)
        requires
            index < self.ncols(),
        ensures
            match r {
                Some(s) => self.col(index as int) == Some(s@),
                None => self.col(index as int) is None,
            },
    {
        proof {
            use_type_invariant(&*self);
        }
        match self.values[index] {
            None => None,
            Some(range) => Some(slice_subrange(self.buffer.as_slice(), range.0, range.1)),
        }
    }

    /// Row decoder: builds a `Row` from one packet payload and the result
    /// set's ordered column wire-types; `binary` selects the protocol row
    /// shape. Any sub-step failure aborts with the error; no partially
    /// built row is returned.
    pub fn decode(buf: &[u8], columns: &[TypeId], binary: bool) -> (r: Result<Row, DecodeError>)
        ensures
            match r {
                Ok(row) => spec_decode(buf@, columns@, binary) == Ok::<RowModel, DecodeError>(
                    row.model(),
                ),
                Err(e) => spec_decode(buf@, columns@, binary) == Err::<RowModel, DecodeError>(e),
            },
    {
        let n = columns.len();
        if !binary {
            let len = buf.len();
            let mut values: Vec<Option<(usize, usize)>> = Vec::new();
            let mut off: usize = 0;
            let mut i: usize = 0;
            while i < n
                invariant
                    !binary,
                    n == columns@.len(),
                    len == buf@.len(),
                    i <= n,
                    off <= buf@.len(),
                    values@.len() == i,
                    forall|j: int|
                        0 <= j < i as int ==> ((#[trigger] values@[j]) matches Some(p) ==> p.0
                            <= p.1 <= buf@.len()),
                    spec_text_values(buf@, 0, n as nat) == (match spec_text_values(
                        buf@,
                        off as int,
                        (n - i) as nat,
                    ) {
                        Ok(rest) => Ok::<Seq<Option<(int, int)>>, DecodeError>(
                            ranges_model(values@) + rest,
                        ),
                        Err(e) => Err::<Seq<Option<(int, int)>>, DecodeError>(e),
                    }),
                decreases n - i,
            {
                let ghost prev_values = values@;
                let ghost prev_off = off as int;
                let s = match crate::lenenc::get_lenenc(buf, off) {
                    Ok(s) => s,
                    Err(e) => {
                        return Err(e);
                    },
                };
                values.push(Some((off, off + s)));
                off = off + s;
                i = i + 1;
                proof {
                    assert(ranges_model(values@) =~= ranges_model(prev_values) + seq![
                        Some((prev_off, prev_off + s as int)),
                    ]);
                    match spec_text_values(buf@, off as int, (n - i) as nat) {
                        Ok(rest) => {
                            assert(ranges_model(prev_values) + (seq![
                                Some((prev_off, prev_off + s as int)),
                            ] + rest) =~= ranges_model(values@) + rest);
                        },
                        Err(_) => {},
                    }
                }
            }
            proof {
                assert(ranges_model(values@) + Seq::<Option<(int, int)>>::empty() =~= ranges_model(
                    values@,
                ));
            }
            let buffer = slice_to_vec(buf);
            return Ok(Row { buffer, values });
        }
        if buf.len() < 1 {
            return Err(DecodeError::Truncated);
        }
        let header = *vstd::slice::slice_index_get(buf, 0);
        if header != 0 {
            return Err(DecodeError::ProtocolViolation);
        }
        let nb128: u128 = (n as u128 + 9) / 8;
        if nb128 > (buf.len() - 1) as u128 {
            return Err(DecodeError::Truncated);
        }
        let nb: usize = nb128 as usize;
        let bitmap = slice_subrange(buf, 1, 1 + nb);
        let rowbuf = slice_subrange(buf, 1 + nb, buf.len());
        let rlen = rowbuf.len();
        let mut values: Vec<Option<(usize, usize)>> = Vec::new();
        let mut off: usize = 0;
        let mut i: usize = 0;
        while i < n
            invariant
                binary,
                i <= n,
                n == columns@.len(),
                rlen == rowbuf@.len(),
                off <= rowbuf@.len(),
                values@.len() == i,
                nb == (n + 9) / 8,
                1 + nb <= buf@.len(),
                bitmap@ == buf@.subrange(1, 1 + nb as int),
                rowbuf@ == buf@.subrange(1 + nb as int, buf@.len() as int),
                buf@.len() >= 1 && buf@[0] == 0,
                forall|j: int|
                    0 <= j < i as int ==> ((#[trigger] values@[j]) matches Some(p) ==> p.0 <= p.1
                        <= rowbuf@.len()),
                spec_binary_values(rowbuf@, columns@, bitmap@, 0, 0) == (match spec_binary_values(
                    rowbuf@,
                    columns@,
                    bitmap@,
                    i as int,
                    off as int,
                ) {
                    Ok(rest) => Ok::<Seq<Option<(int, int)>>, DecodeError>(
                        ranges_model(values@) + rest,
                    ),
                    Err(e) => Err::<Seq<Option<(int, int)>>, DecodeError>(e),
                }),
            decreases n - i,
        {
            let ghost prev_values = values@;
            let ghost prev_off = off as int;
            proof {
                assert((i as int + 2) / 8 < nb as int) by {
                    assert((i as int + 2) <= (n as int + 1));
                    vstd::arithmetic::div_mod::lemma_div_is_ordered(
                        i as int + 2,
                        n as int + 1,
                        8,
                    );
                    assert((n as int + 9) / 8 == (n as int + 1) / 8 + 1) by {
                        vstd::arithmetic::div_mod::lemma_div_plus_one(n as int + 1, 8);
                    };
                };
            }
            if crate::bitmap::is_column_null(bitmap, i) {
                values.push(None);
                i = i + 1;
                proof {
                    assert(ranges_model(values@) =~= ranges_model(prev_values) + seq![
                        Option::<(int, int)>::None,
                    ]);
                    match spec_binary_values(rowbuf@, columns@, bitmap@, i as int, off as int) {
                        Ok(rest) => {
                            assert(ranges_model(prev_values) + (seq![
                                Option::<(int, int)>::None,
                            ] + rest) =~= ranges_model(values@) + rest);
                        },
                        Err(_) => {},
                    }
                }
            } else {
                let ty = *vstd::slice::slice_index_get(columns, i);
                let s = match crate::types::field_size(ty, rowbuf, off) {
                    Ok(s) => s,
                    Err(e) => {
                        return Err(e);
                    },
                };
                values.push(Some((off, off + s)));
                off = off + s;
                i = i + 1;
                proof {
                    assert(ranges_model(values@) =~= ranges_model(prev_values) + seq![
                        Some((prev_off, prev_off + s as int)),
                    ]);
                    match spec_binary_values(rowbuf@, columns@, bitmap@, i as int, off as int) {
                        Ok(rest) => {
                            assert(ranges_model(prev_values) + (seq![
                                Some((prev_off, prev_off + s as int)),
                            ] + rest) =~= ranges_model(values@) + rest);
                        },
                        Err(_) => {},
                    }
                }
            }
        }
        proof {
            assert(ranges_model(values@) + Seq::<Option<(int, int)>>::empty() =~= ranges_model(
                values@,
            ));
        }
        let buffer = slice_to_vec(rowbuf);
        Ok(Row { buffer, values })
    }
}

proof fn lemma_text_values_props(b: Seq<u8>, off: int, n: nat)
    ensures
        spec_text_values(b, off, n) matches Ok(v) ==> {
            &&& v.len() == n
            &&& forall|j: int|
                0 <= j < v.len() ==> ((#[trigger] v[j]) matches Some(p) && 0 <= p.0 <= p.1
                    <= b.len())
            &&& n > 0 ==> v[0] is Some && v[0]->Some_0.0 == off
            &&& forall|j: int|
                0 <= j < v.len() - 1 ==> (#[trigger] v[j])->Some_0.1 == v[j + 1]->Some_0.0
        },
    decreases n,
{
    if n > 0 {
        match lenenc_total(b, off) {
            Some(s) => {
                if off + s <= b.len() {
                    lemma_text_values_props(b, off + s, (n - 1) as nat);
                }
            },
            None => {},
        }
    }
}

proof fn lemma_binary_values_props(b: Seq<u8>, cols: Seq<TypeId>, bitmap: Seq<u8>, i: int, off: int)
    requires
        0 <= i <= cols.len(),
        0 <= off,
    ensures
        spec_binary_values(b, cols, bitmap, i, off) matches Ok(v) ==> {
            &&& v.len() == cols.len() - i
            &&& forall|j: int|
                0 <= j < v.len() ==> ((#[trigger] v[j]) matches Some(p) ==> 0 <= p.0 <= p.1
                    <= b.len())
            &&& forall|j: int|
                0 <= j < v.len() ==> ((#[trigger] v[j]) matches Some(p) ==> off <= p.0)
            &&& forall|j: int, k: int|
                #![trigger v[j], v[k]]
                0 <= j < k < v.len() && v[j] is Some && v[k] is Some ==> v[j]->Some_0.1
                    <= v[k]->Some_0.0
        },
    decreases cols.len() - i,
{
    if i < cols.len() {
        if spec_column_null(bitmap, i) {
            lemma_binary_values_props(b, cols, bitmap, i + 1, off);
        } else {
            match field_len(cols[i], b, off) {
                Ok(s) => {
                    if off + s <= b.len() {
                        lemma_field_len_nonneg(cols[i], b, off);
                        lemma_binary_values_props(b, cols, bitmap, i + 1, off + s);
                    }
                },
                Err(_) => {},
            }
        }
    }
}

proof fn lemma_field_len_nonneg(ty: TypeId, b: Seq<u8>, off: int)
    ensures
        field_len(ty, b, off) matches Ok(s) ==> s >= 0,
{
}

/// Whether the present ranges of `v` are chained starting at `off`: each
/// present range begins exactly where the previous present one ended (at
/// `off` for the first), and absent columns consume no bytes.
pub open spec fn chained_from(v: Seq<Option<(int, int)>>, off: int) -> bool
    decreases v.len(),
{
    if v.len() == 0 {
        true
    } else {
        match v[0] {
            None => chained_from(v.drop_first(), off),
            Some(p) => p.0 == off && chained_from(v.drop_first(), p.1),
        }
    }
}

proof fn lemma_binary_values_chained(
    b: Seq<u8>,
    cols: Seq<TypeId>,
    bitmap: Seq<u8>,
    i: int,
    off: int,
)
    requires
        0 <= i <= cols.len(),
    ensures
        spec_binary_values(b, cols, bitmap, i, off) matches Ok(v) ==> chained_from(v, off),
    decreases cols.len() - i,
{
    if i < cols.len() {
        if spec_column_null(bitmap, i) {
            lemma_binary_values_chained(b, cols, bitmap, i + 1, off);
            match spec_binary_values(b, cols, bitmap, i + 1, off) {
                Ok(rest) => {
                    let v = seq![Option::<(int, int)>::None] + rest;
                    assert(v.drop_first() =~= rest);
                },
                Err(_) => {},
            }
        } else {
            match field_len(cols[i], b, off) {
                Ok(s) => {
                    if off + s <= b.len() {
                        lemma_binary_values_chained(b, cols, bitmap, i + 1, off + s);
                        match spec_binary_values(b, cols, bitmap, i + 1, off + s) {
                            Ok(rest) => {
                                let v = seq![Some((off, off + s))] + rest;
                                assert(v.drop_first() =~= rest);
                            },
                            Err(_) => {},
                        }
                    }
                },
                Err(_) => {},
            }
        }
    }
}

/// Law: a successful decode yields exactly one value per column, whatever
/// the payload, column list and protocol mode.
pub proof fn lemma_decode_values_len(payload: Seq<u8>, cols: Seq<TypeId>, binary: bool)
    ensures
        spec_decode(payload, cols, binary) matches Ok(m) ==> m.values.len() == cols.len(),
{
    if binary {
        let nb = (cols.len() + 9) / 8;
        if payload.len() >= 1 && payload[0] == 0 && payload.len() >= 1 + nb {
            let bm = payload.subrange(1, 1 + nb as int);
            let b = payload.subrange(1 + nb as int, payload.len() as int);
            lemma_binary_values_props(b, cols, bm, 0, 0);
        }
    } else {
        lemma_text_values_props(payload, 0, cols.len());
    }
}

/// Law: every present range of a successful decode is a well-formed
/// half-open range within the row buffer: `0 <= start <= end <= len`.
pub proof fn lemma_decode_ranges_in_bounds(payload: Seq<u8>, cols: Seq<TypeId>, binary: bool)
    ensures
        spec_decode(payload, cols, binary) matches Ok(m) ==> forall|j: int|
            0 <= j < m.values.len() ==> ((#[trigger] m.values[j]) matches Some(p) ==> 0 <= p.0
                <= p.1 <= m.buffer.len()),
{
    if binary {
        let nb = (cols.len() + 9) / 8;
        if payload.len() >= 1 && payload[0] == 0 && payload.len() >= 1 + nb {
            let bm = payload.subrange(1, 1 + nb as int);
            let b = payload.subrange(1 + nb as int, payload.len() as int);
            lemma_binary_values_props(b, cols, bm, 0, 0);
        }
    } else {
        lemma_text_values_props(payload, 0, cols.len());
    }
}

/// Law: in text mode every column is present and the ranges tile the
/// buffer contiguously in traversal order: the first starts at offset 0 and
/// each later range begins where the previous one ended.
pub proof fn lemma_decode_text_contiguous(payload: Seq<u8>, cols: Seq<TypeId>)
    ensures
        spec_decode(payload, cols, false) matches Ok(m) ==> {
            &&& forall|j: int| 0 <= j < m.values.len() ==> (#[trigger] m.values[j]) is Some
            &&& m.values.len() > 0 ==> m.values[0]->Some_0.0 == 0
            &&& forall|j: int|
                0 <= j < m.values.len() - 1 ==> (#[trigger] m.values[j])->Some_0.1 == m.values[j
                    + 1]->Some_0.0
        },
{
    lemma_text_values_props(payload, 0, cols.len());
}

/// Law: in binary mode the present ranges are increasing and
/// non-overlapping in traversal order, and absent columns consume no bytes:
/// a present range ends exactly where the next present one begins.
pub proof fn lemma_decode_binary_ordered(payload: Seq<u8>, cols: Seq<TypeId>)
    ensures
        spec_decode(payload, cols, true) matches Ok(m) ==> forall|j: int, k: int|
            #![trigger m.values[j], m.values[k]]
            0 <= j < k < m.values.len() && m.values[j] is Some && m.values[k] is Some
                ==> m.values[j]->Some_0.1 <= m.values[k]->Some_0.0,
        spec_decode(payload, cols, true) matches Ok(m) ==> chained_from(m.values, 0),
{
    let nb = (cols.len() + 9) / 8;
    if payload.len() >= 1 && payload[0] == 0 && payload.len() >= 1 + nb {
        let bm = payload.subrange(1, 1 + nb as int);
        let b = payload.subrange(1 + nb as int, payload.len() as int);
        lemma_binary_values_props(b, cols, bm, 0, 0);
        lemma_binary_values_chained(b, cols, bm, 0, 0);
    }
}

/// Law: in binary mode a non-zero header byte fails with
/// `ProtocolViolation`, whatever follows it.
pub proof fn lemma_nonzero_header(payload: Seq<u8>, cols: Seq<TypeId>)
    requires
        payload.len() >= 1,
        payload[0] != 0,
    ensures
        spec_decode(payload, cols, true) == Err::<RowModel, DecodeError>(
            DecodeError::ProtocolViolation,
        ),
{
}

/// Law: decoding is a function of the payload and column list alone. Two
/// rows decoded from the same input have identical contents: the same
/// buffer, the same ranges, and the same bytes for every column.
pub proof fn lemma_decode_deterministic(
    r1: Row,
    r2: Row,
    payload: Seq<u8>,
    cols: Seq<TypeId>,
    binary: bool,
)
    requires
        spec_decode(payload, cols, binary) == Ok::<RowModel, DecodeError>(r1.model()),
        spec_decode(payload, cols, binary) == Ok::<RowModel, DecodeError>(r2.model()),
    ensures
        r1.model() == r2.model(),
        r1.ncols() == r2.ncols(),
        forall|j: int| r1.col(j) == r2.col(j),
{
}

} // verus!
