use mysql_row::bitmap::is_column_null;
use mysql_row::error::DecodeError;
use mysql_row::row::Row;
use mysql_row::types::{
    TypeId, BIG_INT, DATE, DATETIME, INT, SMALL_INT, TEXT, TIME, TIMESTAMP, TINY_INT, VAR_CHAR,
};

fn fixture_types() -> Vec<TypeId> {
    [
        INT, VAR_CHAR, VAR_CHAR, TINY_INT, TIMESTAMP, TIMESTAMP, TINY_INT, TEXT, TINY_INT, TEXT,
        TEXT, TIMESTAMP, TINY_INT, INT, INT, TINY_INT, VAR_CHAR, INT, INT, TIMESTAMP, TIMESTAMP,
        INT, INT, INT, BIG_INT, INT,
    ]
    .iter()
    .map(|&t| TypeId(t))
    .collect()
}

fn fixture_payload() -> Vec<u8> {
    vec![
        0, 64, 90, 229, 0, 4, 0, 0, 0, 4, 114, 117, 115, 116, 0, 0, 7, 228, 7, 1, 16, 8, 10, 17,
        0, 0, 4, 208, 7, 1, 1, 0, 0, 0, 0, 10, 0, 0, 0, 0, 0, 0, 0, 0, 0, 0, 0, 0, 0, 0, 0, 0, 0,
        0, 0, 0, 0, 0, 0, 0, 0, 0, 0, 0,
    ]
}

#[test]
fn null_bitmap_test() {
    let types = fixture_types();
    assert_eq!(types.len(), 26);

    let row = Row::decode(&fixture_payload(), &types, true).unwrap();
    assert_eq!(row.len(), 26);
}

#[test]
fn binary_fixture_ranges() {
    let types = fixture_types();
    let row = Row::decode(&fixture_payload(), &types, true).unwrap();

    // exactly the columns whose bit i + 2 is set in the 4-byte bitmap are NULL
    let nulls = [4usize, 7, 9, 10, 12, 14, 16, 19, 20, 21];
    for i in 0..26usize {
        assert_eq!(row.get(i).is_none(), nulls.contains(&i), "column {}", i);
    }

    // fixed-width and length-encoded spans per the resolver rules
    assert_eq!(row.get(0), Some(&[4u8, 0, 0, 0][..]));
    assert_eq!(row.get(1), Some(&[4u8, 114, 117, 115, 116][..]));
    assert_eq!(row.get(2), Some(&[0u8][..]));
    assert_eq!(row.get(3), Some(&[0u8][..]));
    assert_eq!(row.get(5), Some(&[7u8, 228, 7, 1, 16, 8, 10, 17][..]));
    assert_eq!(row.get(11), Some(&[4u8, 208, 7, 1, 1][..]));
    assert_eq!(row.get(15), Some(&[10u8][..]));
    assert_eq!(row.get(24), Some(&[0u8, 0, 0, 0, 0, 0, 0, 0][..]));
    assert_eq!(row.get(25), Some(&[0u8, 0, 0, 0][..]));
}

#[test]
fn bitmap_addressing() {
    // for 26 columns the bitmap spans (26 + 9) / 8 = 4 bytes
    assert_eq!((26 + 9) / 8, 4);
    let bitmap = [64u8, 90, 229, 0];
    let nulls = [4usize, 7, 9, 10, 12, 14, 16, 19, 20, 21];
    for i in 0..26usize {
        assert_eq!(is_column_null(&bitmap, i), nulls.contains(&i), "column {}", i);
    }
}

#[test]
fn text_row_basic() {
    // every text column is present; a 0xFB marker only shortens its range
    let payload = [1u8, 97, 0xFB, 0];
    let types = vec![TypeId(VAR_CHAR), TypeId(VAR_CHAR), TypeId(VAR_CHAR)];
    let row = Row::decode(&payload, &types, false).unwrap();
    assert_eq!(row.len(), 3);
    assert_eq!(row.get(0), Some(&[1u8, 97][..]));
    assert_eq!(row.get(1), Some(&[0xFBu8][..]));
    assert_eq!(row.get(2), Some(&[0u8][..]));
}

#[test]
fn text_row_truncated() {
    // second column's declared span extends past the payload
    let payload = [1u8, 97, 5, 1];
    let types = vec![TypeId(VAR_CHAR), TypeId(VAR_CHAR)];
    assert!(matches!(
        Row::decode(&payload, &types, false),
        Err(DecodeError::Truncated)
    ));
}

#[test]
fn text_row_empty() {
    let row = Row::decode(&[], &[], false).unwrap();
    assert_eq!(row.len(), 0);
}

#[test]
fn binary_row_empty_columns() {
    // header byte plus a (0 + 9) / 8 = 1 byte bitmap
    let row = Row::decode(&[0, 0], &[], true).unwrap();
    assert_eq!(row.len(), 0);
}

#[test]
fn binary_header_nonzero() {
    // non-zero header: ProtocolViolation, whatever follows
    let types = vec![TypeId(TINY_INT)];
    assert!(matches!(
        Row::decode(&[1, 0, 5], &types, true),
        Err(DecodeError::ProtocolViolation)
    ));
    assert!(matches!(
        Row::decode(&[0xFF], &[], true),
        Err(DecodeError::ProtocolViolation)
    ));
}

#[test]
fn binary_payload_empty() {
    assert!(matches!(
        Row::decode(&[], &[], true),
        Err(DecodeError::Truncated)
    ));
}

#[test]
fn binary_bitmap_truncated() {
    // one column needs a (1 + 9) / 8 = 1 byte bitmap after the header
    let types = vec![TypeId(TINY_INT)];
    assert!(matches!(
        Row::decode(&[0], &types, true),
        Err(DecodeError::Truncated)
    ));
}

#[test]
fn binary_value_truncated() {
    // a 4-byte INT value in a 2-byte row buffer
    let types = vec![TypeId(INT)];
    assert!(matches!(
        Row::decode(&[0, 0, 1, 2], &types, true),
        Err(DecodeError::Truncated)
    ));
}

#[test]
fn binary_unsupported_type() {
    // wire-type 16 (BIT) has no size rule
    let types = vec![TypeId(16)];
    assert!(matches!(
        Row::decode(&[0, 0, 1], &types, true),
        Err(DecodeError::UnsupportedType)
    ));
}

#[test]
fn binary_null_distinguished_from_empty() {
    // column 0 NULL (bit 2 of the bitmap), column 1 an empty VAR_CHAR:
    // NULL yields None, the empty string a present, non-empty raw range
    let types = vec![TypeId(VAR_CHAR), TypeId(VAR_CHAR)];
    let payload = [0u8, 0b0000_0100, 0];
    let row = Row::decode(&payload, &types, true).unwrap();
    assert_eq!(row.get(0), None);
    assert_eq!(row.get(1), Some(&[0u8][..]));
}

#[test]
fn binary_fixed_width_sizes() {
    // tiny 1, small 2, int 4, big 8 bytes, in order
    let types = vec![
        TypeId(TINY_INT),
        TypeId(SMALL_INT),
        TypeId(INT),
        TypeId(BIG_INT),
    ];
    let payload = [
        0u8, 0, 1, 2, 2, 4, 4, 4, 4, 8, 8, 8, 8, 8, 8, 8, 8,
    ];
    let row = Row::decode(&payload, &types, true).unwrap();
    assert_eq!(row.get(0), Some(&[1u8][..]));
    assert_eq!(row.get(1), Some(&[2u8, 2][..]));
    assert_eq!(row.get(2), Some(&[4u8, 4, 4, 4][..]));
    assert_eq!(row.get(3), Some(&[8u8; 8][..]));
}

#[test]
fn binary_date_time_sizes() {
    // date: fixed 5 bytes; time and datetime: 1 byte sub-length N, then N bytes
    let types = vec![TypeId(DATE), TypeId(TIME), TypeId(DATETIME)];
    let payload = [0u8, 0, 1, 2, 3, 4, 5, 2, 9, 9, 0];
    let row = Row::decode(&payload, &types, true).unwrap();
    assert_eq!(row.get(0), Some(&[1u8, 2, 3, 4, 5][..]));
    assert_eq!(row.get(1), Some(&[2u8, 9, 9][..]));
    assert_eq!(row.get(2), Some(&[0u8][..]));
}

#[test]
fn decode_idempotent() {
    // decoding the same payload and column list twice yields byte-identical
    // row contents
    let types = fixture_types();
    let payload = fixture_payload();
    let a = Row::decode(&payload, &types, true).unwrap();
    let b = Row::decode(&payload, &types, true).unwrap();
    assert_eq!(a.len(), b.len());
    for i in 0..a.len() {
        assert_eq!(a.get(i), b.get(i));
    }

    let text_payload = [1u8, 97, 2, 98, 99];
    let text_types = vec![TypeId(VAR_CHAR), TypeId(VAR_CHAR)];
    let c = Row::decode(&text_payload, &text_types, false).unwrap();
    let d = Row::decode(&text_payload, &text_types, false).unwrap();
    assert_eq!(c.len(), d.len());
    for i in 0..c.len() {
        assert_eq!(c.get(i), d.get(i));
    }
}
