use edge_ingest::decoder::{decode_gzip_csv, decode_rows, parse_row_bytes, split_bytes};
use edge_ingest::record::{check_numeric, EdgeRecord};

fn rows(data: &[u8]) -> Vec<EdgeRecord> {
    decode_rows(&data.to_vec())
}

#[test]
fn single_wellformed_row_yields_record() {
    let out = rows(b"A,B,1.0,0.5\n");
    assert_eq!(out.len(), 1);
    assert_eq!(out[0].src, b"A".to_vec());
    assert_eq!(out[0].dest, b"B".to_vec());
    assert_eq!(out[0].weight, b"1.0".to_vec());
    assert_eq!(out[0].timestamp, b"0.5".to_vec());
}

#[test]
fn last_row_without_newline_also_decodes() {
    let out = rows(b"A,B,1,2\nC,D,-3.5,4e2");
    assert_eq!(out.len(), 2);
    assert_eq!(out[1].src, b"C".to_vec());
    assert_eq!(out[1].weight, b"-3.5".to_vec());
    assert_eq!(out[1].timestamp, b"4e2".to_vec());
}

#[test]
fn trailing_carriage_return_is_tolerated() {
    let out = rows(b"A,B,1,2\r\nC,D,3,4\r\n");
    assert_eq!(out.len(), 2);
    assert_eq!(out[0].timestamp, b"2".to_vec());
    assert_eq!(out[1].src, b"C".to_vec());
}

#[test]
fn malformed_rows_yield_nothing() {
    assert_eq!(rows(b"A,B,1.0\n").len(), 0);
    assert_eq!(rows(b"A,B,1.0,2.0,extra\n").len(), 0);
    assert_eq!(rows(b"A,B,heavy,2.0\n").len(), 0);
    assert_eq!(rows(b"A,B,1.0,late\n").len(), 0);
    assert_eq!(rows(b"\n").len(), 0);
    assert_eq!(rows(b"").len(), 0);
}

#[test]
fn bad_row_does_not_break_the_stream() {
    let out = rows(b"A,B,1,2\nbroken row\nC,D,3,4\n");
    assert_eq!(out.len(), 2);
    assert_eq!(out[0].src, b"A".to_vec());
    assert_eq!(out[1].src, b"C".to_vec());
}

#[test]
fn empty_identifiers_are_allowed() {
    let out = rows(b",,1,2\n");
    assert_eq!(out.len(), 1);
    assert_eq!(out[0].src, b"".to_vec());
    assert_eq!(out[0].dest, b"".to_vec());
}

#[test]
fn numeric_grammar_accepts() {
    for text in [
        "1", "42", "-1.5", "+0.25", ".5", "-.5", "3.", "1e9", "2E-3", "+1.25e+10", "0",
    ] {
        assert!(check_numeric(&text.as_bytes().to_vec()), "{}", text);
    }
}

#[test]
fn numeric_grammar_rejects() {
    for text in [
        "", "abc", "1.2.3", "1e", "e5", ".", "+", "-", "1f", "1 ", " 1", "0x10", "1e5.5", "--1",
        "1.0,",
    ] {
        assert!(!check_numeric(&text.as_bytes().to_vec()), "{}", text);
    }
}

#[test]
fn parse_row_checks_shape() {
    assert!(parse_row_bytes(b"A,B,1.0,2.0".to_vec()).is_some());
    assert!(parse_row_bytes(b"A,B,1.0".to_vec()).is_none());
    assert!(parse_row_bytes(b"A,B,x,2.0".to_vec()).is_none());
}

#[test]
fn split_keeps_empty_parts() {
    let parts = split_bytes(&b"a,,b,".to_vec(), b',');
    assert_eq!(
        parts,
        vec![b"a".to_vec(), b"".to_vec(), b"b".to_vec(), b"".to_vec()]
    );
}

fn gzip(data: &[u8]) -> Vec<u8> {
    let mut enc = flate2::write::GzEncoder::new(Vec::new(), flate2::Compression::default());
    std::io::Write::write_all(&mut enc, data).unwrap();
    enc.finish().unwrap()
}

#[test]
fn gzip_stream_decodes_to_records() {
    let data = gzip(b"A,B,1.0,2.0\nC,D,-3,4\nbad,row\n");
    let out = decode_gzip_csv(&data).unwrap();
    assert_eq!(out.len(), 2);
    assert_eq!(out[0].src, b"A".to_vec());
    assert_eq!(out[1].weight, b"-3".to_vec());
}

#[test]
fn invalid_gzip_is_a_fatal_decode_failure() {
    assert!(decode_gzip_csv(&b"not a gzip stream".to_vec()).is_none());
    assert!(decode_gzip_csv(&Vec::new()).is_none());
}
