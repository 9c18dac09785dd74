use marching_cubes::{FP_HALF, FP_ONE};
use marching_cubes::extract::extract_region;
use marching_cubes::parse::{parse_field, ParseError};

#[test]
fn loads_a_two_cube_file_exactly() {
    // A 2x2x2 declaration with exactly 8 values: all 8 are consumed, in
    // row-major order with the last axis fastest.
    let text = b"2 2 2\n0 0.5 1 1.5 -0.25 0.1 2 3\n";
    let f = parse_field(text).unwrap();
    assert_eq!((f.d0, f.d1, f.d2), (2, 2, 2));
    assert_eq!(
        f.data,
        vec![0, 32768, 65536, 98304, -16384, 6553, 131072, 196608]
    );
}

#[test]
fn a_ninth_stray_token_is_an_error() {
    // 2 2 2 declares 8 samples; a 9th value must not be silently ignored.
    let text = b"2 2 2\n0 0 0 0 1 1 1 1 9\n";
    assert_eq!(parse_field(text).unwrap_err(), ParseError::WrongValueCount);
}

#[test]
fn a_missing_value_is_an_error() {
    let text = b"2 2 2\n0 0 0 0 1 1 1\n";
    assert_eq!(parse_field(text).unwrap_err(), ParseError::WrongValueCount);
}

#[test]
fn a_non_numeric_value_is_an_error() {
    let text = b"2 2 2\n0 0 0 zero 1 1 1 1\n";
    assert_eq!(parse_field(text).unwrap_err(), ParseError::BadValue);
}

#[test]
fn malformed_numbers_are_rejected() {
    for bad in ["-", "1.", ".5", "1.2.3", "--1", "1e3", "+1"] {
        let text = format!("1 1 1\n{}\n", bad);
        assert_eq!(
            parse_field(text.as_bytes()).unwrap_err(),
            ParseError::BadValue,
            "token {:?} should be malformed",
            bad
        );
    }
}

#[test]
fn a_short_header_is_an_error() {
    assert_eq!(parse_field(b"2 2").unwrap_err(), ParseError::MissingHeader);
    assert_eq!(parse_field(b"").unwrap_err(), ParseError::MissingHeader);
}

#[test]
fn bad_dimensions_are_rejected() {
    assert_eq!(parse_field(b"2 x 2\n").unwrap_err(), ParseError::BadDimension);
    assert_eq!(parse_field(b"0 2 2\n").unwrap_err(), ParseError::BadDimension);
    assert_eq!(parse_field(b"1025 2 2\n").unwrap_err(), ParseError::BadDimension);
    assert_eq!(parse_field(b"-2 2 2\n").unwrap_err(), ParseError::BadDimension);
}

#[test]
fn oversized_volumes_are_rejected() {
    // 1024 per axis is allowed, but the product exceeds the file cap.
    assert_eq!(
        parse_field(b"1024 1024 1024\n").unwrap_err(),
        ParseError::DimensionsTooLarge
    );
}

#[test]
fn out_of_range_values_are_rejected() {
    // Magnitudes above SAMPLE_MAX (2^24 whole units) cannot be represented.
    assert_eq!(
        parse_field(b"1 1 1\n16777217\n").unwrap_err(),
        ParseError::ValueOutOfRange
    );
    assert_eq!(
        parse_field(b"1 1 1\n-16777217\n").unwrap_err(),
        ParseError::ValueOutOfRange
    );
    assert!(parse_field(b"1 1 1\n16777215\n").is_ok());
}

#[test]
fn fixed_point_conversion_truncates_toward_zero() {
    let f = parse_field(b"1 1 2\n0.1 -0.1\n").unwrap();
    // 0.1 * 65536 = 6553.6: truncated to 6553, symmetric for the negative.
    assert_eq!(f.data, vec![6553, -6553]);
}

#[test]
fn whitespace_variants_are_all_separators() {
    let f = parse_field(b"1\t1 2\r\n 0.5\n1.0").unwrap();
    assert_eq!(f.data, vec![32768, 65536]);
}

#[test]
fn a_parsed_field_extracts_directly() {
    // End to end: load the flat-cut cell from text and extract it.
    let text = b"2 2 2\n0 1 0 1 0 1 0 1\n";
    let f = parse_field(text).unwrap();
    let m = extract_region(&f, (0, 0, 0), (1, 1, 1), FP_ONE, FP_HALF);
    assert_eq!(m.vertices.len(), 18);
    let mut v = 0;
    while v < 6 {
        assert_eq!(m.vertices[3 * v + 2], FP_HALF);
        v += 1;
    }
}

#[test]
fn dimension_headers_accept_leading_zeros() {
    let f = parse_field(b"001 01 2\n0.5 0.5\n").unwrap();
    assert_eq!((f.d0, f.d1, f.d2), (1, 1, 2));
}
