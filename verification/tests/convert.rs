use window_csv::codec::{encode_window_bytes, PrimeRecord};
use window_csv::convert::{convert_window, ConversionError};

fn record(prime: u64, next_value: u64) -> PrimeRecord {
    PrimeRecord { prime, next_value }
}

#[test]
fn round_trip_three_records() {
    let records = vec![record(2, 3), record(3, 5), record(5, 7)];
    let bytes = encode_window_bytes(1, 100, &records);
    let conv = convert_window(&bytes, false).unwrap();
    assert_eq!(conv.count, 3);
    assert_eq!(conv.output, "# Range: 1 to 100\nprime, next_value\n2,3\n3,5\n5,7\n");
    let lines: Vec<&str> = conv.output.lines().filter(|l| !l.is_empty()).collect();
    assert_eq!(lines.len(), 5);
    for (i, r) in records.iter().enumerate() {
        let leading = lines[i + 2].split(',').next().unwrap();
        assert_eq!(leading, r.prime.to_string());
    }
}

#[test]
fn round_trip_check_mode() {
    let records = vec![record(2, 3), record(4, 5), record(1_000_000_007, 1_000_000_009)];
    let bytes = encode_window_bytes(2, 1_000_000_010, &records);
    let conv = convert_window(&bytes, true).unwrap();
    assert_eq!(conv.count, 3);
    assert_eq!(
        conv.output,
        "# Range: 2 to 1000000010\nprime, next_value, is_prime\n\
         2,3,true\n4,5,false\n1000000007,1000000009,true\n"
    );
}

#[test]
fn empty_window_two_lines() {
    let bytes = encode_window_bytes(5, 10, &Vec::new());
    assert_eq!(bytes.len(), 16);
    let conv = convert_window(&bytes, false).unwrap();
    assert_eq!(conv.count, 0);
    assert_eq!(conv.output, "# Range: 5 to 10\nprime, next_value\n");
    assert_eq!(conv.output.lines().count(), 2);
}

#[test]
fn truncated_header_rejected() {
    for len in [0usize, 1, 8, 15] {
        let bytes = vec![0u8; len];
        let err = convert_window(&bytes, false).unwrap_err();
        assert_eq!(err, ConversionError::TruncatedHeader);
    }
}

#[test]
fn truncated_record_rejected() {
    for extra in 1usize..16 {
        let mut bytes = encode_window_bytes(1, 9, &vec![record(3, 5)]);
        bytes.extend(std::iter::repeat(0xAB).take(extra));
        let err = convert_window(&bytes, false).unwrap_err();
        assert_eq!(err, ConversionError::TruncatedRecord);
    }
}

#[test]
fn conversion_is_idempotent() {
    let records = vec![record(11, 13), record(13, 17)];
    let bytes = encode_window_bytes(10, 20, &records);
    let first = convert_window(&bytes, true).unwrap();
    let second = convert_window(&bytes, true).unwrap();
    assert_eq!(first.output, second.output);
    assert_eq!(first.count, second.count);
}

#[test]
fn encoding_is_little_endian() {
    let bytes = encode_window_bytes(1, 0x0102030405060708, &vec![record(3, 0xFFFF_FFFF_FFFF_FFFF)]);
    let mut expected = Vec::new();
    expected.extend_from_slice(&[1, 0, 0, 0, 0, 0, 0, 0]);
    expected.extend_from_slice(&[8, 7, 6, 5, 4, 3, 2, 1]);
    expected.extend_from_slice(&[3, 0, 0, 0, 0, 0, 0, 0]);
    expected.extend_from_slice(&[0xFF; 8]);
    assert_eq!(bytes, expected);
}

#[test]
fn extreme_values_render_decimally() {
    let records = vec![record(u64::MAX, 0)];
    let bytes = encode_window_bytes(0, u64::MAX, &records);
    let conv = convert_window(&bytes, false).unwrap();
    assert_eq!(
        conv.output,
        "# Range: 0 to 18446744073709551615\nprime, next_value\n18446744073709551615,0\n"
    );
}
