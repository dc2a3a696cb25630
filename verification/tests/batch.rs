use window_csv::batch::{convert_listing, csv_name, is_bin_name, ListingItem};
use window_csv::codec::{encode_window_bytes, PrimeRecord};
use window_csv::convert::ConversionError;

fn file(name: &str, data: Vec<u8>) -> ListingItem {
    ListingItem::File { name: name.to_string(), data }
}

fn well_formed_bytes(range_start: u64, range_end: u64) -> Vec<u8> {
    let records = vec![PrimeRecord { prime: 7, next_value: 11 }];
    encode_window_bytes(range_start, range_end, &records)
}

fn truncated_bytes() -> Vec<u8> {
    let mut bytes = well_formed_bytes(1, 9);
    bytes.push(0x55);
    bytes
}

#[test]
fn bin_names_recognized() {
    assert!(is_bin_name("a.bin"));
    assert!(is_bin_name("window_3.bin"));
    assert!(!is_bin_name("c.txt"));
    assert!(!is_bin_name("abin"));
    assert!(!is_bin_name(".bin"));
    assert!(!is_bin_name(""));
}

#[test]
fn csv_name_replaces_extension() {
    assert_eq!(csv_name("a.bin").unwrap(), "a.csv");
    assert_eq!(csv_name("window_3.bin").unwrap(), "window_3.csv");
    assert!(csv_name("c.txt").is_none());
    assert!(csv_name(".bin").is_none());
}

#[test]
fn only_bin_files_are_converted() {
    let items = vec![
        file("a.bin", well_formed_bytes(1, 9)),
        file("b.bin", well_formed_bytes(2, 8)),
        file("c.txt", vec![1, 2, 3]),
    ];
    let report = convert_listing(&items, false);
    assert!(report.error.is_none());
    let names: Vec<&str> = report.outputs.iter().map(|o| o.name.as_str()).collect();
    assert_eq!(names, vec!["a.csv", "b.csv"]);
}

#[test]
fn fail_fast_keeps_earlier_outputs() {
    let items = vec![
        file("a.bin", well_formed_bytes(1, 9)),
        file("b.bin", truncated_bytes()),
        file("c.bin", well_formed_bytes(3, 7)),
    ];
    let report = convert_listing(&items, false);
    assert_eq!(report.error, Some(ConversionError::TruncatedRecord));
    assert_eq!(report.outputs.len(), 1);
    assert_eq!(report.outputs[0].name, "a.csv");
    assert_eq!(
        report.outputs[0].text,
        "# Range: 1 to 9\nprime, next_value\n7,11\n"
    );
}

#[test]
fn failure_before_any_success_produces_nothing() {
    let items = vec![
        file("b.bin", vec![0u8; 10]),
        file("a.bin", well_formed_bytes(1, 9)),
    ];
    let report = convert_listing(&items, false);
    assert_eq!(report.error, Some(ConversionError::TruncatedHeader));
    assert!(report.outputs.is_empty());
}

#[test]
fn unreadable_entries_are_tolerated() {
    let items = vec![
        ListingItem::Unreadable,
        file("a.bin", well_formed_bytes(4, 6)),
        ListingItem::Unreadable,
    ];
    let report = convert_listing(&items, false);
    assert!(report.error.is_none());
    assert_eq!(report.outputs.len(), 1);
    assert_eq!(report.outputs[0].name, "a.csv");
}

#[test]
fn empty_listing_converts_nothing() {
    let report = convert_listing(&Vec::new(), true);
    assert!(report.error.is_none());
    assert!(report.outputs.is_empty());
}
