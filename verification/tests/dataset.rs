use flate2::write::GzEncoder;
use flate2::Compression;
use food_index::{
    build_index, build_store, fetch_value, lookup_or_not_found, parse_data, parse_header,
    serialize_record, split_lines, Store,
};
use std::io::Write;

fn gz(data: &[u8]) -> Vec<u8> {
    let mut enc = GzEncoder::new(Vec::new(), Compression::default());
    enc.write_all(data).unwrap();
    enc.finish().unwrap()
}

fn expected_payload(header: &[u8], line: &[u8]) -> Vec<u8> {
    let h = parse_header(&header.to_vec());
    serialize_record(&parse_data(&line.to_vec(), &h))
}

const HEADER: &[u8] = b"code\tproduct_name\tnutriments_energy_100g\tproduct_url";

#[test]
fn load_indexes_every_data_line() {
    let data = b"code\tproduct_name\tnutriments_energy_100g\tproduct_url\n123\tApple\t52\thttp://x\n456\tPear\t40\thttp://y\n";
    let store: Store = build_store(&gz(data)).unwrap();
    assert_eq!(
        fetch_value(&store, b"123"),
        Some(&expected_payload(HEADER, b"123\tApple\t52\thttp://x"))
    );
    assert_eq!(
        fetch_value(&store, b"456"),
        Some(&expected_payload(HEADER, b"456\tPear\t40\thttp://y"))
    );
    assert_eq!(fetch_value(&store, b"789"), None);
}

#[test]
fn duplicate_ids_keep_the_last_line_in_source_order() {
    let data = b"code\tproduct_name\n1\tOld\n2\tOther\n1\tNew\n";
    let store = build_store(&gz(data)).unwrap();
    assert_eq!(
        fetch_value(&store, b"1"),
        Some(&expected_payload(b"code\tproduct_name", b"1\tNew"))
    );
}

#[test]
fn undecodable_line_is_skipped_and_load_continues() {
    let mut data = Vec::new();
    data.extend_from_slice(b"code\tproduct_name\n1\tGood\n");
    data.extend_from_slice(b"2\t\xff\xfe bad utf8\n");
    data.extend_from_slice(b"3\tAlso good\n");
    let store = build_store(&gz(&data)).unwrap();
    assert_eq!(fetch_value(&store, b"2"), None);
    assert_eq!(
        fetch_value(&store, b"1"),
        Some(&expected_payload(b"code\tproduct_name", b"1\tGood"))
    );
    assert_eq!(
        fetch_value(&store, b"3"),
        Some(&expected_payload(b"code\tproduct_name", b"3\tAlso good"))
    );
}

#[test]
fn invalid_gzip_is_a_fatal_decode_error() {
    assert!(build_store(b"definitely not gzip").is_err());
}

#[test]
fn truncated_gzip_is_a_fatal_decode_error() {
    let whole = gz(b"code\n1\n2\n3\n4\n5\n6\n7\n8\n9\n");
    let cut = &whole[..whole.len() / 2];
    assert!(build_store(cut).is_err());
}

#[test]
fn empty_dataset_yields_an_empty_store() {
    let store = build_store(&gz(b"")).unwrap();
    assert_eq!(lookup_or_not_found(&store, b"anything"), b"Not found".to_vec());
}

#[test]
fn header_only_dataset_stores_no_record() {
    let store = build_store(&gz(b"code\tproduct_name\n")).unwrap();
    assert_eq!(fetch_value(&store, b""), None);
    assert_eq!(fetch_value(&store, b"code"), None);
}

#[test]
fn trailing_newline_adds_no_phantom_record() {
    let store = build_store(&gz(b"code\n7\n")).unwrap();
    assert_eq!(fetch_value(&store, b""), None);
    assert!(fetch_value(&store, b"7").is_some());
}

#[test]
fn carriage_returns_are_stripped() {
    let store = build_store(&gz(b"code\tproduct_name\r\n5\tCrisp\r\n")).unwrap();
    assert_eq!(
        fetch_value(&store, b"5"),
        Some(&expected_payload(b"code\tproduct_name", b"5\tCrisp"))
    );
}

#[test]
fn lines_split_on_newlines_without_a_phantom_tail() {
    let ls = split_lines(b"a\nb\r\nc");
    assert_eq!(ls, vec![b"a".to_vec(), b"b".to_vec(), b"c".to_vec()]);
    let ls = split_lines(b"a\n\nb\n");
    assert_eq!(ls, vec![b"a".to_vec(), b"".to_vec(), b"b".to_vec()]);
    assert!(split_lines(b"").is_empty());
}

#[test]
fn index_can_be_built_from_decompressed_bytes() {
    let store = build_index(b"code\tbrands\n8\tAcme\n");
    assert_eq!(
        fetch_value(&store, b"8"),
        Some(&expected_payload(b"code\tbrands", b"8\tAcme"))
    );
}

#[test]
fn lookup_for_a_key_never_seen_returns_the_sentinel() {
    let store = build_store(&gz(b"code\tproduct_name\n1\tApple\n")).unwrap();
    assert_eq!(
        lookup_or_not_found(&store, b"never-seen"),
        b"Not found".to_vec()
    );
}
