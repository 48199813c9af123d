use food_index::{parse_data, parse_header, serialize_record};

fn record_payload(header: &[u8], line: &[u8]) -> Vec<u8> {
    let h = parse_header(&header.to_vec());
    let r = parse_data(&line.to_vec(), &h);
    serialize_record(&r)
}

#[test]
fn payload_has_the_exact_wire_form() {
    let p = record_payload(
        b"code\tproduct_name\tnutriments_energy_100g\tproduct_url",
        b"123\tApple\t52\thttp://x",
    );
    let expected = "{\"productname\":\"Apple\",\"id\":\"123\",\"ingredients\":\"\",\"brands\":\"\",\"categories\":\"\",\"quantity\":\"\",\"nutrients\":[\"nutriments_energy_100g:52\"],\"urls\":[\"product_url:http://x\"]}";
    assert_eq!(String::from_utf8(p).unwrap(), expected);
}

#[test]
fn payload_escapes_quotes_and_backslashes() {
    let p = record_payload(b"code\tbrands", b"a\"b\\c\tAcme");
    let s = String::from_utf8(p).unwrap();
    assert!(s.contains("\"id\":\"a\\\"b\\\\c\""));
}

#[test]
fn payload_escapes_control_bytes() {
    let p = record_payload(b"code", b"a\x01b");
    let s = String::from_utf8(p).unwrap();
    assert!(s.contains("\"id\":\"a\\u0001b\""));
}

#[test]
fn payload_parses_as_json() {
    let p = record_payload(
        b"code\tproduct_name\tfat_100g\tsugar_100g\timage_url",
        b"77\tPear juice\t1\t9\thttp://y",
    );
    let v: serde_json::Value = serde_json::from_slice(&p).unwrap();
    assert_eq!(v.get("id").unwrap().as_str().unwrap(), "77");
    assert_eq!(v.get("productname").unwrap().as_str().unwrap(), "Pear juice");
    let nuts = v.get("nutrients").unwrap().as_array().unwrap();
    assert_eq!(nuts.len(), 2);
    assert_eq!(nuts[0].as_str().unwrap(), "fat_100g:1");
    assert_eq!(nuts[1].as_str().unwrap(), "sugar_100g:9");
    let urls = v.get("urls").unwrap().as_array().unwrap();
    assert_eq!(urls[0].as_str().unwrap(), "image_url:http://y");
    assert_eq!(v.get("brands").unwrap().as_str().unwrap(), "");
}

#[test]
fn empty_record_payload_is_well_formed() {
    let p = record_payload(b"", b"");
    let v: serde_json::Value = serde_json::from_slice(&p).unwrap();
    assert_eq!(v.get("id").unwrap().as_str().unwrap(), "");
    assert_eq!(v.get("nutrients").unwrap().as_array().unwrap().len(), 0);
}
