use food_index::{parse_data, parse_header};

fn header_of(line: &[u8]) -> Vec<Vec<u8>> {
    parse_header(&line.to_vec())
}

#[test]
fn header_splits_on_tabs() {
    let h = header_of(b"code\tproduct_name\tnutriments_energy_100g\tproduct_url");
    assert_eq!(h.len(), 4);
    assert_eq!(h[0], b"code".to_vec());
    assert_eq!(h[1], b"product_name".to_vec());
    assert_eq!(h[2], b"nutriments_energy_100g".to_vec());
    assert_eq!(h[3], b"product_url".to_vec());
}

#[test]
fn header_keeps_empty_labels() {
    let h = header_of(b"a\t\tb\t");
    assert_eq!(h.len(), 4);
    assert_eq!(h[1], b"".to_vec());
    assert_eq!(h[3], b"".to_vec());
}

#[test]
fn basic_row_is_classified() {
    let h = header_of(b"code\tproduct_name\tnutriments_energy_100g\tproduct_url");
    let r = parse_data(&b"123\tApple\t52\thttp://x".to_vec(), &h);
    assert_eq!(r.id, b"123".to_vec());
    assert_eq!(r.productname, b"Apple".to_vec());
    assert_eq!(r.nutrients, vec![b"nutriments_energy_100g:52".to_vec()]);
    assert_eq!(r.urls, vec![b"product_url:http://x".to_vec()]);
    assert_eq!(r.ingredients, b"".to_vec());
    assert_eq!(r.brands, b"".to_vec());
    assert_eq!(r.categories, b"".to_vec());
    assert_eq!(r.quantity, b"".to_vec());
}

#[test]
fn id_is_column_zero_even_if_empty() {
    let h = header_of(b"code\tbrands");
    let r = parse_data(&b"\tAcme".to_vec(), &h);
    assert_eq!(r.id, b"".to_vec());
    assert_eq!(r.brands, b"Acme".to_vec());
}

#[test]
fn id_is_verbatim_regardless_of_label() {
    let h = header_of(b"brands\tcode");
    let r = parse_data(&b"Acme\t77".to_vec(), &h);
    assert_eq!(r.id, b"Acme".to_vec());
    assert_eq!(r.brands, b"Acme".to_vec());
}

#[test]
fn short_line_keeps_defaults() {
    let h = header_of(b"code\tproduct_name\tnutriments_energy_100g");
    let r = parse_data(&b"9".to_vec(), &h);
    assert_eq!(r.id, b"9".to_vec());
    assert_eq!(r.productname, b"".to_vec());
    assert!(r.nutrients.is_empty());
}

#[test]
fn fields_past_the_header_are_never_classified() {
    let h = header_of(b"code\tnutriments_energy_100g");
    let r = parse_data(&b"9\t12\t34\t56".to_vec(), &h);
    assert_eq!(r.nutrients, vec![b"nutriments_energy_100g:12".to_vec()]);
}

#[test]
fn empty_values_are_not_collected() {
    let h = header_of(b"code\tfat_100g\tsugar_100g");
    let r = parse_data(&b"9\t\t3".to_vec(), &h);
    assert_eq!(r.nutrients, vec![b"sugar_100g:3".to_vec()]);
}

#[test]
fn nutrients_follow_column_order() {
    let h = header_of(b"code\tfat_100g\tx_url\tsugar_100g\ty_url");
    let r = parse_data(&b"9\t1\tu1\t2\tu2".to_vec(), &h);
    assert_eq!(
        r.nutrients,
        vec![b"fat_100g:1".to_vec(), b"sugar_100g:2".to_vec()]
    );
    assert_eq!(r.urls, vec![b"x_url:u1".to_vec(), b"y_url:u2".to_vec()]);
}

#[test]
fn first_nonempty_match_sets_a_scalar() {
    let h = header_of(b"code\tproduct_name_a\tproduct_name_b\tproduct_name_c");
    let r = parse_data(&b"9\t\tfirst\tsecond".to_vec(), &h);
    assert_eq!(r.productname, b"first".to_vec());
}

#[test]
fn one_label_can_match_several_markers() {
    let h = header_of(b"code\tenergy_100g_url");
    let r = parse_data(&b"9\tv".to_vec(), &h);
    assert_eq!(r.nutrients, vec![b"energy_100g_url:v".to_vec()]);
    assert_eq!(r.urls, vec![b"energy_100g_url:v".to_vec()]);
}

#[test]
fn empty_header_classifies_nothing() {
    let h: Vec<Vec<u8>> = Vec::new();
    let r = parse_data(&b"9\tv".to_vec(), &h);
    assert_eq!(r.id, b"".to_vec());
    assert!(r.nutrients.is_empty());
}
