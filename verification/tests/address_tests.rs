use shield_rpc::address::{
    address_display, address_key, cached_address_set, contains_address, is_vanity_address,
    same_address, string_to_h160, Address,
};
use shield_rpc::encoding::same_text;

fn addr(first: u8, fill: u8, last: u8) -> Address {
    let mut bytes = [fill; 20];
    bytes[0] = first;
    bytes[19] = last;
    Address(bytes)
}

#[test]
fn address_key_is_prefixed_lowercase_hex() {
    let a = addr(0xab, 0x00, 0xef);
    assert_eq!(
        address_key(&a),
        "0xab000000000000000000000000000000000000ef"
    );
}

#[test]
fn address_display_is_prefixed_lowercase_hex() {
    let a = addr(0x12, 0x34, 0x56);
    assert_eq!(
        address_display(&a),
        "0x1234343434343434343434343434343434343456"
    );
}

#[test]
fn string_to_h160_reads_a_key() {
    let a = addr(0xde, 0xad, 0xbe);
    assert_eq!(string_to_h160(&address_key(&a)), Ok(a));
}

#[test]
fn string_to_h160_accepts_uppercase_and_surrounding_whitespace() {
    let r = string_to_h160("  0xABCDEF0000000000000000000000000000000001\n");
    let mut expected = [0u8; 20];
    expected[0] = 0xab;
    expected[1] = 0xcd;
    expected[2] = 0xef;
    expected[19] = 0x01;
    assert_eq!(r, Ok(Address(expected)));
}

#[test]
fn string_to_h160_rejects_missing_prefix() {
    let text = "ab00000000000000000000000000000000000000ef";
    assert_eq!(
        string_to_h160(text),
        Err(format!("Invalid Ethereum address: {}", text))
    );
}

#[test]
fn string_to_h160_rejects_wrong_length() {
    let text = " 0x1234 ";
    assert_eq!(
        string_to_h160(text),
        Err(format!("Invalid Ethereum address: {}", text))
    );
}

#[test]
fn string_to_h160_rejects_bad_digits() {
    let text = "0xzz00000000000000000000000000000000000000";
    assert_eq!(
        string_to_h160(text),
        Err(format!("Failed to convert address '{}'", text))
    );
}

#[test]
fn string_to_h160_rejects_a_second_prefix() {
    let text = "0x0x000000000000000000000000000000000000ff";
    assert_eq!(
        string_to_h160(text),
        Err(format!("Failed to convert address '{}'", text))
    );
}

#[test]
fn vanity_when_first_and_last_digit_match() {
    let known = addr(0x1f, 0x00, 0x2a);
    let lookalike = addr(0x1e, 0x77, 0x3a);
    assert!(is_vanity_address(&lookalike, &[known]));
}

#[test]
fn vanity_with_wider_match() {
    let known = addr(0xab, 0x00, 0xcd);
    let lookalike = addr(0xab, 0x99, 0xcd);
    assert!(is_vanity_address(&lookalike, &[addr(0x00, 0x00, 0x00), known]));
}

#[test]
fn not_vanity_when_first_digit_differs() {
    let known = addr(0x1f, 0x00, 0x2a);
    let other = addr(0x2f, 0x00, 0x2a);
    assert!(!is_vanity_address(&other, &[known]));
}

#[test]
fn not_vanity_when_last_digit_differs() {
    let known = addr(0x1f, 0x00, 0x2a);
    let other = addr(0x1f, 0x00, 0x2b);
    assert!(!is_vanity_address(&other, &[known]));
}

#[test]
fn own_address_is_not_vanity() {
    let a = addr(0x1f, 0x55, 0x2a);
    assert!(!is_vanity_address(&a, &[a, a]));
    assert!(!is_vanity_address(&a, &[]));
}

#[test]
fn cached_address_set_skips_bad_rows_and_duplicates() {
    let a = addr(0x01, 0x02, 0x03);
    let b = addr(0x04, 0x05, 0x06);
    let rows = vec![
        address_key(&a),
        "garbage".to_string(),
        address_key(&b),
        format!(" {} ", address_key(&a)),
    ];
    let set = cached_address_set(&rows);
    assert_eq!(set, vec![a, b]);
}

#[test]
fn address_comparisons() {
    let a = addr(0x01, 0x02, 0x03);
    let b = addr(0x01, 0x02, 0x04);
    assert!(same_address(&a, &a));
    assert!(!same_address(&a, &b));
    assert!(contains_address(&vec![b, a], &a));
    assert!(!contains_address(&vec![b], &a));
}

#[test]
fn same_text_compares_characters() {
    assert!(same_text("Entity", "Entity"));
    assert!(!same_text("Entity", "entity"));
    assert!(!same_text("é", "e"));
}

#[test]
fn display_uppercase_and_padded_texts_read_back() {
    let a = addr(0xc0, 0xff, 0xee);
    assert_eq!(string_to_h160(&address_display(&a)), Ok(a));
    let upper = format!("0x{}", address_key(&a)[2..].to_uppercase());
    assert_eq!(string_to_h160(&upper), Ok(a));
    let padded = format!("\t {}\u{3000}\n", address_key(&a));
    assert_eq!(string_to_h160(&padded), Ok(a));
}

#[test]
fn trim_removes_unicode_white_space() {
    for text in [" a b ", "\t\n\u{a0}x\u{3000}\u{2028}", "", "   ", "\u{200b}y\u{200b}", "\u{85}z\u{1680}"] {
        assert_eq!(shield_rpc::encoding::trim(text), text.trim());
    }
    assert!(shield_rpc::encoding::is_white_space_char('\u{205f}'));
    assert!(!shield_rpc::encoding::is_white_space_char('\u{200b}'));
}
