use shield_rpc::address::Address;
use shield_rpc::alert_list::{
    checked_parse_alert_list, entry_addresses, entry_bytes, parse_alert_list, table_entries,
    AlertListError,
};

const A: &str = "0x00000000000000000000000000000000000000aa";
const B: &str = "0xBB000000000000000000000000000000000000bb";

fn a() -> Address {
    let mut bytes = [0u8; 20];
    bytes[19] = 0xaa;
    Address(bytes)
}

fn b() -> Address {
    let mut bytes = [0u8; 20];
    bytes[0] = 0xbb;
    bytes[19] = 0xbb;
    Address(bytes)
}

#[test]
fn lists_the_entity_column() {
    let text = format!(
        "Name\tEntity\tNote\nfirst\t{}\tx\nempty\t \ty\nnoprefix\t1234\tz\nbadhex\t0xzz\tw\nsecond\t  {}  \tv\n",
        A, B
    );
    let list = parse_alert_list(text.as_bytes()).unwrap();
    assert_eq!(list, vec![a(), b()]);
}

#[test]
fn missing_entity_column() {
    let text = "Name\tAddress\nfirst\t0x00\n";
    assert!(matches!(
        parse_alert_list(text.as_bytes()),
        Err(AlertListError::MissingEntityColumn)
    ));
}

#[test]
fn not_utf8() {
    let bytes = [0x45u8, 0xff, 0xfe];
    assert!(matches!(parse_alert_list(&bytes), Err(AlertListError::NotUtf8)));
}

#[test]
fn unreadable_record() {
    let text = format!("Entity\tNote\n{}\tx\n{}\n", A, B);
    assert!(matches!(
        parse_alert_list(text.as_bytes()),
        Err(AlertListError::Table(_))
    ));
}

#[test]
fn empty_table_lists_nothing() {
    let text = "Entity\n";
    assert_eq!(parse_alert_list(text.as_bytes()).unwrap(), vec![]);
}

#[test]
fn short_address_is_refused_by_the_checked_reader() {
    let text = format!("Entity\n{}\n0x1234\n", A);
    assert!(checked_parse_alert_list(text.as_bytes()).is_none());
    let text = format!("Entity\n{}\n", A);
    let list = checked_parse_alert_list(text.as_bytes()).unwrap().unwrap();
    assert_eq!(list, vec![a()]);
}

#[test]
fn stored_key_is_a_listed_entry() {
    let mut bytes = [0x5au8; 20];
    bytes[3] = 0x00;
    let address = Address(bytes);
    let text = format!("Entity\n{}\n", shield_rpc::address::address_key(&address));
    assert_eq!(parse_alert_list(text.as_bytes()).unwrap(), vec![address]);
}

fn strings(fields: &[&str]) -> Vec<String> {
    fields.iter().map(|f| f.to_string()).collect()
}

#[test]
fn table_entries_reads_the_entity_column() {
    let headers = strings(&["Note", "Entity"]);
    let records = vec![
        strings(&["x", A]),
        strings(&["short row"]),
        strings(&["y", "0x12"]),
        strings(&["z", "nothing"]),
    ];
    let entries = table_entries(&headers, &records).unwrap();
    assert_eq!(entries.len(), 2);
    assert_eq!(entries[1], vec![0x12u8]);
    assert!(table_entries(&strings(&["Note"]), &records).is_none());
    let first = table_entries(&strings(&["Entity", "Entity"]), &vec![strings(&[A, "0xff"])]).unwrap();
    assert_eq!(first.len(), 1);
    assert_eq!(first[0].len(), 20);
}

#[test]
fn entry_bytes_of_cells() {
    assert_eq!(entry_bytes(" 0x0aFF "), Some(vec![0x0a, 0xff]));
    assert_eq!(entry_bytes(""), None);
    assert_eq!(entry_bytes("0x"), Some(vec![]));
    assert_eq!(entry_bytes("0xabc"), None);
    assert_eq!(entry_bytes("ab"), None);
}

#[test]
fn entry_addresses_converts_each_entry() {
    let entries = vec![a().0.to_vec(), b().0.to_vec()];
    assert_eq!(entry_addresses(&entries), vec![a(), b()]);
}
