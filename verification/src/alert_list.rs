//! The alert list of known scam addresses: a tab-separated table whose
//! `Entity` column holds `0x`-prefixed addresses.

use vstd::prelude::*;
use vstd::string::*;
use vstd::utf8::*;

use crate::address::{
    address_key_text, address_views, all_white_space, h160_from_slice, hex_text_of,
    lemma_address_key_digits, lemma_address_text_reads_back, Address,
};
use crate::encoding::{
    hex_decodable, hex_decode, hex_decoded, same_text, string_from_utf8, trim, trimmed,
};

verus! {

/// What `csv::Reader::headers` reads from `text` with tab as delimiter and
/// a header row: the header fields, or nothing when reading fails.
pub uninterp spec fn tsv_headers(text: Seq<char>) -> Option<Seq<Seq<char>>>;

/// What `csv::Reader::records` yields from `text` with tab as delimiter
/// and a header row: the fields of the records read before the first
/// error, and whether an error ended the reading.
pub uninterp spec fn tsv_records(text: Seq<char>) -> (Seq<Seq<Seq<char>>>, bool);

#[verifier::external_type_specification]
#[verifier::external_body]
pub struct ExCsvError(csv::Error);

/// `csv::ReaderBuilder` (tab delimiter, header row) then `Reader::headers`:
/// the header fields exactly when `tsv_headers` names them. The table
/// syntax (quoting, escapes, record lengths) is left to that name.
#[verifier::external_body]
fn read_headers(text: &str) -> (r: Result<Vec<String>, csv::Error>)
    ensures
        r is Ok <==> tsv_headers(text@) is Some,
        r matches Ok(headers) ==> tsv_headers(text@) == Some(headers.deep_view()),
{
    let mut reader = csv::ReaderBuilder::new().delimiter(b'\t').has_headers(true).from_reader(
        text.as_bytes(),
    );
    match reader.headers() {
        Ok(headers) => Ok(headers.iter().map(String::from).collect()),
        Err(e) => Err(e),
    }
}

/// `csv::ReaderBuilder` (tab delimiter, header row) then `Reader::records`
/// up to the first error: the records and the error as `tsv_records`
/// names them.
#[verifier::external_body]
fn read_records(text: &str) -> (r: (Vec<Vec<String>>, Option<csv::Error>))
    ensures
        r.0.deep_view() == tsv_records(text@).0,
        r.1 is Some <==> tsv_records(text@).1,
{
    let mut reader = csv::ReaderBuilder::new().delimiter(b'\t').has_headers(true).from_reader(
        text.as_bytes(),
    );
    let mut rows: Vec<Vec<String>> = Vec::new();
    for record in reader.records() {
        match record {
            Ok(fields) => rows.push(fields.iter().map(String::from).collect()),
            Err(e) => return (rows, Some(e)),
        }
    }
    (rows, None)
}

/// The first position of `name` among `headers`, if it occurs.
pub open spec fn find_column(headers: Seq<Seq<char>>, name: Seq<char>) -> Option<int> {
    if exists|i: int| 0 <= i < headers.len() && headers[i] == name {
        Some(
            choose|i: int|
                0 <= i < headers.len() && headers[i] == name && forall|j: int|
                    0 <= j < i ==> headers[j] != name,
        )
    } else {
        None
    }
}

/// The address bytes that an alert-list cell holds: after trimming, `0x`
/// followed by hex digits; nothing for an empty cell, a cell without the
/// prefix, or digits that do not decode.
pub open spec fn entry_address(field: Seq<char>) -> Option<Seq<u8>> {
    let t = trimmed(field);
    if t.len() >= 2 && t[0] == '0' && t[1] == 'x' && hex_decodable(encode_utf8(t.skip(2))) {
        Some(hex_decoded(encode_utf8(t.skip(2))))
    } else {
        None
    }
}

/// The address bytes in cell `column` of `row`, if the row has that cell.
pub open spec fn row_entry(row: Seq<Seq<char>>, column: int) -> Option<Seq<u8>> {
    if 0 <= column < row.len() {
        entry_address(row[column])
    } else {
        None
    }
}

/// The address bytes of the `column` cells of `rows`, in row order.
pub open spec fn listed_addresses(rows: Seq<Seq<Seq<char>>>, column: int) -> Seq<Seq<u8>>
    decreases rows.len(),
{
    if rows.len() == 0 {
        seq![]
    } else {
        let earlier = listed_addresses(rows.drop_last(), column);
        match row_entry(rows.last(), column) {
            Some(a) => earlier.push(a),
            None => earlier,
        }
    }
}

/// How reading an alert list ends.
pub enum AlertListOutcome {
    NotUtf8,
    Table,
    MissingEntityColumn,
    Listed(Seq<Seq<u8>>),
}

/// How reading the alert list in `response` ends: the bytes must be UTF-8,
/// the header row must read and hold an `Entity` column, and every record
/// must read; then the addresses of that column are listed in order.
pub open spec fn alert_list_outcome(response: Seq<u8>) -> AlertListOutcome {
    if !valid_utf8(response) {
        AlertListOutcome::NotUtf8
    } else {
        let text = decode_utf8(response);
        match tsv_headers(text) {
            None => AlertListOutcome::Table,
            Some(headers) => match find_column(headers, "Entity"@) {
                None => AlertListOutcome::MissingEntityColumn,
                Some(column) => {
                    if tsv_records(text).1 {
                        AlertListOutcome::Table
                    } else {
                        AlertListOutcome::Listed(listed_addresses(tsv_records(text).0, column))
                    }
                },
            },
        }
    }
}

/// Every address that the alert list in `response` lists, up to the first
/// unreadable record, is 20 bytes long; a listed entry of another length
/// cannot be made an address.
pub open spec fn alert_list_sized(response: Seq<u8>) -> bool {
    valid_utf8(response) ==> match tsv_headers(decode_utf8(response)) {
        None => true,
        Some(headers) => match find_column(headers, "Entity"@) {
            None => true,
            Some(column) => forall|k: int|
                0 <= k < listed_addresses(tsv_records(decode_utf8(response)).0, column).len()
                    ==> (#[trigger] listed_addresses(
                    tsv_records(decode_utf8(response)).0,
                    column,
                )[k]).len() == 20,
        },
    }
}

/// Why an alert list could not be read.
#[derive(Debug)]
pub enum AlertListError {
    /// The response is not UTF-8 text.
    NotUtf8,
    /// The table could not be read.
    Table(csv::Error),
    /// The header row has no `Entity` column.
    MissingEntityColumn,
}

/// The outcome that a result of `parse_alert_list` reports.
pub open spec fn outcome_of(r: Result<Vec<Address>, AlertListError>) -> AlertListOutcome {
    match r {
        Ok(addresses) => AlertListOutcome::Listed(address_views(addresses@)),
        Err(AlertListError::NotUtf8) => AlertListOutcome::NotUtf8,
        Err(AlertListError::Table(_)) => AlertListOutcome::Table,
        Err(AlertListError::MissingEntityColumn) => AlertListOutcome::MissingEntityColumn,
    }
}

/// The first position of the `Entity` column among the headers.
fn entity_column(headers: &Vec<String>) -> (column: Option<usize>)
    ensures
        match column {
            Some(i) => find_column(headers.deep_view(), "Entity"@) == Some(i as int),
            None => find_column(headers.deep_view(), "Entity"@) is None,
        },
{
    let ghost h = headers.deep_view();
    let mut i: usize = 0;
    while i < headers.len()
        invariant
            i <= headers@.len(),
            h == headers.deep_view(),
            forall|j: int| 0 <= j < i ==> #[trigger] h[j] != "Entity"@,
        decreases headers@.len() - i,
    {
        assert(h[i as int] == headers@[i as int]@);
        if same_text(headers[i].as_str(), "Entity") {
            proof {
                assert(h[i as int] == "Entity"@);
                let found = choose|k: int|
                    0 <= k < h.len() && h[k] == "Entity"@ && forall|j: int|
                        0 <= j < k ==> h[j] != "Entity"@;
                if found < i as int {
                    assert(h[found] != "Entity"@);
                }
                if found > i as int {
                    assert(h[i as int] != "Entity"@);
                }
            }
            return Some(i);
        }
        i = i + 1;
    }
    None
}

/// The address bytes that an alert-list cell holds, as `entry_address` describes.
pub fn entry_bytes(field: &str) -> (bytes: Option<Vec<u8>>)
    ensures
        match bytes {
            Some(b) => entry_address(field@) == Some(b@),
            None => entry_address(field@) is None,
        },
{
    let trimmed_address = trim(field);
    let n: usize = trimmed_address.unicode_len();
    if n == 0 {
        return None;
    }
    if !(n >= 2 && trimmed_address.get_char(0) == '0' && trimmed_address.get_char(1) == 'x') {
        return None;
    }
    let digits = trimmed_address.substring_char(2, n);
    assert(digits@ =~= trimmed_address@.skip(2));
    match hex_decode(digits.as_bytes()) {
        Ok(decoded) => Some(decoded),
        Err(_) => None,
    }
}

/// The views of a sequence of byte vectors.
pub open spec fn byte_views(v: Seq<Vec<u8>>) -> Seq<Seq<u8>> {
    v.map_values(|b: Vec<u8>| b@)
}

/// The address bytes of the `column` cells of the records, in order.
fn listed_entries(records: &Vec<Vec<String>>, column: usize) -> (entries: Vec<Vec<u8>>)
    ensures
        byte_views(entries@) == listed_addresses(records.deep_view(), column as int),
{
    let ghost rows = records.deep_view();
    let mut entries: Vec<Vec<u8>> = Vec::new();
    let mut i: usize = 0;
    while i < records.len()
        invariant
            i <= records@.len(),
            rows == records.deep_view(),
            byte_views(entries@) == listed_addresses(rows.take(i as int), column as int),
        decreases records@.len() - i,
    {
        let ghost before = entries@;
        assert(rows.take(i + 1).drop_last() =~= rows.take(i as int));
        assert(rows.take(i + 1).last() == records@[i as int].deep_view());
        let record = &records[i];
        if column < record.len() {
            assert(record.deep_view()[column as int] == record@[column as int]@);
            match entry_bytes(record[column].as_str()) {
                Some(bytes) => {
                    entries.push(bytes);
                    assert(byte_views(entries@) =~= byte_views(before).push(entries@.last()@));
                },
                None => {},
            }
        }
        i = i + 1;
    }
    assert(rows.take(records@.len() as int) =~= rows);
    entries
}

/// The address bytes that the `Entity` column of a table lists, in row
/// order (see `listed_addresses`); nothing when the header row has no
/// `Entity` column.
pub fn table_entries(headers: &Vec<String>, records: &Vec<Vec<String>>) -> (entries: Option<
    Vec<Vec<u8>>,
>)
    ensures
        match entries {
            Some(e) => find_column(headers.deep_view(), "Entity"@) matches Some(column)
                && byte_views(e@) == listed_addresses(records.deep_view(), column),
            None => find_column(headers.deep_view(), "Entity"@) is None,
        },
{
    match entity_column(headers) {
        Some(column) => Some(listed_entries(records, column)),
        None => None,
    }
}

/// The addresses whose bytes the entries hold, in order; each entry is 20
/// bytes long.
pub fn entry_addresses(entries: &Vec<Vec<u8>>) -> (addresses: Vec<Address>)
    requires
        forall|m: int| 0 <= m < entries@.len() ==> (#[trigger] entries@[m])@.len() == 20,
    ensures
        address_views(addresses@) == byte_views(entries@),
{
    let ghost listed = byte_views(entries@);
    let mut addresses: Vec<Address> = Vec::new();
    let mut k: usize = 0;
    while k < entries.len()
        invariant
            k <= entries@.len(),
            listed == byte_views(entries@),
            forall|m: int| 0 <= m < entries@.len() ==> (#[trigger] entries@[m])@.len() == 20,
            address_views(addresses@) == listed.take(k as int),
        decreases entries@.len() - k,
    {
        let address = h160_from_slice(entries[k].as_slice());
        let ghost before = addresses@;
        addresses.push(address);
        assert(address_views(addresses@) =~= address_views(before).push(address@));
        assert(listed.take(k + 1) =~= listed.take(k as int).push(listed[k as int]));
        k = k + 1;
    }
    assert(listed.take(entries@.len() as int) =~= listed);
    addresses
}

/// Reads the alert list that was fetched: the UTF-8 text of a
/// tab-separated table whose `Entity` column lists `0x`-prefixed addresses.
/// Cells that are empty, lack the prefix or are not hex are skipped.
pub fn parse_alert_list(response: &[u8]) -> (r: Result<Vec<Address>, AlertListError>)
    requires
        alert_list_sized(response@),
    ensures
        outcome_of(r) == alert_list_outcome(response@),
{
    let text = match string_from_utf8(response) {
        Some(text) => text,
        None => return Err(AlertListError::NotUtf8),
    };
    let headers = match read_headers(text.as_str()) {
        Ok(headers) => headers,
        Err(e) => return Err(AlertListError::Table(e)),
    };
    let (records, failure) = read_records(text.as_str());
    let entries = match table_entries(&headers, &records) {
        Some(entries) => entries,
        None => return Err(AlertListError::MissingEntityColumn),
    };
    assert(tsv_records(decode_utf8(response@)).0 == records.deep_view());
    assert forall|m: int| 0 <= m < entries@.len() implies (#[trigger] entries@[m])@.len() == 20 by {
        assert(byte_views(entries@)[m] == entries@[m]@);
    }
    let alert_list = entry_addresses(&entries);
    match failure {
        Some(e) => Err(AlertListError::Table(e)),
        None => Ok(alert_list),
    }
}

/// `parse_alert_list` where every listed entry is 20 bytes long; nothing
/// where some entry could not be made an address.
pub fn checked_parse_alert_list(response: &[u8]) -> (r: Option<Result<Vec<Address>, AlertListError>>)
    ensures
        r is Some <==> alert_list_sized(response@),
        r matches Some(result) ==> outcome_of(result) == alert_list_outcome(response@),
{
    let text = match string_from_utf8(response) {
        Some(text) => text,
        None => return Some(parse_alert_list(response)),
    };
    let headers = match read_headers(text.as_str()) {
        Ok(headers) => headers,
        Err(_) => return Some(parse_alert_list(response)),
    };
    let column: usize = match entity_column(&headers) {
        Some(column) => column,
        None => return Some(parse_alert_list(response)),
    };
    let (records, _) = read_records(text.as_str());
    let entries = listed_entries(&records, column);
    let ghost listed = listed_addresses(records.deep_view(), column as int);
    let mut k: usize = 0;
    while k < entries.len()
        invariant
            k <= entries@.len(),
            byte_views(entries@) == listed,
            forall|m: int| 0 <= m < k ==> (#[trigger] listed[m]).len() == 20,
            valid_utf8(response@),
            tsv_headers(decode_utf8(response@)) == Some(headers.deep_view()),
            find_column(headers.deep_view(), "Entity"@) == Some(column as int),
            listed == listed_addresses(tsv_records(decode_utf8(response@)).0, column as int),
        decreases entries@.len() - k,
    {
        assert(listed[k as int] == entries@[k as int]@);
        if entries[k].len() != 20 {
            assert(listed[k as int].len() != 20);
            return None;
        }
        k = k + 1;
    }
    Some(parse_alert_list(response))
}

/// An alert-list cell written the way the shield stores addresses (`0x`
/// and 40 lowercase hex digits) lists exactly that address.
pub proof fn lemma_address_key_is_alert_entry(address: Seq<u8>)
    requires
        address.len() == 20,
    ensures
        entry_address(address_key_text(address)) == Some(address),
{
    lemma_address_key_digits(address);
}

/// The alert list can be read (the checked reader returns a result)
/// whenever every address that its `Entity` column lists is 20 bytes long;
/// cells that list nothing (empty, unprefixed, not hex) never prevent it,
/// and neither does text that is not UTF-8, an unreadable header row or a
/// missing `Entity` column.
pub proof fn lemma_readable_when_listed_entries_are_addresses(response: Seq<u8>)
    requires
        valid_utf8(response) ==> match tsv_headers(decode_utf8(response)) {
            Some(headers) => match find_column(headers, "Entity"@) {
                Some(column) => forall|k: int|
                    0 <= k < listed_addresses(tsv_records(decode_utf8(response)).0, column).len()
                        ==> (#[trigger] listed_addresses(
                        tsv_records(decode_utf8(response)).0,
                        column,
                    )[k]).len() == 20,
                None => true,
            },
            None => true,
        },
    ensures
        alert_list_sized(response),
{
}

/// A row whose `Entity` cell lists nothing leaves the listed addresses as
/// they are, wherever it stands.
pub proof fn lemma_unlisting_row_changes_nothing(
    rows: Seq<Seq<Seq<char>>>,
    j: int,
    row: Seq<Seq<char>>,
    column: int,
)
    requires
        0 <= j <= rows.len(),
        row_entry(row, column) is None,
    ensures
        listed_addresses(rows.insert(j, row), column) == listed_addresses(rows, column),
    decreases rows.len(),
{
    let inserted = rows.insert(j, row);
    if j == rows.len() {
        assert(inserted.drop_last() =~= rows);
        assert(inserted.last() == row);
    } else {
        assert(inserted.drop_last() =~= rows.drop_last().insert(j, row));
        assert(inserted.last() == rows.last());
        lemma_unlisting_row_changes_nothing(rows.drop_last(), j, row, column);
    }
}

/// A row whose `Entity` cell lists an address adds it after those listed
/// before; an empty table lists nothing.
pub proof fn lemma_listing_row_is_appended(
    rows: Seq<Seq<Seq<char>>>,
    row: Seq<Seq<char>>,
    column: int,
    address: Seq<u8>,
)
    requires
        row_entry(row, column) == Some(address),
    ensures
        listed_addresses(rows.push(row), column) == listed_addresses(rows, column).push(address),
        listed_addresses(Seq::empty(), column) == Seq::<Seq<u8>>::empty(),
{
    assert(rows.push(row).drop_last() =~= rows);
}

/// A cell that is not, once trimmed, `0x` followed by an even number of hex
/// digits lists nothing; in particular an empty or blank cell, a URL and a
/// bare hex number list nothing.
pub proof fn lemma_cell_without_hex_address_lists_nothing(field: Seq<char>)
    requires
        !(trimmed(field).len() >= 2 && trimmed(field)[0] == '0' && trimmed(field)[1] == 'x'
            && hex_decodable(encode_utf8(trimmed(field).skip(2)))),
    ensures
        entry_address(field) is None,
{
}

/// A cell holding the text of an address (`0x` and hex of either case,
/// whitespace around it) lists exactly that address.
pub proof fn lemma_address_text_cell_lists_it(
    pre: Seq<char>,
    digits: Seq<char>,
    post: Seq<char>,
    address: Seq<u8>,
)
    requires
        address.len() == 20,
        all_white_space(pre),
        all_white_space(post),
        hex_text_of(digits, address),
    ensures
        entry_address(pre + "0x"@ + digits + post) == Some(address),
{
    lemma_address_text_reads_back(pre, digits, post, address);
    reveal_strlit("0x");
    let t = trimmed(pre + "0x"@ + digits + post);
    assert(t.skip(2) =~= digits);
}

} // verus!
