//! Ethereum addresses: their text forms, parsing them back, and the
//! look-alike ("vanity") test against addresses the user already dealt with.

use vstd::prelude::*;
use vstd::string::*;
use vstd::utf8::*;

use crate::encoding::{all_hex_digits, hex_decodable, hex_digit, hex_value, is_hex_digit, is_white_space, nibble_at, trim_end, trim_start, hex_decoded, hex_encode, hex_lower, same_chars, same_text, trim, trimmed};

verus! {

/// A 20-byte Ethereum account or contract address.
#[derive(Clone, Copy, Debug, PartialEq, Eq, Hash)]
pub struct Address(pub [u8; 20]);

impl View for Address {
    type V = Seq<u8>;

    open spec fn view(&self) -> Seq<u8> {
        self.0@
    }
}

/// The views of a sequence of addresses.
pub open spec fn address_views(addresses: Seq<Address>) -> Seq<Seq<u8>> {
    addresses.map_values(|a: Address| a@)
}

/// Bytes that the hex parser of `H160` skips between digits.
pub open spec fn is_hex_filler(b: u8) -> bool {
    b == 32 || b == 13 || b == 10 || b == 9
}

/// `b` without one leading `0x`, if it has one.
pub open spec fn without_hex_prefix(b: Seq<u8>) -> Seq<u8> {
    if b.len() >= 2 && b[0] == 48 && b[1] == 120 {
        b.skip(2)
    } else {
        b
    }
}

/// The address that the text with UTF-8 bytes `b` names, as `H160`'s
/// `FromStr` reads it: an optional `0x`, then exactly 40 hex digits with
/// spaces, tabs, CR and LF allowed between them.
pub open spec fn h160_from_hex(b: Seq<u8>) -> Option<Seq<u8>> {
    let digits = without_hex_prefix(b).filter(|x: u8| !is_hex_filler(x));
    if digits.len() == 40 && all_hex_digits(digits) {
        Some(hex_decoded(digits))
    } else {
        None
    }
}

/// `<H160 as LowerHex>::fmt` (`{:x}`): the 40 lowercase hex digits of the
/// address, without prefix.
#[verifier::external_body]
fn h160_lower_hex(address: &Address) -> (text: String)
    ensures
        text@ == hex_lower(address@),
{
    format!("{:x}", web3::types::H160(address.0))
}

/// `<H160 as Debug>::fmt` (`{:?}`): `0x` followed by the 40 lowercase hex
/// digits of the address.
#[verifier::external_body]
fn h160_debug(address: &Address) -> (text: String)
    ensures
        text@ == "0x"@ + hex_lower(address@),
{
    format!("{:?}", web3::types::H160(address.0))
}

/// `<H160 as FromStr>::from_str`: the address named by the text, read as
/// `h160_from_hex` describes, or nothing.
#[verifier::external_body]
fn h160_from_str(text: &str) -> (r: Option<Address>)
    ensures
        r is Some <==> h160_from_hex(text.spec_bytes()) is Some,
        r matches Some(a) ==> h160_from_hex(text.spec_bytes()) == Some(a@),
{
    text.parse::<web3::types::H160>().ok().map(|h| Address(h.0))
}

/// `H160::from_slice`: the address whose bytes are `bytes`; it panics unless
/// there are exactly 20 of them, so that is required.
#[verifier::external_body]
pub(crate) fn h160_from_slice(bytes: &[u8]) -> (address: Address)
    requires
        bytes@.len() == 20,
    ensures
        address@ == bytes@,
{
    Address(web3::types::H160::from_slice(bytes).0)
}

/// The `0x`-prefixed lowercase hex text under which an address is stored.
pub open spec fn address_key_text(address: Seq<u8>) -> Seq<char> {
    "0x"@ + hex_lower(address)
}

/// The `0x`-prefixed lowercase hex text of an address: the key under which
/// the shield's tables store it.
pub fn address_key(address: &Address) -> (key: String)
    ensures
        key@ == address_key_text(address@),
{
    let mut key = String::from_str("0x");
    let digits = hex_encode(&address.0);
    key.append(digits.as_str());
    key
}

/// `0x` followed by the lowercase hex digits, as an address is shown in messages.
pub fn address_display(address: &Address) -> (text: String)
    ensures
        text@ == "0x"@ + hex_lower(address@),
{
    h160_debug(address)
}

/// Whether two addresses are the same.
pub fn same_address(a: &Address, b: &Address) -> (same: bool)
    ensures
        same == (a@ == b@),
{
    let mut i: usize = 0;
    while i < 20
        invariant
            i <= 20,
            forall|k: int| 0 <= k < i ==> a.0@[k] == b.0@[k],
        decreases 20 - i,
    {
        if a.0[i] != b.0[i] {
            return false;
        }
        i = i + 1;
    }
    assert(a@ =~= b@);
    true
}

/// What `string_to_h160` gives for the text `s`: the address that a trimmed
/// `0x` followed by 40 hex digits names, or the message that explains why
/// there is none.
pub open spec fn parsed_address(s: Seq<char>) -> Result<Seq<u8>, Seq<char>> {
    let t = trimmed(s);
    if !(t.len() >= 2 && t[0] == '0' && t[1] == 'x') || encode_utf8(t).len() != 42 {
        Err("Invalid Ethereum address: "@ + s)
    } else {
        match h160_from_hex(encode_utf8(t.skip(2))) {
            Some(a) => Ok(a),
            None => Err("Failed to convert address '"@ + t + "'"@),
        }
    }
}

/// Reads a stored address back: surrounding whitespace is ignored, then the
/// text must be `0x` and 40 hex digits (42 bytes in all).
pub fn string_to_h160(address_str: &str) -> (r: Result<Address, String>)
    ensures
        match r {
            Ok(a) => parsed_address(address_str@) == Ok::<Seq<u8>, Seq<char>>(a@),
            Err(e) => parsed_address(address_str@) == Err::<Seq<u8>, Seq<char>>(e@),
        },
{
    let full_address = trim(address_str);
    let n: usize = full_address.unicode_len();
    let prefixed = n >= 2 && full_address.get_char(0) == '0' && full_address.get_char(1) == 'x';
    if !prefixed || full_address.as_bytes().len() != 42 {
        let mut message = String::from_str("Invalid Ethereum address: ");
        message.append(address_str);
        return Err(message);
    }
    let digits = full_address.substring_char(2, n);
    assert(digits@ =~= full_address@.skip(2));
    match h160_from_str(digits) {
        Some(address) => {
            Ok(address)
        },
        None => {
            let mut message = String::from_str("Failed to convert address '");
            message.append(full_address);
            message.append("'");
            Err(message)
        },
    }
}

/// `known` and `candidate` are different texts of more than `tolerance`
/// characters that agree on their first and on their last `tolerance` characters.
pub open spec fn resembles(known: Seq<char>, candidate: Seq<char>, tolerance: int) -> bool {
    &&& known != candidate
    &&& known.len() > tolerance
    &&& candidate.len() > tolerance
    &&& known.take(tolerance) == candidate.take(tolerance)
    &&& known.skip(known.len() - tolerance) == candidate.skip(candidate.len() - tolerance)
}

/// Some address of `cached`, in hex, resembles the hex of `address` with a
/// tolerance from 1 to 12 characters.
pub open spec fn looks_like_cached(address: Seq<u8>, cached: Seq<Seq<u8>>) -> bool {
    exists|tolerance: int, i: int|
        1 <= tolerance <= 12 && 0 <= i < cached.len() && #[trigger] resembles(
            hex_lower(cached[i]),
            hex_lower(address),
            tolerance,
        )
}

/// Whether `address` imitates one of the addresses the user dealt with
/// before: its hex text differs from a cached one but agrees with it on the
/// first and last `tolerance` digits, for a tolerance from 1 to 12.
pub fn is_vanity_address(address: &Address, cached_addresses: &[Address]) -> (vanity: bool)
    ensures
        vanity == looks_like_cached(address@, address_views(cached_addresses@)),
{
    let ghost cached = address_views(cached_addresses@);
    let address_str = h160_lower_hex(address);
    let mut tolerance: usize = 1;
    while tolerance <= 12
        invariant
            1 <= tolerance <= 13,
            cached == address_views(cached_addresses@),
            address_str@ == hex_lower(address@),
            forall|t: int, i: int|
                1 <= t < tolerance && 0 <= i < cached.len() ==> !#[trigger] resembles(
                    hex_lower(cached[i]),
                    hex_lower(address@),
                    t,
                ),
        decreases 13 - tolerance,
    {
        let mut j: usize = 0;
        while j < cached_addresses.len()
            invariant
                1 <= tolerance <= 12,
                j <= cached_addresses@.len(),
                cached == address_views(cached_addresses@),
                address_str@ == hex_lower(address@),
                forall|t: int, i: int|
                    1 <= t < tolerance && 0 <= i < cached.len() ==> !#[trigger] resembles(
                        hex_lower(cached[i]),
                        hex_lower(address@),
                        t,
                    ),
                forall|i: int|
                    0 <= i < j ==> !#[trigger] resembles(
                        hex_lower(cached[i]),
                        hex_lower(address@),
                        tolerance as int,
                    ),
            decreases cached_addresses@.len() - j,
        {
            let cached_str = h160_lower_hex(&cached_addresses[j]);
            assert(cached[j as int] == cached_addresses@[j as int]@);
            let known = cached_str.as_str();
            let candidate = address_str.as_str();
            let known_len: usize = known.unicode_len();
            let candidate_len: usize = candidate.unicode_len();
            if !same_text(known, candidate) && known_len > tolerance && candidate_len > tolerance {
                let prefix_match = same_chars(known, 0, candidate, 0, tolerance);
                let suffix_match = same_chars(
                    known,
                    known_len - tolerance,
                    candidate,
                    candidate_len - tolerance,
                    tolerance,
                );
                assert(known@.take(tolerance as int) =~= known@.subrange(0, tolerance as int));
                assert(candidate@.take(tolerance as int) =~= candidate@.subrange(0, tolerance as int));
                assert(known@.skip(known_len - tolerance) =~= known@.subrange(
                    known_len - tolerance,
                    known_len - tolerance + tolerance,
                ));
                assert(candidate@.skip(candidate_len - tolerance) =~= candidate@.subrange(
                    candidate_len - tolerance,
                    candidate_len - tolerance + tolerance,
                ));
                if prefix_match && suffix_match {
                    assert(resembles(hex_lower(cached[j as int]), hex_lower(address@), tolerance as int));
                    return true;
                }
            }
            j = j + 1;
        }
        tolerance = tolerance + 1;
    }
    false
}

/// `known` differs from `candidate` but shares its first and its last hex digit.
pub open spec fn same_outer_digits(known: Seq<u8>, candidate: Seq<u8>) -> bool {
    &&& known != candidate
    &&& known[0] / 16 == candidate[0] / 16
    &&& known.last() % 16 == candidate.last() % 16
}

proof fn lemma_hex_digit_injective(a: int, b: int)
    requires
        0 <= a < 16,
        0 <= b < 16,
        hex_digit(a) == hex_digit(b),
    ensures
        a == b,
{
    assert((hex_digit(a) as u32) == (hex_digit(b) as u32));
}

proof fn lemma_hex_lower_injective(a: Seq<u8>, b: Seq<u8>)
    requires
        a.len() == b.len(),
        hex_lower(a) == hex_lower(b),
    ensures
        a == b,
{
    assert forall|i: int| 0 <= i < a.len() implies a[i] == b[i] by {
        assert((2 * i) % 2 == 0 && (2 * i) / 2 == i && (2 * i + 1) % 2 == 1 && (2 * i + 1) / 2 == i);
        assert(hex_lower(a)[2 * i] == hex_digit(nibble_at(a, 2 * i)));
        assert(hex_lower(b)[2 * i] == hex_digit(nibble_at(b, 2 * i)));
        assert(hex_lower(a)[2 * i + 1] == hex_digit(nibble_at(a, 2 * i + 1)));
        assert(hex_lower(b)[2 * i + 1] == hex_digit(nibble_at(b, 2 * i + 1)));
        assert(hex_lower(a)[2 * i] == hex_lower(b)[2 * i]);
        assert(hex_lower(a)[2 * i + 1] == hex_lower(b)[2 * i + 1]);
        assert(nibble_at(a, 2 * i) == a[i] as int / 16);
        assert(nibble_at(b, 2 * i) == b[i] as int / 16);
        assert(nibble_at(a, 2 * i + 1) == a[i] as int % 16);
        assert(nibble_at(b, 2 * i + 1) == b[i] as int % 16);
        lemma_hex_digit_injective(a[i] as int / 16, b[i] as int / 16);
        lemma_hex_digit_injective(a[i] as int % 16, b[i] as int % 16);
    }
    assert(a =~= b);
}

/// Only the first and the last hex digit matter: an address looks like a
/// cached one exactly when some cached address differs from it but shares
/// its first and its last hex digit.
pub proof fn lemma_vanity_means_same_outer_digits(address: Seq<u8>, cached: Seq<Seq<u8>>)
    requires
        address.len() == 20,
        forall|i: int| 0 <= i < cached.len() ==> (#[trigger] cached[i]).len() == 20,
    ensures
        looks_like_cached(address, cached) <==> exists|i: int|
            0 <= i < cached.len() && #[trigger] same_outer_digits(cached[i], address),
{
    let ha = hex_lower(address);
    assert(nibble_at(address, 0) == address[0] as int / 16);
    assert(nibble_at(address, 39) == address[19] as int % 16);
    if looks_like_cached(address, cached) {
        let (t, i) = choose|t: int, i: int|
            1 <= t <= 12 && 0 <= i < cached.len() && #[trigger] resembles(
                hex_lower(cached[i]),
                hex_lower(address),
                t,
            );
        let c = cached[i];
        let hc = hex_lower(c);
        assert(nibble_at(c, 0) == c[0] as int / 16);
        assert(nibble_at(c, 39) == c[19] as int % 16);
        assert(hc.take(t)[0] == ha.take(t)[0]);
        lemma_hex_digit_injective(c[0] as int / 16, address[0] as int / 16);
        assert(hc.skip(40 - t)[t - 1] == ha.skip(40 - t)[t - 1]);
        assert(hc[39] == ha[39]);
        lemma_hex_digit_injective(c[19] as int % 16, address[19] as int % 16);
        assert(c != address);
        assert(same_outer_digits(cached[i], address));
    }
    if exists|i: int| 0 <= i < cached.len() && #[trigger] same_outer_digits(cached[i], address) {
        let i = choose|i: int| 0 <= i < cached.len() && #[trigger] same_outer_digits(cached[i], address);
        let c = cached[i];
        let hc = hex_lower(c);
        assert(nibble_at(c, 0) == c[0] as int / 16);
        assert(nibble_at(c, 39) == c[19] as int % 16);
        if hc == ha {
            lemma_hex_lower_injective(c, address);
        }
        assert(hc.take(1) =~= ha.take(1));
        assert(hc.skip(39) =~= ha.skip(39));
        assert(resembles(hex_lower(cached[i]), hex_lower(address), 1));
    }
}

/// A cache that holds nothing but the address itself never makes the
/// address look like a vanity address.
pub proof fn lemma_own_address_is_not_vanity(address: Seq<u8>, cached: Seq<Seq<u8>>)
    requires
        forall|i: int| 0 <= i < cached.len() ==> #[trigger] cached[i] == address,
    ensures
        !looks_like_cached(address, cached),
{
}

/// The address named by `row` is `address`.
pub open spec fn row_names(row: Seq<char>, address: Seq<u8>) -> bool {
    parsed_address(row) == Ok::<Seq<u8>, Seq<char>>(address)
}

/// Some row of `rows` names `address`.
pub open spec fn named_by_some_row(rows: Seq<Seq<char>>, address: Seq<u8>) -> bool {
    exists|i: int| 0 <= i < rows.len() && #[trigger] row_names(rows[i], address)
}

/// Whether `address` is one of `addresses`.
pub fn contains_address(addresses: &Vec<Address>, address: &Address) -> (found: bool)
    ensures
        found == exists|k: int| 0 <= k < addresses@.len() && #[trigger] addresses@[k]@ == address@,
{
    let mut k: usize = 0;
    while k < addresses.len()
        invariant
            k <= addresses@.len(),
            forall|m: int| 0 <= m < k ==> #[trigger] addresses@[m]@ != address@,
        decreases addresses@.len() - k,
    {
        if same_address(&addresses[k], address) {
            return true;
        }
        k = k + 1;
    }
    false
}

/// The set of addresses that stored rows name: every row that reads back as
/// an address (see `string_to_h160`) contributes it, each address once;
/// rows that do not read back are left out. The set is a vector without
/// repeats, holding each address where a row first names it.
pub fn cached_address_set(rows: &Vec<String>) -> (set: Vec<Address>)
    ensures
        forall|k: int, m: int| 0 <= k < m < set@.len() ==> set@[k]@ != set@[m]@,
        forall|k: int|
            0 <= k < set@.len() ==> named_by_some_row(rows.deep_view(), #[trigger] set@[k]@),
        forall|i: int, a: Seq<u8>|
            0 <= i < rows@.len() && #[trigger] row_names(rows@[i]@, a) ==> exists|k: int|
                0 <= k < set@.len() && #[trigger] set@[k]@ == a,
{
    let mut set: Vec<Address> = Vec::new();
    let ghost mut origin: Seq<int> = Seq::empty();
    let mut n: usize = 0;
    while n < rows.len()
        invariant
            n <= rows@.len(),
            origin.len() == set@.len(),
            forall|k: int, m: int| 0 <= k < m < set@.len() ==> set@[k]@ != set@[m]@,
            forall|k: int| 0 <= k < origin.len() ==> 0 <= #[trigger] origin[k] < n,
            forall|k: int|
                #![trigger set@[k]]
                0 <= k < set@.len() ==> row_names(rows@[origin[k]]@, set@[k]@),
            forall|j: int, a: Seq<u8>|
                0 <= j < n && #[trigger] row_names(rows@[j]@, a) ==> exists|k: int|
                    0 <= k < set@.len() && #[trigger] set@[k]@ == a,
        decreases rows@.len() - n,
    {
        let parsed = string_to_h160(rows[n].as_str());
        if let Ok(address) = parsed {
            if !contains_address(&set, &address) {
                let ghost before = set@;
                let ghost before_origin = origin;
                assert(row_names(rows@[n as int]@, address@));
                set.push(address);
                proof {
                    origin = origin.push(n as int);
                }
                assert(set@[before.len() as int] == address);
                assert forall|k: int|
                    #![trigger set@[k]]
                    0 <= k < set@.len() implies row_names(rows@[origin[k]]@, set@[k]@) by {
                    if k < before.len() {
                        assert(set@[k] == before[k]);
                        assert(origin[k] == before_origin[k]);
                    }
                }
                assert forall|j: int, a: Seq<u8>|
                    0 <= j < n + 1 && #[trigger] row_names(rows@[j]@, a) implies exists|k: int|
                    0 <= k < set@.len() && #[trigger] set@[k]@ == a by {
                    if j < n {
                        let k = choose|k: int| 0 <= k < before.len() && #[trigger] before[k]@ == a;
                        assert(set@[k] == before[k]);
                    } else {
                        assert(set@[before.len() as int]@ == a);
                    }
                }
            }
        }
        n = n + 1;
    }
    assert forall|k: int| 0 <= k < set@.len() implies named_by_some_row(
        rows.deep_view(),
        #[trigger] set@[k]@,
    ) by {
        let w: int = origin[k];
        assert(0 <= w < rows@.len());
        assert(rows.deep_view()[w] == rows@[w]@);
        assert(row_names(rows.deep_view()[w], set@[k]@));
    }
    set
}

proof fn lemma_hex_digit_properties(n: int)
    requires
        0 <= n < 16,
    ensures
        hex_digit(n) as u32 == (if n < 10 { n + 48 } else { n + 87 }),
        is_hex_digit(hex_digit(n) as u8),
        hex_value(hex_digit(n) as u8) == n,
        !is_white_space(hex_digit(n)),
        !is_hex_filler(hex_digit(n) as u8),
        hex_digit(n) as u8 != 120,
        '\0' <= hex_digit(n) <= '\u{7f}',
{
}

proof fn lemma_filter_keeps_all(s: Seq<u8>, pred: spec_fn(u8) -> bool)
    requires
        forall|i: int| 0 <= i < s.len() ==> pred(#[trigger] s[i]),
    ensures
        s.filter(pred) == s,
    decreases s.len(),
{
    reveal(Seq::filter);
    if s.len() > 0 {
        lemma_filter_keeps_all(s.drop_last(), pred);
        assert(s.drop_last().push(s.last()) =~= s);
    }
}

/// The hex text of a 20-byte address, with its `0x`, is `0x` and 40 ASCII
/// hex digits.
proof fn lemma_address_key_shape(address: Seq<u8>)
    requires
        address.len() == 20,
    ensures
        address_key_text(address).len() == 42,
        address_key_text(address)[0] == '0',
        address_key_text(address)[1] == 'x',
        address_key_text(address).skip(2) == hex_lower(address),
        is_ascii_chars(address_key_text(address)),
        forall|i: int|
            0 <= i < 40 ==> #[trigger] hex_lower(address)[i] == hex_digit(nibble_at(address, i)),
        forall|i: int| 0 <= i < 40 ==> 0 <= #[trigger] nibble_at(address, i) < 16,
{
    reveal_strlit("0x");
    let key = address_key_text(address);
    let h = hex_lower(address);
    assert(key.skip(2) =~= h);
    assert forall|i: int| 0 <= i < 40 implies 0 <= #[trigger] nibble_at(address, i) < 16 by {}
    assert forall|i: int| 0 <= i < key.len() implies '\0' <= #[trigger] key[i] <= '\u{7f}' by {
        if i >= 2 {
            assert(key[i] == h[i - 2]);
            lemma_hex_digit_properties(nibble_at(address, i - 2));
        }
    }
}

/// The digits of a stored address key: the key is its own trimmed text, and
/// its bytes after `0x` are 40 hex digits, none of them `x` or a filler,
/// that decode to the address.
pub(crate) proof fn lemma_address_key_digits(address: Seq<u8>)
    requires
        address.len() == 20,
    ensures
        ({
            let key = address_key_text(address);
            let b = encode_utf8(key.skip(2));
            &&& trimmed(key) == key
            &&& key.len() == 42
            &&& key[0] == '0'
            &&& key[1] == 'x'
            &&& encode_utf8(key).len() == 42
            &&& b.len() == 40
            &&& b[1] != 120
            &&& all_hex_digits(b)
            &&& hex_decodable(b)
            &&& forall|i: int| 0 <= i < b.len() ==> !is_hex_filler(#[trigger] b[i])
            &&& hex_decoded(b) == address
        }),
{
    broadcast use is_ascii_chars_encode_utf8;

    let key = address_key_text(address);
    let h = hex_lower(address);
    lemma_address_key_shape(address);
    lemma_hex_digit_properties(nibble_at(address, 39));
    assert(key.last() == h[39]);
    assert(trim_start(key) == key);
    assert(trim_end(key) == key);
    assert(is_ascii_chars(h)) by {
        assert forall|i: int| 0 <= i < h.len() implies '\0' <= #[trigger] h[i] <= '\u{7f}' by {
            lemma_hex_digit_properties(nibble_at(address, i));
        }
    }
    let b = encode_utf8(key.skip(2));
    assert(b.len() == 40);
    assert forall|i: int| 0 <= i < 40 implies #[trigger] b[i] == hex_digit(nibble_at(address, i)) as u8 by {}
    lemma_hex_digit_properties(nibble_at(address, 1));
    assert forall|i: int| 0 <= i < b.len() implies !is_hex_filler(#[trigger] b[i]) && is_hex_digit(b[i]) by {
        lemma_hex_digit_properties(nibble_at(address, i));
    }
    assert(hex_decoded(b) =~= address) by {
        assert forall|i: int| 0 <= i < 20 implies #[trigger] hex_decoded(b)[i] == address[i] by {
            assert((2 * i) % 2 == 0 && (2 * i) / 2 == i && (2 * i + 1) % 2 == 1 && (2 * i + 1) / 2 == i);
            lemma_hex_digit_properties(nibble_at(address, 2 * i));
            lemma_hex_digit_properties(nibble_at(address, 2 * i + 1));
            assert(hex_value(b[2 * i]) == address[i] as int / 16);
            assert(hex_value(b[2 * i + 1]) == address[i] as int % 16);
        }
    }
}

/// A stored address key reads back as the same address: `string_to_h160`
/// undoes `address_key`.
pub proof fn lemma_address_key_reads_back(address: Seq<u8>)
    requires
        address.len() == 20,
    ensures
        parsed_address(address_key_text(address)) == Ok::<Seq<u8>, Seq<char>>(address),
{
    lemma_address_key_digits(address);
    let b = encode_utf8(address_key_text(address).skip(2));
    assert(without_hex_prefix(b) == b);
    lemma_filter_keeps_all(b, |x: u8| !is_hex_filler(x));
}

/// An ASCII hex digit character, either case.
pub open spec fn is_hex_char(c: char) -> bool {
    ('0' <= c <= '9') || ('A' <= c <= 'F') || ('a' <= c <= 'f')
}

/// `digits` is hex text for `address`, two digits per byte in either case.
pub open spec fn hex_text_of(digits: Seq<char>, address: Seq<u8>) -> bool {
    &&& digits.len() == 2 * address.len()
    &&& forall|i: int| 0 <= i < digits.len() ==> #[trigger] is_hex_char(digits[i])
    &&& forall|i: int|
        0 <= i < address.len() ==> #[trigger] address[i] == 16 * hex_value(digits[2 * i] as u8)
            + hex_value(digits[2 * i + 1] as u8)
}

/// Every character of `s` is whitespace.
pub open spec fn all_white_space(s: Seq<char>) -> bool {
    forall|i: int| 0 <= i < s.len() ==> #[trigger] is_white_space(s[i])
}

/// The uppercase hex digit for a nibble value `n` in `0..16`.
pub open spec fn hex_digit_upper(n: int) -> char {
    if n < 10 {
        (n + 48) as char
    } else {
        (n + 55) as char
    }
}

/// Uppercase hex text of a byte sequence, two digits per byte, no prefix.
pub open spec fn hex_upper(bytes: Seq<u8>) -> Seq<char> {
    Seq::new(2 * bytes.len(), |i: int| hex_digit_upper(nibble_at(bytes, i)))
}

proof fn lemma_trim_start_skips(pre: Seq<char>, x: Seq<char>)
    requires
        all_white_space(pre),
        x.len() > 0,
        !is_white_space(x[0]),
    ensures
        trim_start(pre + x) == x,
    decreases pre.len(),
{
    if pre.len() == 0 {
        assert(pre + x =~= x);
    } else {
        assert((pre + x).drop_first() =~= pre.drop_first() + x);
        assert((pre + x)[0] == pre[0]);
        lemma_trim_start_skips(pre.drop_first(), x);
    }
}

proof fn lemma_trim_end_skips(y: Seq<char>, post: Seq<char>)
    requires
        all_white_space(post),
        y.len() > 0,
        !is_white_space(y.last()),
    ensures
        trim_end(y + post) == y,
    decreases post.len(),
{
    if post.len() == 0 {
        assert(y + post =~= y);
    } else {
        assert((y + post).drop_last() =~= y + post.drop_last());
        assert((y + post).last() == post.last());
        lemma_trim_end_skips(y, post.drop_last());
    }
}

/// Any text that is `0x` and hex digits of either case for an address,
/// with whitespace around it, reads back as that address.
pub proof fn lemma_address_text_reads_back(
    pre: Seq<char>,
    digits: Seq<char>,
    post: Seq<char>,
    address: Seq<u8>,
)
    requires
        address.len() == 20,
        all_white_space(pre),
        all_white_space(post),
        hex_text_of(digits, address),
    ensures
        parsed_address(pre + "0x"@ + digits + post) == Ok::<Seq<u8>, Seq<char>>(address),
        trimmed(pre + "0x"@ + digits + post) == "0x"@ + digits,
        hex_decodable(encode_utf8(digits)),
        hex_decoded(encode_utf8(digits)) == address,
{
    broadcast use is_ascii_chars_encode_utf8;

    reveal_strlit("0x");
    let t = "0x"@ + digits;
    let s = pre + "0x"@ + digits + post;
    assert(t.len() == 42);
    assert(t[0] == '0' && t[1] == 'x');
    assert(digits[39] == t.last());
    assert(is_hex_char(digits[39]));
    assert(s =~= pre + (t + post));
    assert((t + post)[0] == '0');
    lemma_trim_start_skips(pre, t + post);
    lemma_trim_end_skips(t, post);
    assert(trimmed(s) == t);
    assert(is_ascii_chars(t)) by {
        assert forall|i: int| 0 <= i < t.len() implies '\0' <= #[trigger] t[i] <= '\u{7f}' by {
            if i >= 2 {
                assert(t[i] == digits[i - 2]);
                assert(is_hex_char(digits[i - 2]));
            }
        }
    }
    assert(t.skip(2) =~= digits);
    assert(is_ascii_chars(digits)) by {
        assert forall|i: int| 0 <= i < digits.len() implies '\0' <= #[trigger] digits[i] <= '\u{7f}' by {
            assert(is_hex_char(digits[i]));
        }
    }
    let b = encode_utf8(digits);
    assert(b.len() == 40);
    assert forall|i: int| 0 <= i < 40 implies #[trigger] b[i] == digits[i] as u8 && is_hex_digit(b[i])
        && !is_hex_filler(b[i]) by {
        assert(is_hex_char(digits[i]));
    }
    assert(is_hex_char(digits[1]));
    assert(without_hex_prefix(b) == b);
    lemma_filter_keeps_all(b, |x: u8| !is_hex_filler(x));
    assert(all_hex_digits(b));
    assert(hex_decoded(b) =~= address) by {
        assert forall|i: int| 0 <= i < 20 implies #[trigger] hex_decoded(b)[i] == address[i] by {
            assert(b[2 * i] == digits[2 * i] as u8);
            assert(b[2 * i + 1] == digits[2 * i + 1] as u8);
            assert(is_hex_char(digits[2 * i]));
            assert(is_hex_char(digits[2 * i + 1]));
        }
    }
}

/// The uppercase hex of an address, with `0x` and whitespace around it,
/// reads back as that address.
pub proof fn lemma_uppercase_address_text_reads_back(
    pre: Seq<char>,
    address: Seq<u8>,
    post: Seq<char>,
)
    requires
        address.len() == 20,
        all_white_space(pre),
        all_white_space(post),
    ensures
        parsed_address(pre + "0x"@ + hex_upper(address) + post) == Ok::<Seq<u8>, Seq<char>>(
            address,
        ),
{
    let d = hex_upper(address);
    assert forall|i: int| 0 <= i < d.len() implies #[trigger] is_hex_char(d[i]) by {
        assert(0 <= nibble_at(address, i) < 16);
    }
    assert forall|i: int| 0 <= i < address.len() implies #[trigger] address[i] == 16 * hex_value(
        d[2 * i] as u8,
    ) + hex_value(d[2 * i + 1] as u8) by {
        assert((2 * i) % 2 == 0 && (2 * i) / 2 == i && (2 * i + 1) % 2 == 1 && (2 * i + 1) / 2 == i);
        assert(nibble_at(address, 2 * i) == address[i] as int / 16);
        assert(nibble_at(address, 2 * i + 1) == address[i] as int % 16);
    }
    lemma_address_text_reads_back(pre, d, post, address);
}

/// A stored address key with whitespace around it (this covers the
/// `{:#x}` form, which is the key itself) reads back as that address.
pub proof fn lemma_padded_address_key_reads_back(
    pre: Seq<char>,
    address: Seq<u8>,
    post: Seq<char>,
)
    requires
        address.len() == 20,
        all_white_space(pre),
        all_white_space(post),
    ensures
        parsed_address(pre + address_key_text(address) + post) == Ok::<Seq<u8>, Seq<char>>(
            address,
        ),
{
    let d = hex_lower(address);
    assert forall|i: int| 0 <= i < d.len() implies #[trigger] is_hex_char(d[i]) by {
        lemma_hex_digit_properties(nibble_at(address, i));
    }
    assert forall|i: int| 0 <= i < address.len() implies #[trigger] address[i] == 16 * hex_value(
        d[2 * i] as u8,
    ) + hex_value(d[2 * i + 1] as u8) by {
        assert((2 * i) % 2 == 0 && (2 * i) / 2 == i && (2 * i + 1) % 2 == 1 && (2 * i + 1) / 2 == i);
        lemma_hex_digit_properties(nibble_at(address, 2 * i));
        lemma_hex_digit_properties(nibble_at(address, 2 * i + 1));
    }
    assert(pre + address_key_text(address) + post =~= pre + "0x"@ + d + post);
    lemma_address_text_reads_back(pre, d, post, address);
}

} // verus!
