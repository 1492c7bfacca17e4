//! Decoding the raw signed transaction of an `eth_sendRawTransaction` call:
//! a `0x`-prefixed hex text of the RLP encoding.

use vstd::prelude::*;
use vstd::string::*;
use vstd::utf8::*;

use crate::address::Address;
use crate::encoding::{hex_decodable, hex_decode, hex_decoded, is_hex_digit};

verus! {

/// What the shield reads of a decoded transaction: its recipient, absent
/// for a contract creation.
#[derive(Debug)]
pub struct Transaction {
    pub to: Option<Address>,
}

impl View for Transaction {
    type V = Option<Seq<u8>>;

    open spec fn view(&self) -> Option<Seq<u8>> {
        match self.to {
            Some(a) => Some(a@),
            None => None,
        }
    }
}

/// What `rlp::decode::<ethers::types::Transaction>` makes of `data`:
/// nothing when the bytes are no transaction, otherwise the transaction's
/// recipient (absent for a contract creation).
pub uninterp spec fn rlp_transaction_recipient(data: Seq<u8>) -> Option<Option<Seq<u8>>>;

#[verifier::external_type_specification]
#[verifier::external_body]
pub struct ExDecoderError(ethers::utils::rlp::DecoderError);

/// `rlp::decode::<ethers::types::Transaction>`: succeeds exactly when
/// `rlp_transaction_recipient(data)` names a transaction, and then yields
/// that transaction's recipient. What the RLP and typed-envelope decoding
/// accepts is left to that name.
#[verifier::external_body]
fn rlp_decode_transaction(data: &[u8]) -> (r: Result<Transaction, ethers::utils::rlp::DecoderError>)
    ensures
        r is Ok <==> rlp_transaction_recipient(data@) is Some,
        r matches Ok(tx) ==> rlp_transaction_recipient(data@) == Some(tx@),
{
    ethers::utils::rlp::decode::<ethers::types::Transaction>(data).map(
        |tx| Transaction { to: tx.to.map(|a| Address(a.0)) },
    )
}

/// The RLP bytes carried by a raw transaction text: the hex digits after
/// its first two bytes, or nothing when they are not hex.
pub open spec fn raw_transaction_payload(raw_tx: Seq<char>) -> Option<Seq<u8>> {
    let bytes = encode_utf8(raw_tx);
    if bytes.len() >= 2 && is_char_boundary(bytes, 2) && hex_decodable(bytes.skip(2)) {
        Some(hex_decoded(bytes.skip(2)))
    } else {
        None
    }
}

/// The transaction that a raw transaction text encodes, by its recipient.
pub open spec fn raw_transaction(raw_tx: Seq<char>) -> Option<Option<Seq<u8>>> {
    match raw_transaction_payload(raw_tx) {
        Some(payload) => rlp_transaction_recipient(payload),
        None => None,
    }
}

/// Decodes a raw transaction: the text after the first two bytes (the `0x`)
/// is hex of the transaction's RLP encoding.
pub fn decode_transaction(raw_tx: &str) -> (tx: Transaction)
    requires
        raw_transaction(raw_tx@) is Some,
    ensures
        raw_transaction(raw_tx@) == Some(tx@),
{
    let (_, raw_tx_no_prefix) = raw_tx.split_at(2);
    assert(raw_tx_no_prefix.spec_bytes() =~= raw_tx.spec_bytes().skip(2));
    let rlp_data = hex_decode(raw_tx_no_prefix.as_bytes()).unwrap();
    rlp_decode_transaction(rlp_data.as_slice()).unwrap()
}

/// `decode_transaction` where the text decodes, nothing where it does not.
pub fn checked_decode_transaction(raw_tx: &str) -> (tx: Option<Transaction>)
    ensures
        tx is Some <==> raw_transaction(raw_tx@) is Some,
        tx matches Some(t) ==> raw_transaction(raw_tx@) == Some(t@),
{
    if raw_tx.as_bytes().len() < 2 || !raw_tx.is_char_boundary(2) {
        return None;
    }
    let (_, raw_tx_no_prefix) = raw_tx.split_at(2);
    assert(raw_tx_no_prefix.spec_bytes() =~= raw_tx.spec_bytes().skip(2));
    match hex_decode(raw_tx_no_prefix.as_bytes()) {
        Err(_) => None,
        Ok(rlp_data) => match rlp_decode_transaction(rlp_data.as_slice()) {
            Err(_) => None,
            Ok(_) => Some(decode_transaction(raw_tx)),
        },
    }
}

/// Whenever the text after the first two bytes of a raw transaction is hex,
/// the transaction is whatever RLP decoding makes of the bytes that hex
/// stands for, whatever those bytes are (typed envelopes included).
pub proof fn lemma_raw_transaction_is_rlp_of_hex(raw_tx: Seq<char>)
    requires
        encode_utf8(raw_tx).len() >= 2,
        hex_decodable(encode_utf8(raw_tx).skip(2)),
    ensures
        raw_transaction(raw_tx) == rlp_transaction_recipient(
            hex_decoded(encode_utf8(raw_tx).skip(2)),
        ),
{
    let bytes = encode_utf8(raw_tx);
    encode_utf8_valid_utf8(raw_tx);
    if bytes.len() == 2 {
        is_char_boundary_start_end_of_seq(bytes);
    } else {
        assert(bytes.skip(2)[0] == bytes[2]);
        assert(is_hex_digit(bytes.skip(2)[0]));
        is_char_boundary_iff_not_is_continuation_byte(bytes, 2);
    }
    assert(is_char_boundary(bytes, 2));
}

/// A raw transaction text shorter than two bytes, or whose text after the
/// first two bytes is not hex, encodes no transaction.
pub proof fn lemma_raw_transaction_without_hex_is_none(raw_tx: Seq<char>)
    ensures
        encode_utf8(raw_tx).len() < 2 ==> raw_transaction(raw_tx) is None,
        encode_utf8(raw_tx).len() >= 2 && !hex_decodable(encode_utf8(raw_tx).skip(2))
            ==> raw_transaction(raw_tx) is None,
{
}

} // verus!
