use crate::transaction::{TXInputView, TXOutputView, Transaction, TransactionView};
use vstd::prelude::*;
use vstd::utf8::encode_utf8;

verus! {

/// The `width` low bytes of a number, the lowest first.
pub open spec fn low_bytes(value: nat, width: nat) -> Seq<u8>
    decreases width,
{
    if width == 0 {
        Seq::empty()
    } else {
        seq![(value % 256) as u8] + low_bytes(value / 256, (width - 1) as nat)
    }
}

/// A length as it stands before what it counts: eight bytes.
pub open spec fn length_encoding(len: nat) -> Seq<u8> {
    low_bytes(len, 8)
}

/// A signed number of 32 bits in four bytes, a negative one in two's
/// complement.
pub open spec fn i32_encoding(value: i32) -> Seq<u8> {
    if value < 0 {
        low_bytes((value + 0x1_0000_0000) as nat, 4)
    } else {
        low_bytes(value as nat, 4)
    }
}

/// A byte string: its length, then its bytes.
pub open spec fn bytes_encoding(bytes: Seq<u8>) -> Seq<u8> {
    length_encoding(bytes.len()) + bytes
}

/// A text: the length of its UTF-8 form, then that form.
pub open spec fn text_encoding(text: Seq<char>) -> Seq<u8> {
    bytes_encoding(encode_utf8(text))
}

/// An input: its four fields in the order in which they are declared.
pub open spec fn input_encoding(input: TXInputView) -> Seq<u8> {
    text_encoding(input.txid) + i32_encoding(input.vout) + bytes_encoding(input.signature)
        + bytes_encoding(input.pub_key)
}

/// An output: its two fields in the order in which they are declared.
pub open spec fn output_encoding(output: TXOutputView) -> Seq<u8> {
    i32_encoding(output.value) + bytes_encoding(output.pub_key_hash)
}

/// The first `upto` inputs, one after the other.
pub open spec fn inputs_encoding(inputs: Seq<TXInputView>, upto: int) -> Seq<u8>
    decreases upto,
{
    if upto <= 0 || upto > inputs.len() {
        Seq::empty()
    } else {
        inputs_encoding(inputs, upto - 1) + input_encoding(inputs[upto - 1])
    }
}

/// The first `upto` outputs, one after the other.
pub open spec fn outputs_encoding(outputs: Seq<TXOutputView>, upto: int) -> Seq<u8>
    decreases upto,
{
    if upto <= 0 || upto > outputs.len() {
        Seq::empty()
    } else {
        outputs_encoding(outputs, upto - 1) + output_encoding(outputs[upto - 1])
    }
}

/// The bytes of a transaction: its id, the number of its inputs and the
/// inputs, the number of its outputs and the outputs.
pub open spec fn transaction_encoding(tx: TransactionView) -> Seq<u8> {
    text_encoding(tx.id) + length_encoding(tx.vin.len()) + inputs_encoding(
        tx.vin,
        tx.vin.len() as int,
    ) + length_encoding(tx.vout.len()) + outputs_encoding(tx.vout, tx.vout.len() as int)
}

/// The bytes that a block's hash is taken of: the hash of the block
/// before, the root of the transactions' tree, the timestamp in sixteen
/// bytes, the target in eight and the nonce in four.
pub open spec fn header_encoding(
    prev_block_hash: Seq<char>,
    merkle_root: Seq<u8>,
    timestamp: u128,
    target: usize,
    nonce: i32,
) -> Seq<u8> {
    text_encoding(prev_block_hash) + bytes_encoding(merkle_root) + low_bytes(timestamp as nat, 16)
        + low_bytes(target as nat, 8) + i32_encoding(nonce)
}

/// Calls `bincode::serialize` on the transaction's fields as nested tuples,
/// which `bincode` writes as it writes the fields of a struct. It writes
/// into a growing vector without a size limit, and every sequence here
/// knows its length, so the call does not fail. Trusted: the bytes are
/// those of `bincode`'s default format, in which an integer stands in the
/// bytes of its width, the lowest first, a text or a sequence behind its
/// length as a number of 64 bits, and the members of a tuple one after the
/// other.
#[verifier::external_body]
pub(crate) fn encode_transaction(tx: &Transaction) -> (bytes: Vec<u8>)
    ensures
        bytes@ == transaction_encoding(tx@),
{
    let vin: Vec<(&String, i32, &Vec<u8>, &Vec<u8>)> =
        tx.vin.iter().map(|i| (&i.txid, i.vout, &i.signature, &i.pub_key)).collect();
    let vout: Vec<(i32, &Vec<u8>)> = tx.vout.iter().map(|o| (o.value, &o.pub_key_hash)).collect();
    bincode::serialize(&(&tx.id, vin, vout)).unwrap()
}

/// Calls `bincode::serialize` on the tuple of the five header fields; as
/// above the call does not fail. Trusted: the bytes are those of the same
/// format; the target is written as a number of 64 bits.
#[verifier::external_body]
pub(crate) fn encode_header(
    prev_block_hash: &String,
    merkle_root: &Vec<u8>,
    timestamp: u128,
    target: usize,
    nonce: i32,
) -> (bytes: Vec<u8>)
    ensures
        bytes@ == header_encoding(prev_block_hash@, merkle_root@, timestamp, target, nonce),
{
    bincode::serialize(&(prev_block_hash, merkle_root, timestamp, target, nonce)).unwrap()
}

} // verus!
