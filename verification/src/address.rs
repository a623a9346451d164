use bitcoincash_addr::Address;
use vstd::prelude::*;
use vstd::utf8::is_ascii_chars;

verus! {

/// The two ways in which an address is written.
#[derive(Clone, Copy, Debug, PartialEq, Eq, Structural)]
pub enum Scheme {
    Base58,
    CashAddr,
}

/// What the body of an address is the hash of.
#[derive(Clone, Copy, Debug, PartialEq, Eq, Structural)]
pub enum HashType {
    Key,
    Script,
}

/// The network that an address belongs to.
#[derive(Clone, Copy, Debug, PartialEq, Eq, Structural)]
pub enum Network {
    Main,
    Test,
    Regtest,
}

/// The body of the address that a string without a prefix decodes to in
/// Base58, or `None` where it does not decode.
pub uninterp spec fn base58_body_of(address: Seq<char>) -> Option<Seq<u8>>;

/// The text of the address with the given body, scheme, hash type and
/// network, or `None` where the scheme has no address for such a body.
pub uninterp spec fn address_text_of(
    body: Seq<u8>,
    scheme: Scheme,
    hash_type: HashType,
    network: Network,
) -> Option<Seq<char>>;

/// What an address stands for: the body that Base58 decoding recovers from
/// an ASCII string without a `:`, and nothing for any other string.
pub open spec fn address_body_of(address: Seq<char>) -> Option<Seq<u8>> {
    if is_ascii_chars(address) && !address.contains(':') {
        base58_body_of(address)
    } else {
        None
    }
}

/// Calls `bitcoincash_addr::Address::decode` and keeps the body. On a string
/// without a `:` that function goes on to the Base58 codec, which reads
/// bytes below 128 only. Trusted: whether the string decodes, and to which
/// body, is a function of the string alone.
#[verifier::external_body]
pub(crate) fn decode_base58(address: &str) -> (body: Option<Vec<u8>>)
    requires
        is_ascii_chars(address@),
        !address@.contains(':'),
    ensures
        match body {
            Some(b) => base58_body_of(address@) == Some(b@),
            None => base58_body_of(address@) is None,
        },
{
    match Address::decode(address) {
        Ok(decoded) => Some(decoded.body),
        Err(_) => None,
    }
}

/// Calls `bitcoincash_addr::Address::new` and `Address::encode`. Trusted:
/// whether there is a text, and which, is a function of the four values
/// alone; the Base58 scheme has a text for every body; and the Base58 text
/// of a script hash of 20 bytes on the main network is ASCII, holds no `:`,
/// and decodes to that body.
#[verifier::external_body]
pub(crate) fn encode_address(
    body: &[u8],
    scheme: Scheme,
    hash_type: HashType,
    network: Network,
) -> (text: Option<String>)
    ensures
        match text {
            Some(t) => address_text_of(body@, scheme, hash_type, network) == Some(t@),
            None => address_text_of(body@, scheme, hash_type, network) is None,
        },
        scheme is Base58 ==> text is Some,
        body@.len() == 20 && scheme is Base58 && hash_type is Script && network is Main
            ==> text is Some && address_body_of(text->0@) == Some(body@),
{
    let scheme = match scheme {
        Scheme::Base58 => bitcoincash_addr::Scheme::Base58,
        Scheme::CashAddr => bitcoincash_addr::Scheme::CashAddr,
    };
    let hash_type = match hash_type {
        HashType::Key => bitcoincash_addr::HashType::Key,
        HashType::Script => bitcoincash_addr::HashType::Script,
    };
    let network = match network {
        Network::Main => bitcoincash_addr::Network::Main,
        Network::Test => bitcoincash_addr::Network::Test,
        Network::Regtest => bitcoincash_addr::Network::Regtest,
    };
    Address::new(body.to_vec(), scheme, hash_type, network).encode().ok()
}

/// The body of a Base58 address, or `None` where the string is no such
/// address.
pub fn address_body(address: &str) -> (body: Option<Vec<u8>>)
    ensures
        match body {
            Some(b) => address_body_of(address@) == Some(b@),
            None => address_body_of(address@) is None,
        },
{
    if !address.is_ascii() {
        return None;
    }
    let bytes = address.as_bytes();
    let mut i: usize = 0;
    proof {
        vstd::string::is_ascii_spec_bytes(address);
    }
    while i < bytes.len()
        invariant
            i <= bytes@.len(),
            bytes@.len() == address@.len(),
            forall|k: int| 0 <= k < bytes@.len() ==> bytes@[k] == address@[k] as u8,
            is_ascii_chars(address@),
            forall|k: int| 0 <= k < i ==> address@[k] != ':',
        decreases bytes@.len() - i,
    {
        if bytes[i] == 58u8 {
            return None;
        }
        proof {
            lemma_ascii_colon(address@[i as int]);
        }
        i += 1;
    }
    decode_base58(address)
}

/// Among ASCII characters only `:` has the code 58.
proof fn lemma_ascii_colon(c: char)
    requires
        (c as u32) < 128,
    ensures
        (c as u8 == 58u8) <==> c == ':',
{
}

} // verus!
