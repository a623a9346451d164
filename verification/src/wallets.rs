use crate::address::{
    address_body_of, address_text_of, encode_address, HashType, Network, Scheme,
};
use crate::digest::{ripemd160, ripemd160_of, sha256, sha256_of};
use crate::ed25519;
use crate::error::Error;
use crate::random::random_bytes;
use crate::transaction::same_text;
use vstd::prelude::*;

verus! {

/// The hash that locks an output to a public key: RIPEMD-160 of SHA-256 of
/// the key.
pub open spec fn pub_key_hash_of(pub_key: Seq<u8>) -> Seq<u8> {
    ripemd160_of(sha256_of(pub_key))
}

/// The address of a public key: the text, in the Base58 scheme, of the
/// hash of the key as a script hash on the main network.
pub open spec fn address_of(pub_key: Seq<u8>) -> Seq<char> {
    address_text_of(pub_key_hash_of(pub_key), Scheme::Base58, HashType::Script, Network::Main)->0
}

/// Replaces a public key by its 20-byte hash.
pub fn hash_pub_key(pub_key: &mut Vec<u8>)
    ensures
        final(pub_key)@ == pub_key_hash_of(old(pub_key)@),
        final(pub_key)@.len() == 20,
{
    let inner = sha256(pub_key.as_slice());
    *pub_key = ripemd160(inner.as_slice());
}

/// An ed25519 key pair.
#[derive(Debug, PartialEq)]
pub struct Wallet {
    pub secret_key: Vec<u8>,
    pub public_key: Vec<u8>,
}

/// A wallet as the contracts see it.
pub struct WalletView {
    pub secret_key: Seq<u8>,
    pub public_key: Seq<u8>,
}

impl View for Wallet {
    type V = WalletView;

    open spec fn view(&self) -> WalletView {
        WalletView { secret_key: self.secret_key@, public_key: self.public_key@ }
    }
}

impl Clone for Wallet {
    fn clone(&self) -> (copy: Self)
        ensures
            copy@ == self@,
    {
        Wallet { secret_key: self.secret_key.clone(), public_key: self.public_key.clone() }
    }
}

/// The part of a seed that the key pair is made of: its first 32 bytes,
/// which is all that ed25519 reads of a seed when it signs.
pub open spec fn seed_of(seed: Seq<u8>) -> Seq<u8> {
    if seed.len() > 32 {
        seed.subrange(0, 32)
    } else {
        seed
    }
}

/// The wallet that a seed gives.
pub open spec fn wallet_of(seed: Seq<u8>) -> WalletView {
    WalletView {
        secret_key: ed25519::keypair_of(seed_of(seed)).0,
        public_key: ed25519::keypair_of(seed_of(seed)).1,
    }
}

impl Wallet {
    /// A wallet from 64 fresh random bytes, of which the first 32 seed the
    /// key pair; `Random` where no random bytes are to be had.
    pub fn new() -> (made: Result<Self, Error>)
        ensures
            match made {
                Ok(wallet) => (exists|seed: Seq<u8>|
                    seed.len() == 64 && wallet@ == #[trigger] wallet_of(seed))
                    && wallet.secret_key@.len() == 64 && wallet.public_key@.len() == 32,
                Err(e) => e == Error::Random,
            },
    {
        match random_bytes(64) {
            Some(seed) => Ok(Wallet::from_seed(seed.as_slice())),
            None => Err(Error::Random),
        }
    }

    /// The wallet that a seed gives. The key pair is made of the first 32
    /// bytes of the seed.
    pub fn from_seed(seed: &[u8]) -> (wallet: Self)
        ensures
            wallet@ == wallet_of(seed@),
            wallet.secret_key@.len() == 64,
            wallet.public_key@.len() == 32,
    {
        let mut head: Vec<u8> = Vec::new();
        let mut i: usize = 0;
        while i < seed.len() && i < 32
            invariant
                i <= seed@.len(),
                i <= 32,
                head@ == seed@.subrange(0, i as int),
            decreases seed@.len() - i,
        {
            head.push(seed[i]);
            i += 1;
        }
        assert(head@ =~= seed_of(seed@));
        let (secret_key, public_key) = ed25519::keypair(head.as_slice());
        Wallet { secret_key, public_key }
    }

    /// The wallet's address. Decoding it gives the hash of the public key
    /// back.
    pub fn get_address(&self) -> (address: String)
        ensures
            address@ == address_of(self.public_key@),
            address_body_of(address@) == Some(pub_key_hash_of(self.public_key@)),
    {
        let mut hash = self.public_key.clone();
        hash_pub_key(&mut hash);
        match encode_address(hash.as_slice(), Scheme::Base58, HashType::Script, Network::Main) {
            Some(address) => address,
            None => String::new(),
        }
    }
}

/// A wallet under its address.
#[derive(Debug)]
pub struct WalletEntry {
    pub address: String,
    pub wallet: Wallet,
}

/// A keystore: wallets by address, in the order in which the addresses
/// came.
#[derive(Debug)]
pub struct Wallets {
    wallets: Vec<WalletEntry>,
}

/// The position of an address among the entries, from `from` on.
pub open spec fn entry_from(entries: Seq<(Seq<char>, WalletView)>, address: Seq<char>, from: int) -> Option<
    int,
>
    decreases entries.len() - from,
{
    if from < 0 || from >= entries.len() {
        None
    } else if entries[from].0 == address {
        Some(from)
    } else {
        entry_from(entries, address, from + 1)
    }
}

/// The wallet that the entries hold under an address.
pub open spec fn wallet_at(entries: Seq<(Seq<char>, WalletView)>, address: Seq<char>) -> Option<
    WalletView,
> {
    match entry_from(entries, address, 0) {
        Some(k) => Some(entries[k].1),
        None => None,
    }
}

/// The entries after `wallet` is put under `address`: in the place of the
/// wallet that was there, or else at the end.
pub open spec fn with_wallet(
    entries: Seq<(Seq<char>, WalletView)>,
    address: Seq<char>,
    wallet: WalletView,
) -> Seq<(Seq<char>, WalletView)> {
    match entry_from(entries, address, 0) {
        Some(k) => entries.update(k, (address, wallet)),
        None => entries.push((address, wallet)),
    }
}

/// Whether no address occurs twice among the entries.
pub open spec fn distinct_addresses(entries: Seq<(Seq<char>, WalletView)>) -> bool {
    forall|i: int, j: int|
        0 <= i < j < entries.len() ==> (#[trigger] entries[i]).0 != (#[trigger] entries[j]).0
}

/// A position given by `entry_from` lies in range and holds the address,
/// and no entry between `from` and it does.
pub proof fn lemma_entry_from(entries: Seq<(Seq<char>, WalletView)>, address: Seq<char>, from: int)
    requires
        0 <= from,
    ensures
        match entry_from(entries, address, from) {
            Some(k) => from <= k < entries.len() && entries[k].0 == address && forall|i: int|
                from <= i < k ==> (#[trigger] entries[i]).0 != address,
            None => forall|i: int| from <= i < entries.len() ==> (#[trigger] entries[i]).0 != address,
        },
    decreases entries.len() - from,
{
    if from < entries.len() && entries[from].0 != address {
        lemma_entry_from(entries, address, from + 1);
    }
}

/// Putting a wallet under an address leaves no address twice among the
/// entries, and the wallet is then the one that the address gives.
pub proof fn lemma_with_wallet(
    entries: Seq<(Seq<char>, WalletView)>,
    address: Seq<char>,
    wallet: WalletView,
)
    requires
        distinct_addresses(entries),
    ensures
        distinct_addresses(with_wallet(entries, address, wallet)),
        wallet_at(with_wallet(entries, address, wallet), address) == Some(wallet),
        forall|other: Seq<char>|
            other != address ==> wallet_at(with_wallet(entries, address, wallet), other)
                == wallet_at(entries, other),
{
    let after = with_wallet(entries, address, wallet);
    lemma_entry_from(entries, address, 0);
    lemma_entry_from(after, address, 0);
    match entry_from(entries, address, 0) {
        Some(k) => {
            assert(after[k].0 == address);
        },
        None => {
            assert(after[entries.len() as int].0 == address);
        },
    }
    assert forall|other: Seq<char>| other != address implies wallet_at(after, other) == wallet_at(
        entries,
        other,
    ) by {
        lemma_entry_from(entries, other, 0);
        lemma_entry_from(after, other, 0);
        match entry_from(entries, other, 0) {
            Some(m) => {
                assert(after[m] == entries[m]);
            },
            None => {},
        }
    }
}

/// What making a wallet of a seed does to a keystore: the wallet stands
/// under its address, which decodes to the hash of the wallet's public
/// key, and the keystore gives the wallet for that address.
pub open spec fn created(
    before: Seq<(Seq<char>, WalletView)>,
    seed: Seq<u8>,
    address: Seq<char>,
    after: Seq<(Seq<char>, WalletView)>,
) -> bool {
    let wallet = wallet_of(seed);
    &&& address == address_of(wallet.public_key)
    &&& address_body_of(address) == Some(pub_key_hash_of(wallet.public_key))
    &&& after == with_wallet(before, address, wallet)
    &&& wallet_at(after, address) == Some(wallet)
}

impl View for Wallets {
    type V = Seq<(Seq<char>, WalletView)>;

    closed spec fn view(&self) -> Seq<(Seq<char>, WalletView)> {
        Seq::new(self.wallets@.len(), |i: int| (self.wallets@[i].address@, self.wallets@[i].wallet@))
    }
}

impl Wallets {
    /// Whether no address occurs twice in the keystore.
    pub open spec fn wf(&self) -> bool {
        distinct_addresses(self@)
    }

    /// An empty keystore.
    pub fn new() -> (wallets: Wallets)
        ensures
            wallets.wf(),
            wallets@ == Seq::<(Seq<char>, WalletView)>::empty(),
    {
        let wallets = Wallets { wallets: Vec::new() };
        wallets
    }

    /// The position of an address among the entries.
    fn position(&self, address: &str) -> (found: Option<usize>)
        ensures
            match found {
                Some(k) => entry_from(self@, address@, 0) == Some(k as int) && k
                    < self.wallets@.len(),
                None => entry_from(self@, address@, 0) is None,
            },
    {
        let mut i: usize = 0;
        while i < self.wallets.len()
            invariant
                i <= self.wallets@.len(),
                self@.len() == self.wallets@.len(),
                entry_from(self@, address@, 0) == entry_from(self@, address@, i as int),
            decreases self.wallets@.len() - i,
        {
            if same_text(self.wallets[i].address.as_str(), address) {
                return Some(i);
            }
            i += 1;
        }
        None
    }

    /// Puts a wallet under an address, in the place of the wallet that was
    /// there, or else at the end.
    pub fn insert(&mut self, address: String, wallet: Wallet)
        requires
            old(self).wf(),
        ensures
            final(self).wf(),
            final(self)@ == with_wallet(old(self)@, address@, wallet@),
    {
        proof {
            lemma_with_wallet(self@, address@, wallet@);
        }
        match self.position(address.as_str()) {
            Some(k) => {
                self.wallets.set(k, WalletEntry { address, wallet });
            },
            None => {
                self.wallets.push(WalletEntry { address, wallet });
            },
        }
        assert(self@ =~= with_wallet(old(self)@, address@, wallet@));
    }

    /// Makes a new wallet, keeps it under its address and returns the
    /// address. The address decodes to the hash of the new public key, and
    /// the keystore gives the new wallet for it. Where no random bytes are
    /// to be had the keystore stays as it is.
    pub fn create_wallet(&mut self) -> (made: Result<String, Error>)
        requires
            old(self).wf(),
        ensures
            final(self).wf(),
            made matches Ok(address) ==> exists|seed: Seq<u8>|
                seed.len() == 64 && wallet_at(final(self)@, address@) == Some(
                    #[trigger] wallet_of(seed),
                ) && created(old(self)@, seed, address@, final(self)@),
            made matches Err(e) ==> e == Error::Random && final(self)@ == old(self)@,
    {
        let wallet = match Wallet::new() {
            Ok(wallet) => wallet,
            Err(e) => {
                return Err(e);
            },
        };
        let address = wallet.get_address();
        let ghost seed = choose|seed: Seq<u8>| seed.len() == 64 && wallet@ == #[trigger] wallet_of(seed);
        proof {
            lemma_with_wallet(self@, address@, wallet@);
        }
        self.insert(address.clone(), wallet);
        assert(seed.len() == 64 && created(old(self)@, seed, address@, self@));
        assert(wallet_at(self@, address@) == Some(wallet_of(seed)));
        Ok(address)
    }

    /// The wallet under an address.
    pub fn get_wallet(&self, address: &str) -> (wallet: Option<&Wallet>)
        ensures
            match wallet {
                Some(w) => wallet_at(self@, address@) == Some(w@),
                None => wallet_at(self@, address@) is None,
            },
    {
        match self.position(address) {
            Some(k) => Some(&self.wallets[k].wallet),
            None => None,
        }
    }

    /// The addresses, in the order in which they came.
    pub fn get_all_addresses(&self) -> (addresses: Vec<String>)
        ensures
            addresses@.len() == self@.len(),
            forall|i: int| 0 <= i < self@.len() ==> addresses@[i]@ == self@[i].0,
    {
        let mut addresses: Vec<String> = Vec::new();
        let mut i: usize = 0;
        while i < self.wallets.len()
            invariant
                i <= self.wallets@.len(),
                self@.len() == self.wallets@.len(),
                addresses@.len() == i,
                forall|k: int| 0 <= k < i ==> addresses@[k]@ == self@[k].0,
            decreases self.wallets@.len() - i,
        {
            addresses.push(self.wallets[i].address.clone());
            i += 1;
        }
        addresses
    }
}

} // verus!
