//! Wallet generation: a random mnemonic, its seed, the account key at
//! `m/44'/60'/0'/0`, and a batch of addresses at indices `0..batch_size`.

use vstd::prelude::*;
use crate::bip32::{
    address_path_key, ckd, ckd_defined, eth_account_parent, lemma_address_key_on_full_path,
    try_derive_eth_account_parent, try_derive_normal, KeyModel, HARDENED_BIT,
};
use crate::matcher::{all_lower_hex, lemma_hex_lower_shape};
use crate::primitives::{
    bip39_phrase_of_entropy, bip39_seed_spec, generate_mnemonic_entropy, is_phrase_of_words,
    is_valid_secret, keccak256, mnemonic_from_entropy,
    keccak256_spec, public_key_uncompressed, secp256k1_pubkey_uncompressed,
};
use crate::text::{hex_encode, hex_lower};

verus! {

/// Words in a generated mnemonic.
pub const MNEMONIC_WORDS: usize = 12;

/// Wallet data as text, made once an address matches.
pub struct WalletInfo {
    pub mnemonic: String,
    /// Lowercase hex, no `0x` prefix.
    pub private_key: String,
    /// Lowercase hex, no `0x` prefix.
    pub address: String,
    pub address_index: u32,
}

/// Wallet data as raw bytes, as the search loop sees it.
pub struct RawWallet {
    pub mnemonic: String,
    pub private_key: [u8; 32],
    pub address: [u8; 20],
    pub address_index: u32,
}

/// The Ethereum address of a secret key: the last 20 bytes of the
/// Keccak-256 hash of the uncompressed public key without its tag byte.
pub open spec fn eth_address(secret: Seq<u8>) -> Seq<u8> {
    keccak256_spec(secp256k1_pubkey_uncompressed(secret).drop_first()).subrange(12, 32)
}

/// `w` is the wallet at address index `index` below the account key `parent`.
pub open spec fn wallet_at(w: RawWallet, phrase: Seq<char>, parent: KeyModel, index: u32) -> bool {
    &&& w.mnemonic@ == phrase
    &&& w.address_index == index
    &&& w.private_key@ == ckd(parent, index).secret
    &&& w.address@ == eth_address(w.private_key@)
}

/// Every address index below `n` has a defined key under `parent`.
pub open spec fn batch_defined(parent: KeyModel, n: u32) -> bool {
    forall|i: u32| i < n ==> #[trigger] ckd_defined(parent, i)
}

/// The batch of a seed is defined: the account key and every index below `n`.
pub open spec fn seed_batch_defined(seed: Seq<u8>, n: u32) -> bool {
    &&& eth_account_parent(seed) is Some
    &&& batch_defined(eth_account_parent(seed).unwrap(), n)
}

/// `v` holds the wallets at indices `0..v.len()` of the account key `parent`.
pub open spec fn is_batch(v: Seq<RawWallet>, phrase: Seq<char>, parent: KeyModel) -> bool {
    forall|i: int| 0 <= i < v.len() ==> #[trigger] wallet_at(v[i], phrase, parent, i as u32)
}

/// Law: every wallet of a batch carries the batch's mnemonic, its own
/// position as address index, the child key of that index and the address
/// of that key; the wallets of different positions have different indices.
pub proof fn lemma_batch_members(v: Seq<RawWallet>, phrase: Seq<char>, parent: KeyModel)
    requires
        is_batch(v, phrase, parent),
        v.len() <= HARDENED_BIT,
    ensures
        forall|i: int| 0 <= i < v.len() ==> (#[trigger] v[i]).mnemonic@ == phrase,
        forall|i: int| 0 <= i < v.len() ==> (#[trigger] v[i]).address_index as int == i,
        forall|i: int| 0 <= i < v.len() ==> (#[trigger] v[i]).private_key@ == ckd(parent, i as u32).secret,
        forall|i: int| 0 <= i < v.len() ==> (#[trigger] v[i]).address@ == eth_address(v[i].private_key@),
        forall|i: int, j: int| 0 <= i < j < v.len() ==> v[i].address_index != v[j].address_index,
{
    assert forall|i: int| 0 <= i < v.len() implies {
        &&& (#[trigger] v[i]).mnemonic@ == phrase
        &&& v[i].address_index as int == i
        &&& v[i].private_key@ == ckd(parent, i as u32).secret
        &&& v[i].address@ == eth_address(v[i].private_key@)
    } by {
        assert(wallet_at(v[i], phrase, parent, i as u32));
    }
}

/// `w` is the wallet whose key is the key at `m/44'/60'/0'/0/index` of `seed`.
pub open spec fn wallet_on_path(w: RawWallet, seed: Seq<u8>, index: u32) -> bool {
    &&& address_path_key(seed, index) is Some
    &&& w.private_key@ == address_path_key(seed, index).unwrap().secret
    &&& w.address@ == eth_address(w.private_key@)
    &&& w.address_index == index
}

/// Every wallet of `v` is the one at the path of its position.
pub open spec fn batch_on_path(v: Seq<RawWallet>, seed: Seq<u8>) -> bool {
    forall|i: int| 0 <= i < v.len() ==> #[trigger] wallet_on_path(v[i], seed, i as u32)
}

/// Law: the wallets at indices `0..n` below the account key of a seed are
/// the wallets at the paths `m/44'/60'/0'/0/i`.
pub proof fn lemma_batch_on_full_path(v: Seq<RawWallet>, phrase: Seq<char>, seed: Seq<u8>)
    requires
        v.len() <= HARDENED_BIT,
        seed_batch_defined(seed, v.len() as u32),
        is_batch(v, phrase, eth_account_parent(seed).unwrap()),
    ensures
        batch_on_path(v, seed),
{
    let parent = eth_account_parent(seed).unwrap();
    assert forall|i: int| 0 <= i < v.len() implies #[trigger] wallet_on_path(v[i], seed, i as u32) by {
        assert(wallet_at(v[i], phrase, parent, i as u32));
        assert(ckd_defined(parent, i as u32));
        lemma_address_key_on_full_path(seed, i as u32);
    }
}

/// Bytes of entropy behind a generated mnemonic.
pub const ENTROPY_BYTES: usize = 16;

/// The seed (empty passphrase) of the mnemonic of an entropy.
pub open spec fn entropy_seed(entropy: Seq<u8>) -> Seq<u8> {
    bip39_seed_spec(bip39_phrase_of_entropy(entropy), Seq::empty())
}

/// The batch of `n` wallets of an entropy is defined.
pub open spec fn entropy_batch_defined(entropy: Seq<u8>, n: u32) -> bool {
    seed_batch_defined(entropy_seed(entropy), n)
}

/// `v` is the batch of `n` wallets of the mnemonic of `entropy`: wallet `i`
/// carries the mnemonic and is the key at `m/44'/60'/0'/0/i` of its seed.
pub open spec fn is_entropy_batch(entropy: Seq<u8>, n: u32, v: Seq<RawWallet>) -> bool {
    let phrase = bip39_phrase_of_entropy(entropy);
    &&& v.len() == n
    &&& is_batch(v, phrase, eth_account_parent(entropy_seed(entropy)).unwrap())
    &&& batch_on_path(v, entropy_seed(entropy))
}

/// Law: every wallet of the batch of an entropy carries the mnemonic of
/// that entropy and its own position as address index.
pub proof fn lemma_entropy_batch_members(entropy: Seq<u8>, n: u32, v: Seq<RawWallet>)
    requires
        is_entropy_batch(entropy, n, v),
        n <= HARDENED_BIT,
    ensures
        v.len() == n,
        forall|i: int| 0 <= i < v.len() ==> (#[trigger] v[i]).mnemonic@ == bip39_phrase_of_entropy(entropy),
        forall|i: int| 0 <= i < v.len() ==> (#[trigger] v[i]).address_index as int == i,
{
    lemma_batch_members(
        v,
        bip39_phrase_of_entropy(entropy),
        eth_account_parent(entropy_seed(entropy)).unwrap(),
    );
}

pub open spec fn derivation_error_message() -> Seq<char> {
    "Key derivation error: invalid child key"@
}

/// The text form of a raw wallet.
pub open spec fn info_of(w: RawWallet, info: WalletInfo) -> bool {
    &&& info.mnemonic@ == w.mnemonic@
    &&& info.private_key@ == hex_lower(w.private_key@)
    &&& info.address@ == hex_lower(w.address@)
    &&& info.address_index == w.address_index
}

impl RawWallet {
    /// Text form: hex private key and address (lowercase, no prefix).
    pub fn to_wallet_info(&self) -> (r: WalletInfo)
        ensures
            info_of(*self, r),
    {
        WalletInfo {
            mnemonic: self.mnemonic.clone(),
            private_key: hex_encode(&self.private_key),
            address: hex_encode(&self.address),
            address_index: self.address_index,
        }
    }
}

/// The 20-byte Ethereum address of a secret key.
pub fn secret_key_to_address(key: &[u8; 32]) -> (r: [u8; 20])
    requires
        is_valid_secret(key@),
    ensures
        r@ == eth_address(key@),
{
    let public_key = public_key_uncompressed(key);
    let hash = keccak256(&public_key[1..65]);
    assert(public_key@.subrange(1, 65) =~= public_key@.drop_first());
    let mut address = [0u8; 20];
    for i in 0..20
        invariant
            forall|j: int| 0 <= j < i ==> #[trigger] address@[j] == hash@[12 + j],
    {
        address[i] = hash[12 + i];
    }
    assert(address@ =~= hash@.subrange(12, 32));
    address
}

/// The wallets at address indices `0..batch_size` of a seed, all labelled
/// with `phrase`. Fails, with the derivation message, where the account key
/// or the key of some index is undefined.
pub fn batch_from_seed(phrase: &String, seed: &[u8], batch_size: u32) -> (r: Result<Vec<RawWallet>, String>)
    requires
        batch_size <= HARDENED_BIT,
    ensures
        r is Ok <==> seed_batch_defined(seed@, batch_size),
        r matches Ok(v) ==> v@.len() == batch_size
            && is_batch(v@, phrase@, eth_account_parent(seed@).unwrap())
            && batch_on_path(v@, seed@)
            && forall|i: int| 0 <= i < v@.len() ==> (#[trigger] v@[i]).mnemonic@ == phrase@,
        r matches Err(e) ==> e@ == derivation_error_message(),
{
    let parent = match try_derive_eth_account_parent(seed) {
        Some(p) => p,
        None => return Err(String::from_str("Key derivation error: invalid child key")),
    };
    let ghost pm = parent@;
    let mut results: Vec<RawWallet> = Vec::new();
    let mut i: u32 = 0;
    while i < batch_size
        invariant
            batch_size <= HARDENED_BIT,
            parent.wf(),
            eth_account_parent(seed@) == Some(pm),
            pm == parent@,
            i <= batch_size,
            results@.len() == i,
            is_batch(results@, phrase@, pm),
            batch_defined(pm, i),
        decreases batch_size - i,
    {
        let child_key = match try_derive_normal(&parent, i) {
            Some(child) => child.secret_key,
            None => {
                assert(!batch_defined(pm, batch_size)) by {
                    assert(!ckd_defined(pm, i));
                }
                return Err(String::from_str("Key derivation error: invalid child key"));
            },
        };
        let address = secret_key_to_address(&child_key);
        let w = RawWallet {
            mnemonic: phrase.clone(),
            private_key: child_key,
            address,
            address_index: i,
        };
        assert(wallet_at(w, phrase@, pm, i));
        results.push(w);
        proof {
            assert forall|j: u32| j < i + 1 implies #[trigger] ckd_defined(pm, j) by {
                if j < i {
                    assert(ckd_defined(pm, j));
                }
            }
            assert forall|j: int| 0 <= j < results@.len() implies #[trigger] wallet_at(
                results@[j],
                phrase@,
                pm,
                j as u32,
            ) by {
                if j < i {
                    assert(wallet_at(results@[j], phrase@, pm, j as u32));
                }
            }
        }
        i = i + 1;
    }
    proof {
        lemma_batch_on_full_path(results@, phrase@, seed@);
        lemma_batch_members(results@, phrase@, pm);
    }
    Ok(results)
}

/// The batch of wallets at `m/44'/60'/0'/0/i`, `i` in `0..batch_size`, of
/// the 12-word mnemonic of a 16-byte entropy (empty passphrase). Fails,
/// with the derivation message, where a derived key is undefined.
pub fn batch_from_entropy(entropy: &[u8], batch_size: u32) -> (r: Result<Vec<RawWallet>, String>)
    requires
        entropy@.len() == ENTROPY_BYTES,
        batch_size <= HARDENED_BIT,
    ensures
        r is Ok <==> entropy_batch_defined(entropy@, batch_size),
        r matches Ok(v) ==> is_entropy_batch(entropy@, batch_size, v@)
            && is_phrase_of_words(bip39_phrase_of_entropy(entropy@), MNEMONIC_WORDS as nat),
        r matches Err(e) ==> e@ == derivation_error_message(),
{
    let passphrase = "";
    proof {
        reveal_strlit("");
    }
    let (phrase, seed) = match mnemonic_from_entropy(entropy, passphrase) {
        Ok(generated) => generated,
        Err(_) => unreached(),
    };
    assert(passphrase@ =~= Seq::<char>::empty());
    batch_from_seed(&phrase, &seed, batch_size)
}

/// A batch of wallets from one fresh 12-word mnemonic (16 bytes of entropy
/// from the thread's RNG): the wallets at the paths `m/44'/60'/0'/0/i` for
/// `i` in `0..batch_size`, all sharing the mnemonic. The seed is computed
/// once for the whole batch. It fails only where a derived key is
/// undefined for the entropy drawn.
pub fn generate_batch(batch_size: u32) -> (r: Result<Vec<RawWallet>, String>)
    requires
        batch_size <= HARDENED_BIT,
    ensures
        r matches Ok(v) ==> exists|entropy: Seq<u8>|
            entropy.len() == ENTROPY_BYTES && #[trigger] is_entropy_batch(entropy, batch_size, v@)
                && entropy_batch_defined(entropy, batch_size)
                && is_phrase_of_words(bip39_phrase_of_entropy(entropy), MNEMONIC_WORDS as nat),
        r matches Err(e) ==> e@ == derivation_error_message() && exists|entropy: Seq<u8>|
            entropy.len() == ENTROPY_BYTES && !#[trigger] entropy_batch_defined(entropy, batch_size),
{
    let entropy = match generate_mnemonic_entropy(MNEMONIC_WORDS) {
        Ok(e) => e,
        Err(_) => unreached(),
    };
    let r = batch_from_entropy(entropy.as_slice(), batch_size);
    proof {
        if r is Ok {
            assert(is_entropy_batch(entropy@, batch_size, (r->Ok_0)@));
        } else {
            assert(!entropy_batch_defined(entropy@, batch_size));
        }
    }
    r
}

/// A single fresh wallet: the key at `m/44'/60'/0'/0/0` of a fresh 12-word
/// mnemonic, as text.
pub fn generate_wallet() -> (r: Result<WalletInfo, String>)
    ensures
        r matches Ok(w) ==> {
            let seed = bip39_seed_spec(w.mnemonic@, Seq::empty());
            let key = address_path_key(seed, 0).unwrap().secret;
            &&& exists|entropy: Seq<u8>|
                entropy.len() == ENTROPY_BYTES && #[trigger] bip39_phrase_of_entropy(entropy) == w.mnemonic@
            &&& is_phrase_of_words(w.mnemonic@, MNEMONIC_WORDS as nat)
            &&& w.address_index == 0
            &&& address_path_key(seed, 0) is Some
            &&& w.private_key@ == hex_lower(key)
            &&& w.address@ == hex_lower(eth_address(key))
            &&& w.private_key@.len() == 64
            &&& w.address@.len() == 40
            &&& all_lower_hex(w.private_key@)
            &&& all_lower_hex(w.address@)
        },
        r matches Err(e) ==> e@ == derivation_error_message() && exists|entropy: Seq<u8>|
            entropy.len() == ENTROPY_BYTES && !#[trigger] entropy_batch_defined(entropy, 1),
{
    let mut batch = match generate_batch(1) {
        Ok(b) => b,
        Err(e) => return Err(e),
    };
    let ghost entropy = choose|entropy: Seq<u8>|
        entropy.len() == ENTROPY_BYTES && #[trigger] is_entropy_batch(entropy, 1, batch@)
            && entropy_batch_defined(entropy, 1)
            && is_phrase_of_words(bip39_phrase_of_entropy(entropy), MNEMONIC_WORDS as nat);
    let ghost seed = entropy_seed(entropy);
    assert(wallet_on_path(batch@[0], seed, 0int as u32));
    assert(wallet_at(batch@[0], bip39_phrase_of_entropy(entropy), eth_account_parent(seed).unwrap(), 0int as u32));
    let first = batch.remove(0);
    let info = first.to_wallet_info();
    proof {
        lemma_hex_lower_shape(first.private_key@);
        lemma_hex_lower_shape(first.address@);
    }
    Ok(info)
}

} // verus!
