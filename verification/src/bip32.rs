//! BIP32 private-key derivation: the master key of a seed, hardened and
//! normal child keys, and the Ethereum account path `m/44'/60'/0'/0`.
//!
//! A key or chain step is undefined where BIP32 says so (the left half of
//! the HMAC is not below the group order, or the child key would be zero).
//! The functions that derive a key require that it is defined; the `try_`
//! functions test it and return `None` where it is not.

use vstd::prelude::*;
use crate::primitives::{
    be_bytes, be_nat, curve_order, hmac_sha512, hmac_sha512_spec, is_valid_secret,
    public_key_compressed, secp256k1_pubkey_compressed, secret_add_tweak, secret_key_from_slice,
};

verus! {

/// Set in the index of a hardened child.
pub const HARDENED_BIT: u32 = 0x8000_0000;

/// What an extended key stands for: its secret key bytes and chain code.
pub struct KeyModel {
    pub secret: Seq<u8>,
    pub chain: Seq<u8>,
}

/// Extended private key: secret key and chain code.
pub struct ExtendedKey {
    pub secret_key: [u8; 32],
    pub chain_code: [u8; 32],
}

impl View for ExtendedKey {
    type V = KeyModel;

    open spec fn view(&self) -> KeyModel {
        KeyModel { secret: self.secret_key@, chain: self.chain_code@ }
    }
}

impl ExtendedKey {
    /// The secret key is a valid secp256k1 secret key.
    pub open spec fn wf(&self) -> bool {
        is_valid_secret(self.secret_key@)
    }
}

/// `256^k`.
pub open spec fn pow256(k: nat) -> nat
    decreases k,
{
    if k == 0 {
        1
    } else {
        256 * pow256((k - 1) as nat)
    }
}

/// The HMAC key of the master derivation, the ASCII text `Bitcoin seed`.
pub open spec fn master_hmac_key() -> Seq<u8> {
    seq![0x42u8, 0x69, 0x74, 0x63, 0x6f, 0x69, 0x6e, 0x20, 0x73, 0x65, 0x65, 0x64]
}

/// Left half of an HMAC-SHA512 output (the key material).
pub open spec fn mac_left(mac: Seq<u8>) -> Seq<u8> {
    mac.subrange(0, 32)
}

/// Right half of an HMAC-SHA512 output (the chain code).
pub open spec fn mac_right(mac: Seq<u8>) -> Seq<u8> {
    mac.subrange(32, 64)
}

pub open spec fn master_mac(seed: Seq<u8>) -> Seq<u8> {
    hmac_sha512_spec(master_hmac_key(), seed)
}

/// The master key of a seed is defined: the left half is a valid secret key.
pub open spec fn master_defined(seed: Seq<u8>) -> bool {
    is_valid_secret(mac_left(master_mac(seed)))
}

pub open spec fn master_key(seed: Seq<u8>) -> KeyModel {
    KeyModel { secret: mac_left(master_mac(seed)), chain: mac_right(master_mac(seed)) }
}

/// Big-endian bytes of a child index.
pub open spec fn index_bytes(index: u32) -> Seq<u8> {
    seq![(index >> 24u32) as u8, (index >> 16u32) as u8, (index >> 8u32) as u8, index as u8]
}

/// HMAC input of a child: `0x00 || secret || index` for a hardened index,
/// `compressed public key || index` for a normal one.
pub open spec fn child_data(k: KeyModel, index: u32) -> Seq<u8> {
    if index >= HARDENED_BIT {
        seq![0u8] + k.secret + index_bytes(index)
    } else {
        secp256k1_pubkey_compressed(k.secret) + index_bytes(index)
    }
}

pub open spec fn child_mac(k: KeyModel, index: u32) -> Seq<u8> {
    hmac_sha512_spec(k.chain, child_data(k, index))
}

/// Adding the left half of `mac` to the secret key gives a key: the left
/// half is below the group order and the sum is not zero modulo it.
pub open spec fn tweak_defined(k: KeyModel, mac: Seq<u8>) -> bool {
    &&& be_nat(mac_left(mac)) < curve_order()
    &&& (be_nat(k.secret) + be_nat(mac_left(mac))) % curve_order() != 0
}

/// The key whose secret is `secret + left half` modulo the group order and
/// whose chain code is the right half.
pub open spec fn tweaked(k: KeyModel, mac: Seq<u8>) -> KeyModel {
    KeyModel {
        secret: be_bytes((be_nat(k.secret) + be_nat(mac_left(mac))) % curve_order(), 32),
        chain: mac_right(mac),
    }
}

/// BIP32 `CKDpriv(k, index)` is defined.
pub open spec fn ckd_defined(k: KeyModel, index: u32) -> bool {
    tweak_defined(k, child_mac(k, index))
}

/// BIP32 `CKDpriv(k, index)`.
pub open spec fn ckd(k: KeyModel, index: u32) -> KeyModel {
    tweaked(k, child_mac(k, index))
}

/// The key reached from `k` along `path`, or `None` where a step is undefined.
pub open spec fn derive_path(k: KeyModel, path: Seq<u32>) -> Option<KeyModel>
    decreases path.len(),
{
    if path.len() == 0 {
        Some(k)
    } else if ckd_defined(k, path[0]) {
        derive_path(ckd(k, path[0]), path.drop_first())
    } else {
        None
    }
}

/// The account path `44'/60'/0'/0` below the master key.
pub open spec fn eth_account_path() -> Seq<u32> {
    seq![0x8000_002Cu32, 0x8000_003Cu32, 0x8000_0000u32, 0u32]
}

/// The key at `m/44'/60'/0'/0` of a seed, or `None` where a step is undefined.
pub open spec fn eth_account_parent(seed: Seq<u8>) -> Option<KeyModel> {
    if master_defined(seed) {
        derive_path(master_key(seed), eth_account_path())
    } else {
        None
    }
}

// ---------------------------------------------------------------------
// Lemmas on the byte encodings

pub proof fn lemma_pow256_32()
    ensures
        curve_order() < pow256(32),
{
    reveal_with_fuel(pow256, 33);
    assert(pow256(32) == 0x10000000000000000000000000000000000000000000000000000000000000000nat);
}

/// Reading back a big-endian encoding gives the number, when it fits.
pub proof fn lemma_be_roundtrip(n: nat, len: nat)
    requires
        n < pow256(len),
    ensures
        be_bytes(n, len).len() == len,
        be_nat(be_bytes(n, len)) == n,
    decreases len,
{
    if len > 0 {
        let q = n / 256;
        let p = pow256((len - 1) as nat);
        assert(q < p) by (nonlinear_arith)
            requires
                n < 256 * p,
                q == n / 256,
        ;
        lemma_be_roundtrip(q, (len - 1) as nat);
        let s = be_bytes(n, len);
        assert(s.drop_last() =~= be_bytes(q, (len - 1) as nat));
        assert(q * 256 + n % 256 == n);
    }
}

/// Law: a tweak that is defined yields a valid secret key.
pub proof fn lemma_tweaked_valid(k: KeyModel, mac: Seq<u8>)
    requires
        tweak_defined(k, mac),
    ensures
        is_valid_secret(tweaked(k, mac).secret),
{
    let c = (be_nat(k.secret) + be_nat(mac_left(mac))) % curve_order();
    lemma_pow256_32();
    lemma_be_roundtrip(c, 32);
}

/// One step after a path: the child of the key the path reaches.
pub open spec fn then_child(k: Option<KeyModel>, index: u32) -> Option<KeyModel> {
    match k {
        Some(p) => if ckd_defined(p, index) {
            Some(ckd(p, index))
        } else {
            None
        },
        None => None,
    }
}

/// Law: following a path extended by one index is following the path and
/// then deriving that child.
pub proof fn lemma_derive_path_push(k: KeyModel, path: Seq<u32>, index: u32)
    ensures
        derive_path(k, path.push(index)) == then_child(derive_path(k, path), index),
    decreases path.len(),
{
    if path.len() == 0 {
        assert(path.push(index).drop_first() =~= Seq::<u32>::empty());
        reveal_with_fuel(derive_path, 2);
    } else {
        assert(path.push(index).drop_first() =~= path.drop_first().push(index));
        assert(path.push(index)[0] == path[0]);
        if ckd_defined(k, path[0]) {
            lemma_derive_path_push(ckd(k, path[0]), path.drop_first(), index);
        }
    }
}

/// The key at `m/44'/60'/0'/0/index` of a seed.
pub open spec fn address_path_key(seed: Seq<u8>, index: u32) -> Option<KeyModel> {
    if master_defined(seed) {
        derive_path(master_key(seed), eth_account_path().push(index))
    } else {
        None
    }
}

/// Law: deriving address index `index` below the account key of a seed is
/// deriving the key at `m/44'/60'/0'/0/index` from the master key.
pub proof fn lemma_address_key_on_full_path(seed: Seq<u8>, index: u32)
    ensures
        address_path_key(seed, index) == then_child(eth_account_parent(seed), index),
{
    if master_defined(seed) {
        lemma_derive_path_push(master_key(seed), eth_account_path(), index);
    }
}

/// The four index bytes are the big-endian bytes of the index.
proof fn lemma_index_bytes_are_big_endian(i: u32)
    ensures
        index_bytes(i) == be_bytes(i as nat, 4),
{
    reveal_with_fuel(be_bytes, 5);
    assert((i >> 24u32) as u8 == ((((i / 256u32) / 256u32) / 256u32) % 256u32) as u8) by (bit_vector);
    assert((i >> 16u32) as u8 == (((i / 256u32) / 256u32) % 256u32) as u8) by (bit_vector);
    assert((i >> 8u32) as u8 == ((i / 256u32) % 256u32) as u8) by (bit_vector);
    assert(i as u8 == (i % 256u32) as u8) by (bit_vector);
    let n = i as nat;
    assert(n / 256 == (i / 256u32) as nat);
    assert(n / 256 / 256 == ((i / 256u32) / 256u32) as nat);
    assert(n / 256 / 256 / 256 == (((i / 256u32) / 256u32) / 256u32) as nat);
    assert(index_bytes(i) =~= be_bytes(n, 4));
}

/// Law: a child index is fed to the HMAC as its four big-endian bytes, after
/// the compressed public key for a normal index and after `0x00` and the
/// secret key for a hardened one; those four bytes read back as the index.
pub proof fn lemma_child_data_layout(k: KeyModel, index: u32)
    ensures
        index < HARDENED_BIT ==> child_data(k, index) == secp256k1_pubkey_compressed(k.secret)
            + be_bytes(index as nat, 4),
        index >= HARDENED_BIT ==> child_data(k, index) == seq![0u8] + k.secret + be_bytes(index as nat, 4),
        be_bytes(index as nat, 4).len() == 4,
        be_nat(be_bytes(index as nat, 4)) == index,
{
    lemma_index_bytes_are_big_endian(index);
    reveal_with_fuel(pow256, 5);
    lemma_be_roundtrip(index as nat, 4);
}

/// Law: two different child indices of the same key have different HMAC
/// inputs (the index bytes at the end differ).
pub proof fn lemma_child_data_distinct(k: KeyModel, i: u32, j: u32)
    requires
        i != j,
    ensures
        child_data(k, i) != child_data(k, j),
{
    lemma_child_data_layout(k, i);
    lemma_child_data_layout(k, j);
    let di = child_data(k, i);
    let dj = child_data(k, j);
    if di == dj {
        assert(di.subrange(di.len() - 4, di.len() as int) =~= be_bytes(i as nat, 4));
        assert(dj.subrange(dj.len() - 4, dj.len() as int) =~= be_bytes(j as nat, 4));
    }
}

/// Law: the HMAC key of the master derivation is the ASCII text
/// `Bitcoin seed`, byte for byte.
pub proof fn lemma_master_hmac_key_text()
    ensures
        master_hmac_key().len() == "Bitcoin seed"@.len(),
        forall|i: int| 0 <= i < master_hmac_key().len()
            ==> #[trigger] master_hmac_key()[i] as int == "Bitcoin seed"@[i] as int,
{
    reveal_strlit("Bitcoin seed");
}

/// Law: the account path is `44'`, `60'`, `0'`, `0`: three hardened
/// indices (the index plus `2^31`) and one normal index.
pub proof fn lemma_eth_account_path_values()
    ensures
        eth_account_path().len() == 4,
        eth_account_path()[0] == 44 + HARDENED_BIT,
        eth_account_path()[1] == 60 + HARDENED_BIT,
        eth_account_path()[2] == 0 + HARDENED_BIT,
        eth_account_path()[3] == 0,
{
}

/// Law: the two halves of a 64-byte HMAC output are 32 bytes each and
/// together make the whole output.
pub proof fn lemma_mac_halves(mac: Seq<u8>)
    requires
        mac.len() == 64,
    ensures
        mac_left(mac).len() == 32,
        mac_right(mac).len() == 32,
        mac_left(mac) + mac_right(mac) == mac,
{
    assert(mac_left(mac) + mac_right(mac) =~= mac);
}

/// Law: the secret key of a defined child is the parent's secret plus the
/// left half of the HMAC, modulo the group order, as a 32-byte big-endian
/// number; its chain code is the right half.
pub proof fn lemma_tweaked_value(k: KeyModel, mac: Seq<u8>)
    requires
        tweak_defined(k, mac),
    ensures
        tweaked(k, mac).secret.len() == 32,
        be_nat(tweaked(k, mac).secret) == (be_nat(k.secret) + be_nat(mac_left(mac))) % curve_order(),
        tweaked(k, mac).chain == mac_right(mac),
{
    let c = (be_nat(k.secret) + be_nat(mac_left(mac))) % curve_order();
    lemma_pow256_32();
    lemma_be_roundtrip(c, 32);
}

// ---------------------------------------------------------------------
// Executable derivation

fn master_hmac_key_bytes() -> (r: [u8; 12])
    ensures
        r@ == master_hmac_key(),
{
    let r = [0x42u8, 0x69, 0x74, 0x63, 0x6f, 0x69, 0x6e, 0x20, 0x73, 0x65, 0x65, 0x64];
    assert(r@ =~= master_hmac_key());
    r
}

fn index_be_bytes(index: u32) -> (r: [u8; 4])
    ensures
        r@ == index_bytes(index),
{
    let r = [(index >> 24u32) as u8, (index >> 16u32) as u8, (index >> 8u32) as u8, index as u8];
    assert(r@ =~= index_bytes(index));
    r
}

fn append_bytes(v: &mut Vec<u8>, s: &[u8])
    ensures
        final(v)@ == old(v)@ + s@,
{
    let ghost start = v@;
    let n = s.len();
    for i in 0..n
        invariant
            n == s@.len(),
            v@ == start + s@.subrange(0, i as int),
    {
        v.push(s[i]);
        assert(s@.subrange(0, i + 1) =~= s@.subrange(0, i as int).push(s@[i as int]));
        assert(v@ =~= start + s@.subrange(0, i + 1));
    }
    assert(s@.subrange(0, n as int) =~= s@);
}

fn split_mac(mac: &[u8; 64]) -> (r: ([u8; 32], [u8; 32]))
    ensures
        r.0@ == mac_left(mac@),
        r.1@ == mac_right(mac@),
{
    let mut left = [0u8; 32];
    let mut right = [0u8; 32];
    for i in 0..32
        invariant
            forall|j: int| 0 <= j < i ==> #[trigger] left@[j] == mac@[j],
            forall|j: int| 0 <= j < i ==> #[trigger] right@[j] == mac@[32 + j],
    {
        left[i] = mac[i];
        right[i] = mac[32 + i];
    }
    assert(left@ =~= mac_left(mac@));
    assert(right@ =~= mac_right(mac@));
    (left, right)
}

/// The child of `parent` for a given HMAC output: the secret key is the
/// parent's plus the left half modulo the group order, the chain code is
/// the right half; `None` where the tweak is undefined.
pub fn child_key_from_mac(parent: &ExtendedKey, mac: &[u8; 64]) -> (r: Option<ExtendedKey>)
    requires
        parent.wf(),
    ensures
        r is Some <==> tweak_defined(parent@, mac@),
        r matches Some(c) ==> c@ == tweaked(parent@, mac@) && c.wf(),
{
    let (il, ir) = split_mac(mac);
    match secret_add_tweak(&parent.secret_key, &il) {
        Some(k) => {
            proof {
                lemma_tweaked_valid(parent@, mac@);
            }
            Some(ExtendedKey { secret_key: k, chain_code: ir })
        },
        None => None,
    }
}

/// The master key of a seed, or `None` where it is undefined.
pub fn try_master_from_seed(seed: &[u8]) -> (r: Option<ExtendedKey>)
    ensures
        r is Some <==> master_defined(seed@),
        r matches Some(k) ==> k@ == master_key(seed@) && k.wf(),
{
    let key = master_hmac_key_bytes();
    let mac = hmac_sha512(&key, seed);
    let (il, ir) = split_mac(&mac);
    match secret_key_from_slice(&il) {
        Some(sk) => Some(ExtendedKey { secret_key: sk, chain_code: ir }),
        None => None,
    }
}

/// Hardened child `CKDpriv(parent, index)`, or `None` where it is undefined.
pub fn try_derive_hardened(parent: &ExtendedKey, index: u32) -> (r: Option<ExtendedKey>)
    requires
        parent.wf(),
        index >= HARDENED_BIT,
    ensures
        r is Some <==> ckd_defined(parent@, index),
        r matches Some(c) ==> c@ == ckd(parent@, index) && c.wf(),
{
    let mut data: Vec<u8> = Vec::new();
    data.push(0u8);
    append_bytes(&mut data, &parent.secret_key);
    append_bytes(&mut data, &index_be_bytes(index));
    assert(data@ =~= child_data(parent@, index));
    let mac = hmac_sha512(&parent.chain_code, data.as_slice());
    child_key_from_mac(parent, &mac)
}

/// Normal child `CKDpriv(parent, index)`, or `None` where it is undefined.
pub fn try_derive_normal(parent: &ExtendedKey, index: u32) -> (r: Option<ExtendedKey>)
    requires
        parent.wf(),
        index < HARDENED_BIT,
    ensures
        r is Some <==> ckd_defined(parent@, index),
        r matches Some(c) ==> c@ == ckd(parent@, index) && c.wf(),
{
    let compressed = public_key_compressed(&parent.secret_key);
    let mut data: Vec<u8> = Vec::new();
    append_bytes(&mut data, &compressed);
    append_bytes(&mut data, &index_be_bytes(index));
    assert(data@ =~= child_data(parent@, index));
    let mac = hmac_sha512(&parent.chain_code, data.as_slice());
    child_key_from_mac(parent, &mac)
}

/// The BIP32 master key of a seed: HMAC-SHA512 keyed with `Bitcoin seed`,
/// left half the secret key, right half the chain code.
pub fn master_from_seed(seed: &[u8]) -> (r: ExtendedKey)
    requires
        master_defined(seed@),
    ensures
        r@ == master_key(seed@),
        r.wf(),
{
    try_master_from_seed(seed).unwrap()
}

/// Hardened child `CKDpriv(parent, index)`, from
/// HMAC-SHA512(chain code, `0x00 || secret || index`).
pub fn derive_hardened(parent: &ExtendedKey, index: u32) -> (r: ExtendedKey)
    requires
        parent.wf(),
        index >= HARDENED_BIT,
        ckd_defined(parent@, index),
    ensures
        r@ == ckd(parent@, index),
        r.wf(),
{
    try_derive_hardened(parent, index).unwrap()
}

/// Normal child `CKDpriv(parent, index)`, from
/// HMAC-SHA512(chain code, `compressed public key || index`).
pub fn derive_normal(parent: &ExtendedKey, index: u32) -> (r: ExtendedKey)
    requires
        parent.wf(),
        index < HARDENED_BIT,
        ckd_defined(parent@, index),
    ensures
        r@ == ckd(parent@, index),
        r.wf(),
{
    try_derive_normal(parent, index).unwrap()
}

/// The key at `m/44'/60'/0'/0` of a seed, or `None` where a step of the
/// path is undefined: three hardened steps and one normal step below the
/// master key.
pub fn try_derive_eth_account_parent(seed: &[u8]) -> (r: Option<ExtendedKey>)
    ensures
        r matches Some(k) ==> k.wf(),
        match r {
            Some(k) => eth_account_parent(seed@) == Some(k@),
            None => eth_account_parent(seed@) is None,
        },
{
    proof {
        reveal_with_fuel(derive_path, 5);
    }
    let ghost path = eth_account_path();
    assert(path.drop_first() =~= seq![0x8000_003Cu32, 0x8000_0000u32, 0u32]);
    assert(path.drop_first().drop_first() =~= seq![0x8000_0000u32, 0u32]);
    assert(path.drop_first().drop_first().drop_first() =~= seq![0u32]);
    assert(path.drop_first().drop_first().drop_first().drop_first() =~= Seq::<u32>::empty());
    assert(44u32 | 0x8000_0000u32 == 0x8000_002Cu32) by (bit_vector);
    assert(60u32 | 0x8000_0000u32 == 0x8000_003Cu32) by (bit_vector);
    let master = match try_master_from_seed(seed) {
        Some(k) => k,
        None => return None,
    };
    let level1 = match try_derive_hardened(&master, 44 | HARDENED_BIT) {
        Some(k) => k,
        None => return None,
    };
    let level2 = match try_derive_hardened(&level1, 60 | HARDENED_BIT) {
        Some(k) => k,
        None => return None,
    };
    let level3 = match try_derive_hardened(&level2, HARDENED_BIT) {
        Some(k) => k,
        None => return None,
    };
    try_derive_normal(&level3, 0)
}

/// The key at `m/44'/60'/0'/0` of a seed: three hardened steps and one
/// normal step below the master key.
pub fn derive_eth_account_parent(seed: &[u8]) -> (r: ExtendedKey)
    requires
        eth_account_parent(seed@) is Some,
    ensures
        Some(r@) == eth_account_parent(seed@),
        r.wf(),
{
    try_derive_eth_account_parent(seed).unwrap()
}

/// The secret key of the normal child `index` of `parent`, or `None` where
/// that child is undefined.
pub fn try_derive_address_index(parent: &ExtendedKey, index: u32) -> (r: Option<[u8; 32]>)
    requires
        parent.wf(),
        index < HARDENED_BIT,
    ensures
        r is Some <==> ckd_defined(parent@, index),
        r matches Some(k) ==> k@ == ckd(parent@, index).secret && is_valid_secret(k@),
{
    match try_derive_normal(parent, index) {
        Some(child) => Some(child.secret_key),
        None => None,
    }
}

/// The secret key of the normal child `index` of `parent` (the address
/// index below `m/44'/60'/0'/0`).
pub fn derive_address_index(parent: &ExtendedKey, index: u32) -> (r: [u8; 32])
    requires
        parent.wf(),
        index < HARDENED_BIT,
        ckd_defined(parent@, index),
    ensures
        r@ == ckd(parent@, index).secret,
        is_valid_secret(r@),
{
    try_derive_address_index(parent, index).unwrap()
}

} // verus!
