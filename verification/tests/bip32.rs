use beauty_wallet::bip32::{
    child_key_from_mac, derive_address_index, derive_eth_account_parent, derive_hardened,
    derive_normal, master_from_seed, try_derive_address_index, try_derive_eth_account_parent,
    try_derive_hardened, try_derive_normal, try_master_from_seed,
    ExtendedKey, HARDENED_BIT,
};
use beauty_wallet::generator::secret_key_to_address;
use bip39::Mnemonic;
use secp256k1::{PublicKey, Secp256k1, SecretKey};
use tiny_keccak::{Hasher, Keccak};

fn abandon_seed() -> [u8; 64] {
    let mnemonic: Mnemonic = "abandon abandon abandon abandon abandon abandon \
        abandon abandon abandon abandon abandon about"
        .parse()
        .unwrap();
    mnemonic.to_seed("")
}

#[test]
fn test_known_vector_matches_reference() {
    // "abandon ... about" mnemonic should produce known ETH address
    let seed = abandon_seed();
    let secp = Secp256k1::new();

    let parent = derive_eth_account_parent(&seed);
    let child_key = derive_address_index(&parent, 0);

    // Derive ETH address from private key
    let child_key = SecretKey::from_slice(&child_key).unwrap();
    let pubkey = PublicKey::from_secret_key(&secp, &child_key);
    let pubkey_bytes = pubkey.serialize_uncompressed();
    let mut hasher = Keccak::v256();
    hasher.update(&pubkey_bytes[1..]);
    let mut hash = [0u8; 32];
    hasher.finalize(&mut hash);
    let address = hex::encode(&hash[12..]);

    assert_eq!(address, "9858effd232b4033e47d90003d41ec34ecaeda94");
}

fn hex32(s: &str) -> [u8; 32] {
    let v = hex::decode(s).unwrap();
    let mut out = [0u8; 32];
    out.copy_from_slice(&v);
    out
}

#[test]
fn bip32_test_vector_one() {
    let seed = hex::decode("000102030405060708090a0b0c0d0e0f").unwrap();
    let m = master_from_seed(&seed);
    assert_eq!(
        m.secret_key,
        hex32("e8f32e723decf4051aefac8e2c93c9c5b214313817cdb01a1494b917c8436b35")
    );
    assert_eq!(
        m.chain_code,
        hex32("873dff81c02f525623fd1fe5167eac3a55a049de3d314bb42ee227ffed37d508")
    );
    let m0h = derive_hardened(&m, HARDENED_BIT);
    assert_eq!(
        m0h.secret_key,
        hex32("edb2e14f9ee77d26dd93b4ecede8d16ed408ce149b6cd80b0715a2d911a0afea")
    );
    assert_eq!(
        m0h.chain_code,
        hex32("47fdacbd0f1097043b78c63c20c34ef4ed9a111d980047ad16282c7ae6236141")
    );
    let m0h1 = derive_normal(&m0h, 1);
    assert_eq!(
        m0h1.secret_key,
        hex32("3c6cb8d0f6a264c91ea8b5030fadaa8e538b020f0a387421a12de9319dc93368")
    );
    assert_eq!(
        m0h1.chain_code,
        hex32("2a7857631386ba23dacac34180dd1983734e444fdbf774041578e9b6adb37c19")
    );
}

#[test]
fn account_parent_follows_the_path() {
    let seed = abandon_seed();
    let m = master_from_seed(&seed);
    let l1 = derive_hardened(&m, 44 | HARDENED_BIT);
    let l2 = derive_hardened(&l1, 60 | HARDENED_BIT);
    let l3 = derive_hardened(&l2, HARDENED_BIT);
    let l4 = derive_normal(&l3, 0);
    let parent = derive_eth_account_parent(&seed);
    assert_eq!(parent.secret_key, l4.secret_key);
    assert_eq!(parent.chain_code, l4.chain_code);
    let checked = try_derive_eth_account_parent(&seed).unwrap();
    assert_eq!(checked.secret_key, parent.secret_key);
    assert_eq!(checked.chain_code, parent.chain_code);
}

#[test]
fn address_index_keys_differ_and_match_checked_form() {
    let seed = abandon_seed();
    let parent = derive_eth_account_parent(&seed);
    let k0 = derive_address_index(&parent, 0);
    let k1 = derive_address_index(&parent, 1);
    assert_ne!(k0, k1);
    assert_eq!(try_derive_address_index(&parent, 1), Some(k1));
    assert_eq!(derive_normal(&parent, 1).secret_key, k1);
    assert_eq!(
        hex::encode(secret_key_to_address(&k0)),
        "9858effd232b4033e47d90003d41ec34ecaeda94"
    );
}

#[test]
fn child_key_from_mac_adds_modulo_order() {
    let mut secret = [0u8; 32];
    secret[31] = 5;
    let parent = ExtendedKey { secret_key: secret, chain_code: [7u8; 32] };
    // Left half 3, right half all 0x22: secret becomes 8, chain code the right half.
    let mut mac = [0x22u8; 64];
    for b in mac[..32].iter_mut() {
        *b = 0;
    }
    mac[31] = 3;
    let child = child_key_from_mac(&parent, &mac).unwrap();
    let mut expected = [0u8; 32];
    expected[31] = 8;
    assert_eq!(child.secret_key, expected);
    assert_eq!(child.chain_code, [0x22u8; 32]);

    // Left half equal to the group order minus five: the sum is zero.
    let order_minus_5 =
        hex32("fffffffffffffffffffffffffffffffebaaedce6af48a03bbfd25e8cd036413c");
    mac[..32].copy_from_slice(&order_minus_5);
    assert!(child_key_from_mac(&parent, &mac).is_none());

    // Left half at the group order: not a valid tweak.
    let order = hex32("fffffffffffffffffffffffffffffffebaaedce6af48a03bbfd25e8cd0364141");
    mac[..32].copy_from_slice(&order);
    assert!(child_key_from_mac(&parent, &mac).is_none());

    // Left half wraps around the group order: (5 + (n - 1)) mod n = 4.
    let order_minus_1 =
        hex32("fffffffffffffffffffffffffffffffebaaedce6af48a03bbfd25e8cd0364140");
    mac[..32].copy_from_slice(&order_minus_1);
    let child = child_key_from_mac(&parent, &mac).unwrap();
    let mut four = [0u8; 32];
    four[31] = 4;
    assert_eq!(child.secret_key, four);
}

#[test]
fn checked_steps_agree_with_unchecked_ones() {
    let seed = hex::decode("000102030405060708090a0b0c0d0e0f").unwrap();
    let m = try_master_from_seed(&seed).unwrap();
    assert_eq!(m.secret_key, master_from_seed(&seed).secret_key);
    let h = try_derive_hardened(&m, HARDENED_BIT).unwrap();
    assert_eq!(h.chain_code, derive_hardened(&m, HARDENED_BIT).chain_code);
    let n = try_derive_normal(&h, 1).unwrap();
    assert_eq!(n.secret_key, derive_normal(&h, 1).secret_key);
}
