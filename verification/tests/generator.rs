use beauty_wallet::bip32::{derive_address_index, derive_eth_account_parent};
use beauty_wallet::generator::{
    batch_from_entropy, batch_from_seed, generate_batch, generate_wallet, secret_key_to_address,
    RawWallet,
};
use bip39::Mnemonic;

#[test]
fn test_generate_wallet_produces_valid_output() {
    let wallet = generate_wallet().unwrap();
    assert_eq!(wallet.mnemonic.split_whitespace().count(), 12);
    assert_eq!(wallet.private_key.len(), 64);
    assert!(wallet.private_key.chars().all(|c| c.is_ascii_hexdigit()));
    assert_eq!(wallet.address.len(), 40);
    assert!(wallet.address.chars().all(|c| c.is_ascii_hexdigit()));
}

#[test]
fn test_generate_wallet_unique() {
    let w1 = generate_wallet().unwrap();
    let w2 = generate_wallet().unwrap();
    assert_ne!(w1.address, w2.address);
    assert_ne!(w1.mnemonic, w2.mnemonic);
}

#[test]
fn test_known_mnemonic_produces_known_address() {
    let mnemonic: Mnemonic = "abandon abandon abandon abandon abandon abandon \
        abandon abandon abandon abandon abandon about"
        .parse()
        .unwrap();
    let seed = mnemonic.to_seed("");

    let parent = derive_eth_account_parent(&seed);
    let child_key = derive_address_index(&parent, 0);

    let address = secret_key_to_address(&child_key);
    assert_eq!(
        hex::encode(address),
        "9858effd232b4033e47d90003d41ec34ecaeda94"
    );
}

#[test]
fn test_batch_produces_unique_addresses() {
    let batch = generate_batch(5).unwrap();
    assert_eq!(batch.len(), 5);
    for (i, w) in batch.iter().enumerate() {
        assert_eq!(w.address_index, i as u32);
    }
    // All addresses from the same mnemonic should be different
    let addresses: Vec<_> = batch.iter().map(|w| w.address).collect();
    for i in 0..addresses.len() {
        for j in (i + 1)..addresses.len() {
            assert_ne!(addresses[i], addresses[j]);
        }
    }
}

#[test]
fn test_batch_shares_mnemonic() {
    let batch = generate_batch(3).unwrap();
    let m = batch[0].mnemonic.to_string();
    for w in &batch {
        assert_eq!(w.mnemonic.to_string(), m);
    }
}

#[test]
fn batch_from_known_seed() {
    let phrase = "abandon abandon abandon abandon abandon abandon \
        abandon abandon abandon abandon abandon about"
        .to_string();
    let mnemonic: Mnemonic = phrase.parse().unwrap();
    let seed = mnemonic.to_seed("");
    let batch = batch_from_seed(&phrase, &seed, 3).unwrap();
    assert_eq!(batch.len(), 3);
    assert_eq!(
        hex::encode(batch[0].address),
        "9858effd232b4033e47d90003d41ec34ecaeda94"
    );
    let parent = derive_eth_account_parent(&seed);
    for (i, w) in batch.iter().enumerate() {
        assert_eq!(w.mnemonic, phrase);
        assert_eq!(w.address_index, i as u32);
        assert_eq!(w.private_key, derive_address_index(&parent, i as u32));
        assert_eq!(w.address, secret_key_to_address(&w.private_key));
    }
    assert!(batch_from_seed(&phrase, &seed, 0).unwrap().is_empty());
}

#[test]
fn generated_batch_uses_the_seed_of_its_mnemonic() {
    let batch = generate_batch(2).unwrap();
    let mnemonic: Mnemonic = batch[0].mnemonic.parse().unwrap();
    let seed = mnemonic.to_seed("");
    let parent = derive_eth_account_parent(&seed);
    assert_eq!(batch[1].private_key, derive_address_index(&parent, 1));
    assert_eq!(mnemonic.word_count(), 12);
}

#[test]
fn wallet_info_is_lowercase_hex() {
    let raw = RawWallet {
        mnemonic: "word".to_string(),
        private_key: [0xABu8; 32],
        address: [0x0Fu8; 20],
        address_index: 7,
    };
    let info = raw.to_wallet_info();
    assert_eq!(info.mnemonic, "word");
    assert_eq!(info.private_key, "ab".repeat(32));
    assert_eq!(info.address, "0f".repeat(20));
    assert_eq!(info.address_index, 7);
}

#[test]
fn batch_from_zero_entropy_is_the_abandon_mnemonic() {
    let batch = batch_from_entropy(&[0u8; 16], 2).unwrap();
    assert_eq!(batch.len(), 2);
    assert_eq!(
        batch[0].mnemonic,
        "abandon abandon abandon abandon abandon abandon \
        abandon abandon abandon abandon abandon about"
    );
    assert_eq!(
        hex::encode(batch[0].address),
        "9858effd232b4033e47d90003d41ec34ecaeda94"
    );
    assert_eq!(batch[1].mnemonic, batch[0].mnemonic);
    assert_eq!(batch[1].address_index, 1);
}

#[test]
fn generated_mnemonic_is_a_valid_bip39_mnemonic() {
    let w = generate_wallet().unwrap();
    let m: Mnemonic = w.mnemonic.parse().unwrap();
    assert_eq!(m.to_entropy().len(), 16);
    assert_eq!(Mnemonic::from_entropy(&m.to_entropy()).unwrap().to_string(), w.mnemonic);
}
