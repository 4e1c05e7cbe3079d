use beauty_wallet::generator::WalletInfo;
use beauty_wallet::output::{derivation_path, found_message, summary_lines, WalletResult};

fn info() -> WalletInfo {
    WalletInfo {
        mnemonic: "abandon about".to_string(),
        private_key: "11".repeat(32),
        address: "9858effd232b4033e47d90003d41ec34ecaeda94".to_string(),
        address_index: 3,
    }
}

#[test]
fn wallet_result_has_prefixed_fields() {
    let r = WalletResult::from_wallet_info(&info());
    assert_eq!(r.mnemonic, "abandon about");
    assert_eq!(r.address, "0x9858effd232b4033e47d90003d41ec34ecaeda94");
    assert_eq!(r.private_key, format!("0x{}", "11".repeat(32)));
    assert_eq!(r.derivation_path, "m/44'/60'/0'/0/3");
    assert!(r.found_at.ends_with('Z'));
    assert_eq!(&r.found_at[10..11], "T");
    assert!(chrono::DateTime::parse_from_rfc3339(&r.found_at).is_ok());
    let fixed = WalletResult::found_at_time(&info(), "2026-03-25T00:00:00Z".to_string());
    assert_eq!(fixed.found_at, "2026-03-25T00:00:00Z");
    assert_eq!(fixed.address, r.address);
}

#[test]
fn found_message_shows_address_only() {
    let r = WalletResult::found_at_time(&info(), "t".to_string());
    let m = found_message(&r, 0);
    assert_eq!(m, "\n  [1] Found: 0x9858effd232b4033e47d90003d41ec34ecaeda94");
    assert!(!m.contains(&"11".repeat(32)));
    assert_eq!(found_message(&r, 41), "\n  [42] Found: 0x9858effd232b4033e47d90003d41ec34ecaeda94");
}

#[test]
fn summary_lists_every_address() {
    let a = WalletResult::found_at_time(&info(), "t".to_string());
    let mut b = WalletResult::found_at_time(&info(), "t".to_string());
    b.address = "0xabc".to_string();
    let lines = summary_lines(&[a, b], 1234, "out.json");
    assert_eq!(
        lines,
        vec![
            "\n--- Results ---".to_string(),
            "Wallets found: 2".to_string(),
            "Total attempts: 1234".to_string(),
            "  [1] 0x9858effd232b4033e47d90003d41ec34ecaeda94".to_string(),
            "  [2] 0xabc".to_string(),
            "Saved to: out.json".to_string(),
            "WARNING: Output file contains private keys. Keep it secure!".to_string(),
        ]
    );
    assert_eq!(summary_lines(&[], 0, "x").len(), 5);
}

#[test]
fn derivation_path_names_the_index() {
    assert_eq!(derivation_path(0), "m/44'/60'/0'/0/0");
    assert_eq!(derivation_path(42), "m/44'/60'/0'/0/42");
    assert_eq!(derivation_path(u32::MAX), format!("m/44'/60'/0'/0/{}", u32::MAX));
}
