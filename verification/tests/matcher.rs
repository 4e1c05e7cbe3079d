use beauty_wallet::matcher::{
    check_lowered_suffix, matches_suffix, matches_suffix_bytes, suffix_to_bytes, validate_suffix,
};
use beauty_wallet::text::{hex_encode, to_decimal};

#[test]
fn test_validate_valid() {
    assert_eq!(validate_suffix("1988").unwrap(), "1988");
    assert_eq!(validate_suffix("AbCd").unwrap(), "abcd");
    assert_eq!(validate_suffix("8888").unwrap(), "8888");
}

#[test]
fn test_validate_invalid() {
    assert!(validate_suffix("").is_err());
    assert!(validate_suffix("xyz").is_err());
    assert!(validate_suffix("12g4").is_err());
}

#[test]
fn test_validate_too_long() {
    let long = "a".repeat(41);
    assert!(validate_suffix(&long).is_err());
}

#[test]
fn test_matches() {
    assert!(matches_suffix("abcdef1988", "1988"));
    assert!(matches_suffix("abcdef1988", "f1988"));
    assert!(!matches_suffix("abcdef1988", "1989"));
}

#[test]
fn test_suffix_to_bytes_even() {
    let (bytes, odd) = suffix_to_bytes("1988");
    assert_eq!(bytes, vec![0x19, 0x88]);
    assert!(!odd);
}

#[test]
fn test_suffix_to_bytes_odd() {
    let (bytes, odd) = suffix_to_bytes("abc");
    assert_eq!(bytes, vec![0x0a, 0xbc]);
    assert!(odd);
}

#[test]
fn test_matches_suffix_bytes_even() {
    // Address ending in ...1988
    let mut addr = [0u8; 20];
    addr[18] = 0x19;
    addr[19] = 0x88;
    let (suffix, odd) = suffix_to_bytes("1988");
    assert!(matches_suffix_bytes(&addr, &suffix, odd));
    let (suffix2, odd2) = suffix_to_bytes("1989");
    assert!(!matches_suffix_bytes(&addr, &suffix2, odd2));
}

#[test]
fn test_matches_suffix_bytes_odd() {
    // Address ending in ...0abc
    let mut addr = [0u8; 20];
    addr[18] = 0x0a;
    addr[19] = 0xbc;
    let (suffix, odd) = suffix_to_bytes("abc");
    assert!(matches_suffix_bytes(&addr, &suffix, odd));
    // "0abc" (even) should also match
    let (suffix2, odd2) = suffix_to_bytes("0abc");
    assert!(matches_suffix_bytes(&addr, &suffix2, odd2));
}

#[test]
fn validate_reports_each_error_message() {
    assert_eq!(validate_suffix("").unwrap_err(), "Suffix cannot be empty");
    assert_eq!(
        validate_suffix(&"b".repeat(41)).unwrap_err(),
        "Suffix cannot exceed 40 hex chars (full ETH address)"
    );
    assert_eq!(validate_suffix("12G4").unwrap_err(), "Invalid hex in suffix: '12G4'");
    // Forty digits is a full address and is accepted.
    assert_eq!(validate_suffix(&"F".repeat(40)).unwrap(), "f".repeat(40));
    // A non-hex character is reported even when the input is short.
    assert_eq!(validate_suffix("é").unwrap_err(), "Invalid hex in suffix: 'é'");
    // The length limit counts bytes of the lowercased text.
    assert_eq!(
        validate_suffix(&"é".repeat(21)).unwrap_err(),
        "Suffix cannot exceed 40 hex chars (full ETH address)"
    );
}

#[test]
fn check_lowered_suffix_keeps_lowered_text() {
    assert_eq!(check_lowered_suffix("ABC", "abc".to_string()).unwrap(), "abc");
    assert_eq!(
        check_lowered_suffix("XY", "xy".to_string()).unwrap_err(),
        "Invalid hex in suffix: 'XY'"
    );
}

#[test]
fn suffix_to_bytes_accepts_uppercase_and_full_length() {
    let (bytes, odd) = suffix_to_bytes("ABCDEF");
    assert_eq!(bytes, vec![0xab, 0xcd, 0xef]);
    assert!(!odd);
    let (bytes, odd) = suffix_to_bytes("f");
    assert_eq!(bytes, vec![0x0f]);
    assert!(odd);
    let (bytes, _) = suffix_to_bytes(&"9".repeat(40));
    assert_eq!(bytes, vec![0x99; 20]);
}

#[test]
fn matches_suffix_bytes_rejects_empty_and_overlong_suffixes() {
    let addr = [0x11u8; 20];
    assert!(!matches_suffix_bytes(&addr, &[], false));
    assert!(!matches_suffix_bytes(&addr, &[0x11; 21], false));
    assert!(matches_suffix_bytes(&addr, &[0x11; 20], false));
    // Odd nibble: only the low nibble of the first byte is compared.
    assert!(matches_suffix_bytes(&addr, &[0x01, 0x11], true));
    assert!(!matches_suffix_bytes(&addr, &[0x01, 0x11], false));
    assert!(!matches_suffix_bytes(&addr, &[0x02, 0x11], true));
}

#[test]
fn byte_matching_agrees_with_string_matching() {
    let mut addr = [0u8; 20];
    for (i, b) in addr.iter_mut().enumerate() {
        *b = (i as u8).wrapping_mul(37).wrapping_add(5);
    }
    let text = hex_encode(&addr);
    for len in 1..=40 {
        for start in [0usize, 1, 3] {
            let candidate: String = text[40 - len..].chars().collect();
            let mut probe: Vec<char> = candidate.chars().collect();
            if start < probe.len() {
                probe[start] = if probe[start] == '0' { '1' } else { '0' };
            }
            for s in [candidate.clone(), probe.iter().collect::<String>()] {
                let (bytes, odd) = suffix_to_bytes(&s);
                assert_eq!(
                    matches_suffix_bytes(&addr, &bytes, odd),
                    matches_suffix(&text, &s),
                    "suffix {}",
                    s
                );
            }
        }
    }
}

#[test]
fn matches_suffix_on_text() {
    assert!(matches_suffix("abc", ""));
    assert!(matches_suffix("abc", "abc"));
    assert!(!matches_suffix("bc", "abc"));
    assert!(matches_suffix("xé", "é"));
}

#[test]
fn hex_encode_matches_hex_crate() {
    let data: Vec<u8> = (0u8..=255).collect();
    assert_eq!(hex_encode(&data), hex::encode(&data));
    assert_eq!(hex_encode(&[]), "");
    assert_eq!(hex_encode(&[0x0a, 0xff]), "0aff");
}

#[test]
fn decimal_rendering() {
    assert_eq!(to_decimal(0), "0");
    assert_eq!(to_decimal(7), "7");
    assert_eq!(to_decimal(1988), "1988");
    assert_eq!(to_decimal(u64::MAX), u64::MAX.to_string());
}
