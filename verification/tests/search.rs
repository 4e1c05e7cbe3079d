use beauty_wallet::generator::RawWallet;
use beauty_wallet::matcher::suffix_to_bytes;
use beauty_wallet::search::{
    backup_file_name, initial_progress_message, matching_indices, mode_message,
    progress_message, search_config, SearchState,
};

#[test]
fn config_from_command_line() {
    let c = search_config(3, false, 0);
    assert_eq!(c.target_count, 3);
    assert_eq!(c.batch_size, 1);
    assert!(!c.continuous);
    let c = search_config(3, true, 100);
    assert_eq!(c.target_count, usize::MAX);
    assert_eq!(c.batch_size, 100);
    assert!(c.continuous);
}

#[test]
fn count_mode_keeps_exactly_the_target() {
    let mut s = SearchState::new(&search_config(3, false, 10));
    assert_eq!(s.record_match(), Some(1));
    assert!(!s.should_stop());
    assert_eq!(s.record_match(), Some(2));
    assert_eq!(s.record_match(), Some(3));
    assert!(s.should_stop());
    assert_eq!(s.record_match(), None);
    assert_eq!(s.found, 3);
}

#[test]
fn count_mode_with_zero_target_keeps_nothing() {
    let mut s = SearchState::new(&search_config(0, false, 10));
    assert_eq!(s.record_match(), None);
    assert!(!s.should_stop());
}

#[test]
fn continuous_mode_never_stops_by_itself() {
    let mut s = SearchState::new(&search_config(1, true, 10));
    for i in 1..=5 {
        assert_eq!(s.record_match(), Some(i));
    }
    assert!(!s.should_stop());
    s.request_stop();
    assert!(s.should_stop());
    s.found = usize::MAX;
    assert_eq!(s.record_match(), Some(0));
}

#[test]
fn attempts_are_counted() {
    let mut s = SearchState::new(&search_config(1, false, 10));
    s.record_batch(100);
    s.record_batch(5);
    assert_eq!(s.attempts, 105);
}

fn wallet(last: u8, index: u32) -> RawWallet {
    let mut address = [0u8; 20];
    address[19] = last;
    RawWallet { mnemonic: String::new(), private_key: [1u8; 32], address, address_index: index }
}

#[test]
fn matching_indices_in_order() {
    let batch = vec![wallet(0x1a, 0), wallet(0x2b, 1), wallet(0x3a, 2), wallet(0xaa, 3)];
    let (bytes, odd) = suffix_to_bytes("a");
    assert_eq!(matching_indices(&batch, &bytes, odd), vec![0, 2, 3]);
    let (bytes, odd) = suffix_to_bytes("2b");
    assert_eq!(matching_indices(&batch, &bytes, odd), vec![1]);
    assert!(matching_indices(&Vec::new(), &bytes, odd).is_empty());
}

#[test]
fn progress_and_mode_text() {
    let count = search_config(3, false, 10);
    let cont = search_config(3, true, 10);
    assert_eq!(progress_message(2, &count), "Found 2/3");
    assert_eq!(progress_message(2, &cont), "Found 2/inf");
    assert_eq!(initial_progress_message(&count), "Found 0/3...");
    assert_eq!(initial_progress_message(&cont), "Found 0/inf...");
    assert_eq!(mode_message(&count), "find 3");
    assert_eq!(mode_message(&cont), "continuous");
}

#[test]
fn backup_names() {
    assert_eq!(
        backup_file_name("results", "20260325_101010", Some("json")),
        "results.20260325_101010.json"
    );
    assert_eq!(backup_file_name("results", "t", None), "results.t");
}
