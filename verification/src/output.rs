//! Found wallets as reported: the `0x`-prefixed result record, and the
//! lines printed for a found wallet and for the final summary.

use vstd::prelude::*;
use crate::generator::WalletInfo;
use crate::primitives::{is_rfc3339_utc, utc_now_rfc3339};
use crate::text::{decimal, push_decimal};

verus! {

/// A found wallet as saved: address and private key with a `0x` prefix,
/// the derivation path of its address index, and the RFC 3339 time at
/// which it was found.
#[derive(Clone, Debug)]
pub struct WalletResult {
    pub mnemonic: String,
    pub address: String,
    pub private_key: String,
    pub derivation_path: String,
    pub found_at: String,
}

/// The derivation path `m/44'/60'/0'/0/N` of address index `N`.
pub open spec fn derivation_path_text(index: u32) -> Seq<char> {
    "m/44'/60'/0'/0/"@ + decimal(index as nat)
}

pub open spec fn hex_prefix() -> Seq<char> {
    "0x"@
}

/// `r` carries the fields of `info`, address and private key prefixed `0x`.
pub open spec fn result_of(info: WalletInfo, r: WalletResult) -> bool {
    &&& r.mnemonic@ == info.mnemonic@
    &&& r.address@ == hex_prefix() + info.address@
    &&& r.private_key@ == hex_prefix() + info.private_key@
    &&& r.derivation_path@ == derivation_path_text(info.address_index)
}

/// The derivation path `m/44'/60'/0'/0/N` of address index `index`.
pub fn derivation_path(index: u32) -> (r: String)
    ensures
        r@ == derivation_path_text(index),
{
    let mut s = String::from_str("m/44'/60'/0'/0/");
    push_decimal(&mut s, index as u64);
    s
}

impl WalletResult {
    /// The record of `info` (its derivation path from its address index),
    /// found at the time given as RFC 3339 text.
    pub fn found_at_time(info: &WalletInfo, found_at: String) -> (r: WalletResult)
        ensures
            result_of(*info, r),
            r.found_at@ == found_at@,
    {
        let mut address = String::from_str("0x");
        address.append(info.address.as_str());
        let mut private_key = String::from_str("0x");
        private_key.append(info.private_key.as_str());
        WalletResult {
            mnemonic: info.mnemonic.clone(),
            address,
            private_key,
            derivation_path: derivation_path(info.address_index),
            found_at,
        }
    }

    /// The record of `info`, stamped with the current UTC time as RFC 3339
    /// text.
    pub fn from_wallet_info(info: &WalletInfo) -> (r: WalletResult)
        ensures
            result_of(*info, r),
            is_rfc3339_utc(r.found_at@),
    {
        WalletResult::found_at_time(info, utc_now_rfc3339())
    }
}

/// The line announcing the found wallet with zero-based number `index`
/// (shown one-based); it shows the address only, never the private key.
pub open spec fn found_line(address: Seq<char>, index: nat) -> Seq<char> {
    "\n  ["@ + decimal(index + 1) + "] Found: "@ + address
}

/// The line listing result `i` (zero-based, shown one-based) in the summary.
pub open spec fn summary_entry(address: Seq<char>, i: nat) -> Seq<char> {
    "  ["@ + decimal(i + 1) + "] "@ + address
}

/// The lines of the final summary.
pub open spec fn summary(addresses: Seq<Seq<char>>, attempts: nat, path: Seq<char>) -> Seq<Seq<char>> {
    seq!["\n--- Results ---"@, "Wallets found: "@ + decimal(addresses.len()), "Total attempts: "@ + decimal(attempts)]
        + Seq::new(addresses.len(), |i: int| summary_entry(addresses[i], i as nat))
        + seq!["Saved to: "@ + path, "WARNING: Output file contains private keys. Keep it secure!"@]
}

/// Text announcing a found wallet (`index` zero-based).
pub fn found_message(result: &WalletResult, index: usize) -> (r: String)
    requires
        index < usize::MAX,
    ensures
        r@ == found_line(result.address@, index as nat),
{
    let mut s = String::from_str("\n  [");
    push_decimal(&mut s, (index + 1) as u64);
    s.append("] Found: ");
    s.append(result.address.as_str());
    s
}

/// The lines of the final summary: how many wallets were found, the number
/// of attempts, each address, where the results were saved, and a warning.
pub fn summary_lines(results: &[WalletResult], total_attempts: u64, output_path: &str) -> (r: Vec<String>)
    ensures
        r@.len() == results@.len() + 5,
        forall|i: int| 0 <= i < r@.len() ==> #[trigger] r@[i]@ == summary(
            results@.map_values(|w: WalletResult| w.address@),
            total_attempts as nat,
            output_path@,
        )[i],
{
    let ghost addrs = results@.map_values(|w: WalletResult| w.address@);
    let ghost expected = summary(addrs, total_attempts as nat, output_path@);
    let mut lines: Vec<String> = Vec::new();
    lines.push(String::from_str("\n--- Results ---"));
    let mut found = String::from_str("Wallets found: ");
    push_decimal(&mut found, results.len() as u64);
    lines.push(found);
    let mut attempts = String::from_str("Total attempts: ");
    push_decimal(&mut attempts, total_attempts);
    lines.push(attempts);
    let n = results.len();
    for i in 0..n
        invariant
            n == results@.len(),
            addrs == results@.map_values(|w: WalletResult| w.address@),
            expected == summary(addrs, total_attempts as nat, output_path@),
            lines@.len() == 3 + i,
            forall|j: int| 0 <= j < lines@.len() ==> #[trigger] lines@[j]@ == expected[j],
    {
        let mut entry = String::from_str("  [");
        push_decimal(&mut entry, (i + 1) as u64);
        entry.append("] ");
        entry.append(results[i].address.as_str());
        assert(entry@ == summary_entry(addrs[i as int], i as nat));
        lines.push(entry);
    }
    let mut saved = String::from_str("Saved to: ");
    saved.append(output_path);
    lines.push(saved);
    lines.push(String::from_str("WARNING: Output file contains private keys. Keep it secure!"));
    lines
}

} // verus!
