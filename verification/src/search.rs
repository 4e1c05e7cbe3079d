//! The bookkeeping of a search: its configuration, the addresses of a batch
//! that match, and the state that decides, match by match, whether a found
//! wallet is kept and when the search stops.

use vstd::prelude::*;
use crate::generator::RawWallet;
use crate::matcher::suffix_bytes_match;
use crate::matcher::matches_suffix_bytes;
use crate::text::{decimal, push_decimal};

verus! {

/// Settings of a search, as the command line gives them.
pub struct SearchConfig {
    pub continuous: bool,
    /// Wallets to find; unbounded (`usize::MAX`) in continuous mode.
    pub target_count: usize,
    /// Address indices checked per mnemonic, at least one.
    pub batch_size: u32,
}

/// The configuration of a search for `count` wallets (ignored in continuous
/// mode), with `batch_size` raised to at least one.
pub fn search_config(count: usize, continuous: bool, batch_size: u32) -> (r: SearchConfig)
    ensures
        r.continuous == continuous,
        r.target_count == if continuous { usize::MAX } else { count },
        r.batch_size == if batch_size < 1 { 1 } else { batch_size },
{
    SearchConfig {
        continuous,
        target_count: if continuous { usize::MAX } else { count },
        batch_size: if batch_size < 1 { 1 } else { batch_size },
    }
}

/// Indices, in increasing order, of the wallets among the first `n` whose
/// address matches the suffix bytes.
pub open spec fn match_indices(addresses: Seq<Seq<u8>>, suffix: Seq<u8>, odd: bool, n: nat) -> Seq<usize>
    decreases n,
{
    if n == 0 {
        seq![]
    } else {
        let earlier = match_indices(addresses, suffix, odd, (n - 1) as nat);
        if suffix_bytes_match(addresses[n - 1], suffix, odd) {
            earlier.push((n - 1) as usize)
        } else {
            earlier
        }
    }
}

pub open spec fn addresses_of(batch: Seq<RawWallet>) -> Seq<Seq<u8>> {
    batch.map_values(|w: RawWallet| w.address@)
}

/// Indices of the wallets of `batch` whose address ends with the suffix.
pub fn matching_indices(batch: &Vec<RawWallet>, suffix_bytes: &[u8], odd_nibble: bool) -> (r: Vec<usize>)
    ensures
        r@ == match_indices(addresses_of(batch@), suffix_bytes@, odd_nibble, batch@.len()),
{
    let ghost addrs = addresses_of(batch@);
    let mut out: Vec<usize> = Vec::new();
    let n = batch.len();
    for i in 0..n
        invariant
            n == batch@.len(),
            addrs == addresses_of(batch@),
            out@ == match_indices(addrs, suffix_bytes@, odd_nibble, i as nat),
    {
        assert(addrs[i as int] == batch@[i as int].address@);
        if matches_suffix_bytes(&batch[i].address, suffix_bytes, odd_nibble) {
            out.push(i);
        }
    }
    out
}

/// Law: the matching indices of the first `n` addresses are increasing,
/// below `n`, and an index `i < n` is among them exactly when address `i`
/// matches the suffix.
pub proof fn lemma_match_indices_members(addresses: Seq<Seq<u8>>, suffix: Seq<u8>, odd: bool, n: nat)
    requires
        n <= usize::MAX,
    ensures
        forall|j: int| 0 <= j < match_indices(addresses, suffix, odd, n).len()
            ==> #[trigger] match_indices(addresses, suffix, odd, n)[j] < n,
        forall|a: int, b: int| 0 <= a < b < match_indices(addresses, suffix, odd, n).len()
            ==> match_indices(addresses, suffix, odd, n)[a] < match_indices(addresses, suffix, odd, n)[b],
        forall|i: int| 0 <= i < n ==> (match_indices(addresses, suffix, odd, n).contains(i as usize)
            <==> suffix_bytes_match(#[trigger] addresses[i], suffix, odd)),
    decreases n,
{
    if n > 0 {
        let m = (n - 1) as nat;
        lemma_match_indices_members(addresses, suffix, odd, m);
        let earlier = match_indices(addresses, suffix, odd, m);
        let r = match_indices(addresses, suffix, odd, n);
        assert forall|i: int| 0 <= i < n implies (r.contains(i as usize)
            <==> suffix_bytes_match(#[trigger] addresses[i], suffix, odd)) by {
            if i < m {
                if r.contains(i as usize) {
                    let j = choose|j: int| 0 <= j < r.len() && r[j] == i as usize;
                    if j < earlier.len() {
                        assert(earlier[j] == r[j]);
                    } else {
                        assert(r[j] == m as usize);
                    }
                }
                if earlier.contains(i as usize) {
                    let j = choose|j: int| 0 <= j < earlier.len() && earlier[j] == i as usize;
                    assert(r[j] == earlier[j]);
                }
            } else {
                if suffix_bytes_match(addresses[i], suffix, odd) {
                    assert(r[r.len() - 1] == i as usize);
                } else {
                    if r.contains(i as usize) {
                        let j = choose|j: int| 0 <= j < r.len() && r[j] == i as usize;
                        assert(earlier[j] == r[j]);
                    }
                }
            }
        }
    }
}

/// Law: the indices `matching_indices` reports for a batch are increasing,
/// and index `i` of the batch is reported exactly when the address of
/// wallet `i` matches the suffix.
pub proof fn lemma_matching_indices_of_batch(batch: Seq<RawWallet>, suffix: Seq<u8>, odd: bool)
    requires
        batch.len() <= usize::MAX,
    ensures
        forall|a: int, b: int| 0 <= a < b < match_indices(addresses_of(batch), suffix, odd, batch.len()).len()
            ==> match_indices(addresses_of(batch), suffix, odd, batch.len())[a]
                < match_indices(addresses_of(batch), suffix, odd, batch.len())[b],
        forall|i: int| 0 <= i < batch.len() ==> (match_indices(addresses_of(batch), suffix, odd, batch.len()).contains(i as usize)
            <==> suffix_bytes_match((#[trigger] batch[i]).address@, suffix, odd)),
{
    lemma_match_indices_members(addresses_of(batch), suffix, odd, batch.len());
    assert forall|i: int| 0 <= i < batch.len() implies (match_indices(addresses_of(batch), suffix, odd, batch.len()).contains(i as usize)
        <==> suffix_bytes_match((#[trigger] batch[i]).address@, suffix, odd)) by {
        assert(addresses_of(batch)[i] == batch[i].address@);
    }
}

/// The progress of a search.
pub struct SearchState {
    pub continuous: bool,
    pub target_count: usize,
    /// Wallets kept so far.
    pub found: usize,
    /// Addresses checked so far (counted modulo the word size).
    pub attempts: usize,
    /// Set when the target is reached or a stop is requested; never cleared.
    pub stopped: bool,
}

impl SearchState {
    /// In count mode no more wallets are kept than asked for.
    pub open spec fn wf(&self) -> bool {
        !self.continuous ==> self.found <= self.target_count
    }

    /// A fresh search.
    pub fn new(config: &SearchConfig) -> (r: SearchState)
        ensures
            r.wf(),
            r.continuous == config.continuous,
            r.target_count == config.target_count,
            r.found == 0,
            r.attempts == 0,
            !r.stopped,
    {
        SearchState {
            continuous: config.continuous,
            target_count: config.target_count,
            found: 0,
            attempts: 0,
            stopped: false,
        }
    }

    pub fn should_stop(&self) -> (r: bool)
        ensures
            r == self.stopped,
    {
        self.stopped
    }

    /// A stop from outside (Ctrl+C).
    pub fn request_stop(&mut self)
        ensures
            final(self).stopped,
            final(self).found == old(self).found,
            final(self).attempts == old(self).attempts,
            final(self).continuous == old(self).continuous,
            final(self).target_count == old(self).target_count,
    {
        self.stopped = true;
    }

    /// Counts the `n` addresses of a checked batch.
    pub fn record_batch(&mut self, n: usize)
        requires
            old(self).wf(),
        ensures
            final(self).wf(),
            final(self).attempts == (old(self).attempts + n) % (usize::MAX as int + 1),
            final(self).found == old(self).found,
            final(self).stopped == old(self).stopped,
            final(self).continuous == old(self).continuous,
            final(self).target_count == old(self).target_count,
    {
        self.attempts = self.attempts.wrapping_add(n);
    }

    /// Decides on a matching address. In count mode a match past the target
    /// is not kept (`None`); otherwise the wallet is kept and its one-based
    /// number returned, and in count mode the search stops when the number
    /// reaches the target. In continuous mode the count wraps at the word size.
    pub fn record_match(&mut self) -> (r: Option<usize>)
        requires
            old(self).wf(),
        ensures
            final(self).wf(),
            *final(self) == after_match(*old(self)),
            r is Some <==> match_kept(*old(self)),
            r matches Some(k) ==> k == final(self).found,
    {
        if !self.continuous && self.found >= self.target_count {
            return None;
        }
        let k = self.found.wrapping_add(1);
        self.found = k;
        if !self.continuous && k >= self.target_count {
            self.stopped = true;
        }
        Some(k)
    }
}

/// A match is kept: continuous mode, or fewer wallets than the target so far.
pub open spec fn match_kept(s: SearchState) -> bool {
    s.continuous || s.found < s.target_count
}

/// The state after deciding on one matching address.
pub open spec fn after_match(s: SearchState) -> SearchState {
    if !match_kept(s) {
        s
    } else {
        let k: usize = if s.found == usize::MAX { 0 } else { (s.found + 1) as usize };
        SearchState {
            continuous: s.continuous,
            target_count: s.target_count,
            found: k,
            attempts: s.attempts,
            stopped: s.stopped || (!s.continuous && k >= s.target_count),
        }
    }
}

/// The state after deciding on `m` matching addresses in turn.
pub open spec fn after_matches(s: SearchState, m: nat) -> SearchState
    decreases m,
{
    if m == 0 {
        s
    } else {
        after_match(after_matches(s, (m - 1) as nat))
    }
}

/// Law: a fresh search in count mode keeps exactly `min(m, target)` of `m`
/// matches, and it has stopped exactly when the target (if not zero) is
/// reached. A target of zero keeps nothing and never stops by itself.
pub proof fn lemma_count_mode_keeps_target(s: SearchState, m: nat)
    requires
        !s.continuous,
        s.found == 0,
        !s.stopped,
    ensures
        after_matches(s, m).found == if m < s.target_count { m } else { s.target_count as nat },
        after_matches(s, m).stopped <==> (s.target_count > 0 && m >= s.target_count),
        !after_matches(s, m).continuous,
        after_matches(s, m).target_count == s.target_count,
    decreases m,
{
    if m > 0 {
        lemma_count_mode_keeps_target(s, (m - 1) as nat);
    }
}

/// Law: a fresh search in continuous mode keeps every match, never stops by
/// itself, and after `m` matches has counted `m` modulo the word size.
pub proof fn lemma_continuous_mode_never_stops(s: SearchState, m: nat)
    requires
        s.continuous,
        s.found == 0,
    ensures
        after_matches(s, m).continuous,
        after_matches(s, m).stopped == s.stopped,
        after_matches(s, m).target_count == s.target_count,
        after_matches(s, m).found == m % (usize::MAX as nat + 1),
        match_kept(after_matches(s, m)),
    decreases m,
{
    let big = usize::MAX as int + 1;
    if m == 0 {
        vstd::arithmetic::div_mod::lemma_small_mod(0, big as nat);
    } else {
        lemma_continuous_mode_never_stops(s, (m - 1) as nat);
        let prev = ((m - 1) as int) % big;
        vstd::arithmetic::div_mod::lemma_add_mod_noop((m - 1) as int, 1, big);
        vstd::arithmetic::div_mod::lemma_small_mod(1, big as nat);
        if prev + 1 < big {
            vstd::arithmetic::div_mod::lemma_small_mod((prev + 1) as nat, big as nat);
        } else {
            vstd::arithmetic::div_mod::lemma_mod_self_0(big);
        }
    }
}

/// The line shown for progress: `Found k/target`, the target `inf` in
/// continuous mode.
pub open spec fn progress_line(found: nat, continuous: bool, target: nat) -> Seq<char> {
    "Found "@ + decimal(found) + "/"@ + (if continuous { "inf"@ } else { decimal(target) })
}

/// The mode shown at start: `continuous`, or `find N`.
pub open spec fn mode_line(continuous: bool, target: nat) -> Seq<char> {
    if continuous {
        "continuous"@
    } else {
        "find "@ + decimal(target)
    }
}

/// Progress text for `found` wallets.
pub fn progress_message(found: usize, config: &SearchConfig) -> (r: String)
    ensures
        r@ == progress_line(found as nat, config.continuous, config.target_count as nat),
{
    let mut s = String::from_str("Found ");
    push_decimal(&mut s, found as u64);
    s.append("/");
    if config.continuous {
        s.append("inf");
    } else {
        push_decimal(&mut s, config.target_count as u64);
    }
    s
}

/// Progress text before anything is found.
pub fn initial_progress_message(config: &SearchConfig) -> (r: String)
    ensures
        r@ == progress_line(0, config.continuous, config.target_count as nat) + "..."@,
{
    let mut s = progress_message(0, config);
    s.append("...");
    s
}

/// The search mode as shown at start.
pub fn mode_message(config: &SearchConfig) -> (r: String)
    ensures
        r@ == mode_line(config.continuous, config.target_count as nat),
{
    if config.continuous {
        String::from_str("continuous")
    } else {
        let mut s = String::from_str("find ");
        push_decimal(&mut s, config.target_count as u64);
        s
    }
}

/// File name of the backup of an existing output file:
/// `stem.timestamp` followed by `.extension` when there is one.
pub fn backup_file_name(stem: &str, timestamp: &str, extension: Option<&str>) -> (r: String)
    ensures
        r@ == stem@ + "."@ + timestamp@ + match extension {
            Some(e) => "."@ + e@,
            None => Seq::empty(),
        },
{
    let mut s = String::from_str(stem);
    s.append(".");
    s.append(timestamp);
    match extension {
        Some(e) => {
            s.append(".");
            s.append(e);
        },
        None => {},
    }
    assert(s@ =~= stem@ + "."@ + timestamp@ + match extension {
        Some(e) => "."@ + e@,
        None => Seq::empty(),
    });
    s
}

} // verus!
