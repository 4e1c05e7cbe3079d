//! Suffix validation, hex decoding of the suffix, and suffix matching
//! against raw 20-byte addresses and against strings.

use vstd::prelude::*;
use vstd::string::StringSliceAdditionalSpecFns;
use vstd::utf8::encode_utf8;
use vstd::utf8::is_ascii_chars_encode_utf8;
use crate::primitives::{ascii_lowercase, str_to_lowercase, unicode_lowercase};
use crate::text::{hex_digit, hex_lower};

verus! {

/// Longest accepted suffix, in bytes of its UTF-8 encoding (a full address).
pub const MAX_SUFFIX_LEN: usize = 40;

/// Length of an address in bytes.
pub const ADDRESS_LEN: usize = 20;

/// `c` is an ASCII hex digit of either case.
pub open spec fn is_hex_char(c: char) -> bool {
    ('0' <= c <= '9') || ('a' <= c <= 'f') || ('A' <= c <= 'F')
}

/// `c` is an ASCII hex digit in lowercase (or a decimal digit).
pub open spec fn is_lower_hex_char(c: char) -> bool {
    ('0' <= c <= '9') || ('a' <= c <= 'f')
}

/// Every character of `s` is an ASCII hex digit.
pub open spec fn all_hex(s: Seq<char>) -> bool {
    forall|i: int| 0 <= i < s.len() ==> #[trigger] is_hex_char(s[i])
}

/// Every character of `s` is a lowercase hex digit.
pub open spec fn all_lower_hex(s: Seq<char>) -> bool {
    forall|i: int| 0 <= i < s.len() ==> #[trigger] is_lower_hex_char(s[i])
}

/// Number of bytes of the UTF-8 encoding of `s`.
pub open spec fn utf8_len(s: Seq<char>) -> nat {
    encode_utf8(s).len()
}

/// A lowercased suffix that validation accepts.
pub open spec fn suffix_accepted(lower: Seq<char>) -> bool {
    &&& lower.len() > 0
    &&& utf8_len(lower) <= MAX_SUFFIX_LEN
    &&& all_hex(lower)
}

pub open spec fn empty_suffix_message() -> Seq<char> {
    "Suffix cannot be empty"@
}

pub open spec fn long_suffix_message() -> Seq<char> {
    "Suffix cannot exceed 40 hex chars (full ETH address)"@
}

pub open spec fn invalid_hex_message(suffix: Seq<char>) -> Seq<char> {
    "Invalid hex in suffix: '"@ + suffix + "'"@
}

/// The message of a rejected suffix: the first failing check, in the order
/// empty, too long, not hex.
pub open spec fn suffix_error(suffix: Seq<char>, lower: Seq<char>) -> Seq<char> {
    if lower.len() == 0 {
        empty_suffix_message()
    } else if utf8_len(lower) > MAX_SUFFIX_LEN {
        long_suffix_message()
    } else {
        invalid_hex_message(suffix)
    }
}

/// The value of a hex digit.
pub open spec fn nibble_value(c: char) -> int {
    if '0' <= c <= '9' {
        c as int - 48
    } else if 'a' <= c <= 'f' {
        c as int - 87
    } else {
        c as int - 55
    }
}

/// A hex string brought to even length by a leading `'0'`.
pub open spec fn padded(s: Seq<char>) -> Seq<char> {
    if s.len() % 2 == 1 {
        seq!['0'] + s
    } else {
        s
    }
}

/// Bytes of an even-length hex string, two digits per byte, high nibble first.
pub open spec fn hex_decode(p: Seq<char>) -> Seq<u8> {
    Seq::new(
        p.len() / 2,
        |i: int| (nibble_value(p[2 * i]) * 16 + nibble_value(p[2 * i + 1])) as u8,
    )
}

/// `b` is a suffix of `a`.
pub open spec fn ends_with<A>(a: Seq<A>, b: Seq<A>) -> bool {
    b.len() <= a.len() && a.subrange(a.len() - b.len(), a.len() as int) == b
}

/// Byte-level suffix match of a 20-byte address against decoded suffix bytes:
/// when `odd_nibble` holds, only the low nibble of the first suffix byte counts.
pub open spec fn suffix_bytes_match(address: Seq<u8>, suffix: Seq<u8>, odd_nibble: bool) -> bool {
    let n = suffix.len();
    if n == 0 || n > ADDRESS_LEN {
        false
    } else {
        let tail = address.subrange(ADDRESS_LEN - n, ADDRESS_LEN as int);
        if odd_nibble {
            tail[0] % 16 == suffix[0] % 16 && tail.drop_first() == suffix.drop_first()
        } else {
            tail == suffix
        }
    }
}

fn is_hex_digit(c: char) -> (r: bool)
    ensures
        r == is_hex_char(c),
{
    ('0' <= c && c <= '9') || ('a' <= c && c <= 'f') || ('A' <= c && c <= 'F')
}

/// Checks an already lowercased suffix: it must be non-empty, at most
/// `MAX_SUFFIX_LEN` bytes long and hex only. `suffix` is the text as given,
/// quoted in the message for a non-hex suffix.
pub fn check_lowered_suffix(suffix: &str, lower: String) -> (r: Result<String, String>)
    ensures
        r is Ok <==> suffix_accepted(lower@),
        r matches Ok(v) ==> v@ == lower@,
        r matches Err(e) ==> e@ == suffix_error(suffix@, lower@),
{
    let l = lower.as_str();
    assert(l.spec_bytes() == encode_utf8(lower@));
    if l.is_empty() {
        return Err(String::from_str("Suffix cannot be empty"));
    }
    if l.as_bytes().len() > MAX_SUFFIX_LEN {
        return Err(String::from_str("Suffix cannot exceed 40 hex chars (full ETH address)"));
    }
    let n = l.unicode_len();
    let mut i: usize = 0;
    while i < n
        invariant
            n == l@.len(),
            l@ == lower@,
            lower@.len() > 0,
            utf8_len(lower@) <= MAX_SUFFIX_LEN,
            i <= n,
            forall|j: int| 0 <= j < i ==> #[trigger] is_hex_char(l@[j]),
        decreases n - i,
    {
        if !is_hex_digit(l.get_char(i)) {
            let mut e = String::from_str("Invalid hex in suffix: '");
            e.append(suffix);
            e.append("'");
            return Err(e);
        }
        i = i + 1;
    }
    Ok(lower)
}

/// The lowercase of a suffix: its ASCII lowercase when it is ASCII, its
/// Unicode lowercase otherwise (the two agree on ASCII text).
pub open spec fn suffix_lowercase(s: Seq<char>) -> Seq<char> {
    if vstd::utf8::is_ascii_chars(s) {
        ascii_lowercase(s)
    } else {
        unicode_lowercase(s)
    }
}

/// Validates a suffix: its lowercase must be non-empty, at most
/// `MAX_SUFFIX_LEN` bytes and hex only; it is returned when accepted.
pub fn validate_suffix(suffix: &str) -> (r: Result<String, String>)
    ensures
        r is Ok <==> suffix_accepted(suffix_lowercase(suffix@)),
        r matches Ok(v) ==> v@ == suffix_lowercase(suffix@),
        r matches Err(e) ==> e@ == suffix_error(suffix@, suffix_lowercase(suffix@)),
{
    let lower = str_to_lowercase(suffix);
    check_lowered_suffix(suffix, lower)
}

fn nibble(c: char) -> (r: u8)
    requires
        is_hex_char(c),
    ensures
        r as int == nibble_value(c),
        r < 16,
{
    let v = c as u32;
    if c <= '9' {
        (v - 48) as u8
    } else if c <= 'F' {
        (v - 55) as u8
    } else {
        (v - 87) as u8
    }
}

proof fn lemma_hex_is_ascii(s: Seq<char>)
    requires
        all_hex(s),
    ensures
        encode_utf8(s).len() == s.len(),
{
    assert forall|i: int| 0 <= i < s.len() implies '\0' <= #[trigger] s[i] <= '\u{7f}' by {
        assert(is_hex_char(s[i]));
    }
    is_ascii_chars_encode_utf8(s);
}

/// Converts a hex suffix to bytes for byte-level matching. An odd-length
/// suffix is read with a leading `'0'`; the flag tells that its first byte
/// carries a single nibble of the suffix.
pub fn suffix_to_bytes(hex_suffix: &str) -> (r: (Vec<u8>, bool))
    requires
        all_hex(hex_suffix@),
    ensures
        r.1 == (hex_suffix@.len() % 2 == 1),
        r.0@ == hex_decode(padded(hex_suffix@)),
{
    proof {
        lemma_hex_is_ascii(hex_suffix@);
    }
    let ghost s = hex_suffix@;
    let ghost p = padded(s);
    assert(hex_suffix.spec_bytes() == encode_utf8(s));
    let len = hex_suffix.as_bytes().len();
    assert(p.len() == s.len() + s.len() % 2);
    let odd = len % 2 != 0;
    let out_len = len / 2 + len % 2;
    let mut bytes: Vec<u8> = Vec::new();
    let mut k: usize = 0;
    while k < out_len
        invariant
            len == s.len(),
            s == hex_suffix@,
            all_hex(s),
            p == padded(s),
            odd == (s.len() % 2 == 1),
            out_len == p.len() / 2,
            k <= out_len,
            bytes@.len() == k,
            forall|j: int| 0 <= j < k ==> #[trigger] bytes@[j] == hex_decode(p)[j],
        decreases out_len - k,
    {
        let b: u8;
        if odd {
            if k == 0 {
                let lo = nibble(hex_suffix.get_char(0));
                b = lo;
                assert(p[0] == '0' && p[1] == s[0]);
            } else {
                let hi = nibble(hex_suffix.get_char(2 * k - 1));
                let lo = nibble(hex_suffix.get_char(2 * k));
                b = hi * 16 + lo;
                assert(p[2 * k as int] == s[2 * k - 1] && p[2 * k + 1] == s[2 * k as int]);
            }
        } else {
            let hi = nibble(hex_suffix.get_char(2 * k));
            let lo = nibble(hex_suffix.get_char(2 * k + 1));
            b = hi * 16 + lo;
        }
        bytes.push(b);
        k = k + 1;
    }
    assert(bytes@ =~= hex_decode(p));
    (bytes, odd)
}

/// Byte-level suffix matching against a raw 20-byte address.
pub fn matches_suffix_bytes(address: &[u8; 20], suffix_bytes: &[u8], odd_nibble: bool) -> (r: bool)
    ensures
        r == suffix_bytes_match(address@, suffix_bytes@, odd_nibble),
{
    let n = suffix_bytes.len();
    if n == 0 || n > ADDRESS_LEN {
        return false;
    }
    let start = ADDRESS_LEN - n;
    let ghost tail = address@.subrange(start as int, ADDRESS_LEN as int);
    let mut i: usize = 0;
    if odd_nibble {
        let a0 = address[start];
        let s0 = suffix_bytes[0];
        assert(a0 & 0x0F == a0 % 16) by (bit_vector);
        assert(s0 & 0x0F == s0 % 16) by (bit_vector);
        if (a0 & 0x0F) != (s0 & 0x0F) {
            return false;
        }
        i = 1;
    }
    while i < n
        invariant
            n == suffix_bytes@.len(),
            1 <= n <= ADDRESS_LEN,
            start == ADDRESS_LEN - n,
            tail == address@.subrange(start as int, ADDRESS_LEN as int),
            i <= n,
            odd_nibble ==> 1 <= i,
            odd_nibble ==> tail[0] % 16 == suffix_bytes@[0] % 16,
            forall|j: int| (if odd_nibble { 1int } else { 0int }) <= j < i ==> #[trigger] tail[j] == suffix_bytes@[j],
        decreases n - i,
    {
        if address[start + i] != suffix_bytes[i] {
            assert(tail[i as int] != suffix_bytes@[i as int]);
            if odd_nibble {
                assert(tail.drop_first()[i - 1] != suffix_bytes@.drop_first()[i - 1]);
            }
            return false;
        }
        i = i + 1;
    }
    if odd_nibble {
        assert(tail.drop_first() =~= suffix_bytes@.drop_first());
    } else {
        assert(tail =~= suffix_bytes@);
    }
    true
}

/// String suffix matching: the UTF-8 bytes of `suffix` end those of `address`.
pub fn matches_suffix(address: &str, suffix: &str) -> (r: bool)
    ensures
        r == ends_with(encode_utf8(address@), encode_utf8(suffix@)),
{
    let a = address.as_bytes();
    let s = suffix.as_bytes();
    assert(address.spec_bytes() == encode_utf8(address@));
    assert(suffix.spec_bytes() == encode_utf8(suffix@));
    let la = a.len();
    let ls = s.len();
    if ls > la {
        return false;
    }
    let off = la - ls;
    let ghost tail = a@.subrange(off as int, la as int);
    let mut i: usize = 0;
    while i < ls
        invariant
            la == a@.len(),
            ls == s@.len(),
            a@ == encode_utf8(address@),
            s@ == encode_utf8(suffix@),
            ls <= la,
            off == la - ls,
            tail == a@.subrange(off as int, la as int),
            i <= ls,
            forall|j: int| 0 <= j < i ==> #[trigger] tail[j] == s@[j],
        decreases ls - i,
    {
        if a[off + i] != s[i] {
            assert(tail[i as int] != s@[i as int]);
            assert(tail != s@);
            return false;
        }
        i = i + 1;
    }
    assert(tail =~= s@);
    true
}


proof fn lemma_digit(v: int, c: char)
    requires
        0 <= v < 16,
        is_lower_hex_char(c),
    ensures
        (hex_digit(v) == c) == (v == nibble_value(c)),
        0 <= nibble_value(c) < 16,
{
}

/// Two lowercase hex digits render a byte exactly when the byte is the
/// value they spell.
proof fn lemma_hex_pair(b: u8, hi: char, lo: char)
    requires
        is_lower_hex_char(hi),
        is_lower_hex_char(lo),
    ensures
        (hex_digit((b / 16) as int) == hi && hex_digit((b % 16) as int) == lo)
            == (b == (nibble_value(hi) * 16 + nibble_value(lo)) as u8),
{
    lemma_digit((b / 16) as int, hi);
    lemma_digit((b % 16) as int, lo);
}

/// One lowercase hex digit renders the low nibble of a byte exactly when it
/// spells that nibble.
proof fn lemma_hex_low(b: u8, lo: char)
    requires
        is_lower_hex_char(lo),
    ensures
        (hex_digit((b % 16) as int) == lo) == (b % 16 == ((0 * 16 + nibble_value(lo)) as u8) % 16),
{
    lemma_digit((b % 16) as int, lo);
}

/// The padded suffix is lowercase hex, and the suffix sits at its end.
proof fn lemma_padded_lower_hex(s: Seq<char>)
    requires
        all_lower_hex(s),
    ensures
        padded(s).len() == s.len() + s.len() % 2,
        forall|k: int| 0 <= k < padded(s).len() ==> #[trigger] is_lower_hex_char(padded(s)[k]),
        forall|k: int| 0 <= k < s.len() ==> #[trigger] s[k] == padded(s)[k + s.len() % 2],
{
    let p = padded(s);
    assert forall|k: int| 0 <= k < p.len() implies #[trigger] is_lower_hex_char(p[k]) by {
        if s.len() % 2 == 1 {
            if k > 0 {
                assert(p[k] == s[k - 1]);
                assert(is_lower_hex_char(s[k - 1]));
            }
        } else {
            assert(is_lower_hex_char(s[k]));
        }
    }
    assert forall|k: int| 0 <= k < s.len() implies #[trigger] s[k] == p[k + s.len() % 2] by {
        if s.len() % 2 == 1 {
            assert(p[k + 1] == s[k]);
        }
    }
}

/// The rendering of byte `20 - n + j` of an address sits at positions
/// `40 - 2n + 2j` and `40 - 2n + 2j + 1` of its hex text.
proof fn lemma_render_positions(address: Seq<u8>, n: int)
    requires
        address.len() == ADDRESS_LEN,
        1 <= n <= 20,
    ensures
        forall|j: int| 0 <= j < n ==> {
            &&& #[trigger] hex_lower(address)[40 - 2 * n + 2 * j] == hex_digit((address[20 - n + j] / 16) as int)
            &&& hex_lower(address)[40 - 2 * n + 2 * j + 1] == hex_digit((address[20 - n + j] % 16) as int)
        },
{
    assert forall|j: int| 0 <= j < n implies {
        &&& #[trigger] hex_lower(address)[40 - 2 * n + 2 * j] == hex_digit((address[20 - n + j] / 16) as int)
        &&& hex_lower(address)[40 - 2 * n + 2 * j + 1] == hex_digit((address[20 - n + j] % 16) as int)
    } by {
        assert((40 - 2 * n + 2 * j) / 2 == 20 - n + j);
        assert((40 - 2 * n + 2 * j + 1) / 2 == 20 - n + j);
        assert((40 - 2 * n + 2 * j) % 2 == 0);
        assert((40 - 2 * n + 2 * j + 1) % 2 == 1);
    }
}

/// A byte-level match makes the hex text of the address end with the suffix.
proof fn lemma_byte_match_gives_hex_suffix(address: Seq<u8>, s: Seq<char>)
    requires
        address.len() == ADDRESS_LEN,
        all_lower_hex(s),
        1 <= s.len() <= 2 * ADDRESS_LEN,
        suffix_bytes_match(address, hex_decode(padded(s)), s.len() % 2 == 1),
    ensures
        ends_with(hex_lower(address), s),
{
    let p = padded(s);
    let sb = hex_decode(p);
    let odd = s.len() % 2 == 1;
    let n = sb.len() as int;
    let h = hex_lower(address);
    let off = 40 - s.len();
    let tail = address.subrange(20 - n, 20);
    lemma_padded_lower_hex(s);
    assert(n == p.len() / 2 && 1 <= n <= 20);
    lemma_render_positions(address, n);
    assert forall|k: int| 0 <= k < s.len() implies #[trigger] h.subrange(off, 40)[k] == s[k] by {
        let q = k + (p.len() - s.len());
        let j = q / 2;
        assert(s[k] == p[q]);
        assert(0 <= j < n);
        assert(off + k == 40 - 2 * n + q);
        assert(tail[j] == address[20 - n + j]);
        assert(h[40 - 2 * n + 2 * j] == hex_digit((address[20 - n + j] / 16) as int));
        lemma_hex_pair(tail[j], p[2 * j], p[2 * j + 1]);
        if odd && j == 0 {
            lemma_hex_low(tail[0], p[1]);
            assert(q == 1);
        } else {
            if odd {
                assert(tail.drop_first()[j - 1] == sb.drop_first()[j - 1]);
            }
            assert(tail[j] == sb[j]);
            if q % 2 == 0 {
                assert(q == 2 * j);
            } else {
                assert(q == 2 * j + 1);
            }
        }
    }
    assert(h.subrange(off, 40) =~= s);
}

/// A hex text of the address ending with the suffix gives a byte-level match.
proof fn lemma_hex_suffix_gives_byte_match(address: Seq<u8>, s: Seq<char>)
    requires
        address.len() == ADDRESS_LEN,
        all_lower_hex(s),
        1 <= s.len() <= 2 * ADDRESS_LEN,
        ends_with(hex_lower(address), s),
    ensures
        suffix_bytes_match(address, hex_decode(padded(s)), s.len() % 2 == 1),
{
    let p = padded(s);
    let sb = hex_decode(p);
    let odd = s.len() % 2 == 1;
    let n = sb.len() as int;
    let h = hex_lower(address);
    let off = 40 - s.len();
    let tail = address.subrange(20 - n, 20);
    lemma_padded_lower_hex(s);
    assert(n == p.len() / 2 && 1 <= n <= 20);
    lemma_render_positions(address, n);
    assert(h.subrange(off, 40) == s);
    assert forall|j: int| (if odd { 1int } else { 0int }) <= j < n implies #[trigger] tail[j] == sb[j] by {
        let q = 2 * j;
        assert(tail[j] == address[20 - n + j]);
        assert(h[40 - 2 * n + 2 * j] == hex_digit((address[20 - n + j] / 16) as int));
        assert(p[q] == s[q - (p.len() - s.len())]);
        assert(p[q + 1] == s[q + 1 - (p.len() - s.len())]);
        assert(p[q] == h.subrange(off, 40)[q - (p.len() - s.len())]);
        assert(p[q + 1] == h.subrange(off, 40)[q + 1 - (p.len() - s.len())]);
        lemma_hex_pair(tail[j], p[2 * j], p[2 * j + 1]);
    }
    if odd {
        assert(tail[0] == address[20 - n]);
        assert(h[40 - 2 * n + 1] == hex_digit((address[20 - n] % 16) as int));
        assert(p[1] == s[0]);
        assert(p[1] == h.subrange(off, 40)[0]);
        lemma_hex_low(tail[0], p[1]);
        assert(tail[0] % 16 == sb[0] % 16);
        assert(tail.drop_first() =~= sb.drop_first());
    } else {
        assert(tail =~= sb);
    }
}

/// Law: matching the decoded suffix bytes against a raw address agrees with
/// asking whether the lowercase hex rendering of the address ends with the
/// suffix text. This holds for every lowercase hex suffix that validation
/// accepts (one to forty digits), odd lengths included.
pub proof fn lemma_byte_match_is_hex_suffix(address: Seq<u8>, s: Seq<char>)
    requires
        address.len() == ADDRESS_LEN,
        all_lower_hex(s),
        1 <= s.len() <= 2 * ADDRESS_LEN,
    ensures
        suffix_bytes_match(address, hex_decode(padded(s)), s.len() % 2 == 1)
            == ends_with(hex_lower(address), s),
{
    if suffix_bytes_match(address, hex_decode(padded(s)), s.len() % 2 == 1) {
        lemma_byte_match_gives_hex_suffix(address, s);
    }
    if ends_with(hex_lower(address), s) {
        lemma_hex_suffix_gives_byte_match(address, s);
    }
}

/// Law: rendering the decoded suffix bytes in lowercase hex gives back the
/// (zero-padded) suffix, for every lowercase hex suffix.
pub proof fn lemma_decode_then_encode(s: Seq<char>)
    requires
        all_lower_hex(s),
    ensures
        hex_lower(hex_decode(padded(s))) == padded(s),
{
    let p = padded(s);
    let d = hex_decode(p);
    assert(p.len() == s.len() + s.len() % 2);
    assert forall|k: int| 0 <= k < p.len() implies #[trigger] is_lower_hex_char(p[k]) by {
        if s.len() % 2 == 1 {
            if k > 0 {
                assert(p[k] == s[k - 1]);
                assert(is_lower_hex_char(s[k - 1]));
            }
        } else {
            assert(is_lower_hex_char(s[k]));
        }
    }
    assert forall|k: int| 0 <= k < p.len() implies #[trigger] hex_lower(d)[k] == p[k] by {
        let j = k / 2;
        assert(is_lower_hex_char(p[2 * j]));
        assert(is_lower_hex_char(p[2 * j + 1]));
        lemma_hex_pair(d[j], p[2 * j], p[2 * j + 1]);
    }
    assert(hex_lower(d) =~= p);
}


/// ASCII lowercase of a hex digit (`A`-`F` to `a`-`f`).
pub open spec fn hex_char_lower(c: char) -> char {
    if 'A' <= c <= 'F' {
        ((c as int) + 32) as char
    } else {
        c
    }
}

/// A hex string with its letters in lowercase.
pub open spec fn lowercase_hex(s: Seq<char>) -> Seq<char> {
    s.map_values(|c: char| hex_char_lower(c))
}

proof fn lemma_lowercase_hex(s: Seq<char>)
    requires
        all_hex(s),
    ensures
        all_lower_hex(lowercase_hex(s)),
        lowercase_hex(s).len() == s.len(),
        hex_decode(padded(lowercase_hex(s))) == hex_decode(padded(s)),
{
    let l = lowercase_hex(s);
    assert forall|i: int| 0 <= i < l.len() implies #[trigger] is_lower_hex_char(l[i]) by {
        assert(is_hex_char(s[i]));
    }
    let p = padded(s);
    let q = padded(l);
    assert(p.len() == q.len());
    assert forall|k: int| 0 <= k < p.len() implies #[trigger] nibble_value(q[k]) == nibble_value(p[k]) by {
        if s.len() % 2 == 1 {
            if k > 0 {
                assert(q[k] == l[k - 1] && p[k] == s[k - 1]);
                assert(is_hex_char(s[k - 1]));
            }
        } else {
            assert(is_hex_char(s[k]));
        }
    }
    let dq = hex_decode(q);
    let dp = hex_decode(p);
    assert forall|j: int| 0 <= j < dp.len() implies dq[j] == dp[j] by {
        assert(nibble_value(q[2 * j]) == nibble_value(p[2 * j]));
        assert(nibble_value(q[2 * j + 1]) == nibble_value(p[2 * j + 1]));
    }
    assert(dq =~= dp);
}

/// Law: matching the decoded bytes of any accepted hex suffix (either case)
/// against a raw address agrees with asking whether the lowercase hex
/// rendering of the address ends with the suffix in lowercase.
pub proof fn lemma_byte_match_is_hex_suffix_any_case(address: Seq<u8>, s: Seq<char>)
    requires
        address.len() == ADDRESS_LEN,
        all_hex(s),
        1 <= s.len() <= 2 * ADDRESS_LEN,
    ensures
        suffix_bytes_match(address, hex_decode(padded(s)), s.len() % 2 == 1)
            == ends_with(hex_lower(address), lowercase_hex(s)),
{
    lemma_lowercase_hex(s);
    lemma_byte_match_is_hex_suffix(address, lowercase_hex(s));
}

/// The lowercase hex rendering of bytes is twice as long and lowercase hex.
pub proof fn lemma_hex_lower_shape(bytes: Seq<u8>)
    ensures
        hex_lower(bytes).len() == 2 * bytes.len(),
        all_lower_hex(hex_lower(bytes)),
{
    assert forall|i: int| 0 <= i < hex_lower(bytes).len() implies #[trigger] is_lower_hex_char(hex_lower(bytes)[i]) by {
        let b = bytes[i / 2];
        assert(b / 16 < 16);
    }
}

/// For ASCII text, a suffix of the UTF-8 bytes is a suffix of the characters.
pub proof fn lemma_ascii_ends_with(a: Seq<char>, b: Seq<char>)
    requires
        vstd::utf8::is_ascii_chars(a),
        vstd::utf8::is_ascii_chars(b),
    ensures
        ends_with(encode_utf8(a), encode_utf8(b)) == ends_with(a, b),
{
    is_ascii_chars_encode_utf8(a);
    is_ascii_chars_encode_utf8(b);
    let ea = encode_utf8(a);
    let eb = encode_utf8(b);
    if b.len() <= a.len() {
        let off = a.len() - b.len();
        if ends_with(a, b) {
            assert forall|i: int| 0 <= i < eb.len() implies #[trigger] ea.subrange(off, ea.len() as int)[i] == eb[i] by {
                assert(a.subrange(off, a.len() as int)[i] == b[i]);
                assert(ea[off + i] == a[off + i] as u8);
            }
            assert(ea.subrange(off, ea.len() as int) =~= eb);
        }
        if ends_with(ea, eb) {
            assert forall|i: int| 0 <= i < b.len() implies #[trigger] a.subrange(off, a.len() as int)[i] == b[i] by {
                assert(ea.subrange(off, ea.len() as int)[i] == eb[i]);
                assert(ea[off + i] == a[off + i] as u8);
                assert(eb[i] == b[i] as u8);
                assert('\0' <= a[off + i] <= '\u{7f}');
                assert('\0' <= b[i] <= '\u{7f}');
            }
            assert(a.subrange(off, a.len() as int) =~= b);
        }
    }
}

/// Law: the string matcher on the hex rendering of an address and the byte
/// matcher on the decoded suffix agree, for every accepted hex suffix.
pub proof fn lemma_string_and_byte_match_agree(address: Seq<u8>, s: Seq<char>)
    requires
        address.len() == ADDRESS_LEN,
        all_hex(s),
        1 <= s.len() <= 2 * ADDRESS_LEN,
    ensures
        ends_with(encode_utf8(hex_lower(address)), encode_utf8(lowercase_hex(s)))
            == suffix_bytes_match(address, hex_decode(padded(s)), s.len() % 2 == 1),
{
    lemma_byte_match_is_hex_suffix_any_case(address, s);
    lemma_hex_lower_shape(address);
    lemma_lowercase_hex(s);
    let h = hex_lower(address);
    let l = lowercase_hex(s);
    assert forall|i: int| 0 <= i < h.len() implies '\0' <= #[trigger] h[i] <= '\u{7f}' by {
        assert(is_lower_hex_char(h[i]));
    }
    assert forall|i: int| 0 <= i < l.len() implies '\0' <= #[trigger] l[i] <= '\u{7f}' by {
        assert(is_lower_hex_char(l[i]));
    }
    lemma_ascii_ends_with(h, l);
}

/// Law: validating an accepted ASCII suffix a second time accepts it and
/// gives back the same text.
pub proof fn lemma_validate_idempotent_ascii(s: Seq<char>)
    requires
        vstd::utf8::is_ascii_chars(s),
        suffix_accepted(suffix_lowercase(s)),
    ensures
        suffix_lowercase(suffix_lowercase(s)) == suffix_lowercase(s),
        suffix_accepted(suffix_lowercase(suffix_lowercase(s))),
{
    let l = ascii_lowercase(s);
    assert forall|i: int| 0 <= i < l.len() implies '\0' <= #[trigger] l[i] <= '\u{7f}' by {
        assert('\0' <= s[i] <= '\u{7f}');
    }
    assert(ascii_lowercase(l) =~= l);
}

/// Uppercase form of a lowercase hex digit (`a`-`f` to `A`-`F`).
pub open spec fn hex_char_upper(c: char) -> char {
    if 'a' <= c <= 'f' {
        ((c as int) - 32) as char
    } else {
        c
    }
}

/// Uppercase hex rendering of bytes.
pub open spec fn hex_upper(bytes: Seq<u8>) -> Seq<char> {
    hex_lower(bytes).map_values(|c: char| hex_char_upper(c))
}

proof fn lemma_lower_hex_is_ascii(t: Seq<char>)
    requires
        all_lower_hex(t),
    ensures
        vstd::utf8::is_ascii_chars(t),
        utf8_len(t) == t.len(),
        all_hex(t),
        ascii_lowercase(t) == t,
{
    assert forall|i: int| 0 <= i < t.len() implies '\0' <= #[trigger] t[i] <= '\u{7f}' by {
        assert(is_lower_hex_char(t[i]));
    }
    assert forall|i: int| 0 <= i < t.len() implies #[trigger] is_hex_char(t[i]) by {
        assert(is_lower_hex_char(t[i]));
    }
    is_ascii_chars_encode_utf8(t);
    assert forall|i: int| 0 <= i < t.len() implies #[trigger] ascii_lowercase(t)[i] == t[i] by {
        assert(is_lower_hex_char(t[i]));
    }
    assert(ascii_lowercase(t) =~= t);
}

/// Law: every non-empty tail of the lowercase hex rendering of at most 20
/// bytes (every suffix of an address's hex text, of one to forty digits,
/// digits `0`-`9` included) is accepted by validation, unchanged.
pub proof fn lemma_hex_tail_accepted(bytes: Seq<u8>, start: int)
    requires
        bytes.len() <= ADDRESS_LEN,
        0 <= start < 2 * bytes.len(),
    ensures
        suffix_lowercase(hex_lower(bytes).subrange(start, 2 * bytes.len() as int))
            == hex_lower(bytes).subrange(start, 2 * bytes.len() as int),
        suffix_accepted(hex_lower(bytes).subrange(start, 2 * bytes.len() as int)),
{
    lemma_hex_lower_shape(bytes);
    let t = hex_lower(bytes).subrange(start, 2 * bytes.len() as int);
    assert forall|i: int| 0 <= i < t.len() implies #[trigger] is_lower_hex_char(t[i]) by {
        assert(is_lower_hex_char(hex_lower(bytes)[start + i]));
    }
    lemma_lower_hex_is_ascii(t);
}

/// Law: every non-empty tail of the uppercase hex rendering of at most 20
/// bytes is accepted by validation and lowercased to the same tail of the
/// lowercase rendering.
pub proof fn lemma_upper_hex_tail_accepted(bytes: Seq<u8>, start: int)
    requires
        bytes.len() <= ADDRESS_LEN,
        0 <= start < 2 * bytes.len(),
    ensures
        suffix_lowercase(hex_upper(bytes).subrange(start, 2 * bytes.len() as int))
            == hex_lower(bytes).subrange(start, 2 * bytes.len() as int),
        suffix_accepted(suffix_lowercase(hex_upper(bytes).subrange(start, 2 * bytes.len() as int))),
{
    lemma_hex_tail_accepted(bytes, start);
    lemma_hex_lower_shape(bytes);
    let l = hex_lower(bytes).subrange(start, 2 * bytes.len() as int);
    let u = hex_upper(bytes).subrange(start, 2 * bytes.len() as int);
    assert forall|i: int| 0 <= i < u.len() implies '\0' <= #[trigger] u[i] <= '\u{7f}' && ascii_lowercase(u)[i] == l[i] by {
        assert(is_lower_hex_char(hex_lower(bytes)[start + i]));
        assert(u[i] == hex_char_upper(hex_lower(bytes)[start + i]));
    }
    assert(ascii_lowercase(u) =~= l);
}

} // verus!
