//! Trusted items: the calls into std and outside crates that the verified
//! code makes, each with the contract that the called code is believed to
//! meet, and the names given to results that take pages to state.

use vstd::prelude::*;
use hmac::Mac;
use tiny_keccak::Hasher;

verus! {

// ---------------------------------------------------------------------
// std

/// The Unicode lowercase mapping of a string, as std's `str::to_lowercase`
/// computes it.
pub uninterp spec fn unicode_lowercase(s: Seq<char>) -> Seq<char>;

/// ASCII lowercase: `A`-`Z` to `a`-`z`, every other character kept.
pub open spec fn ascii_lowercase(s: Seq<char>) -> Seq<char> {
    s.map_values(|c: char| if 'A' <= c <= 'Z' { ((c as int) + 32) as char } else { c })
}

/// std's `str::to_lowercase`. The result is named; the Unicode tables it
/// follows are not restated, except that ASCII text maps to its ASCII
/// lowercase (the Unicode lowercase of an ASCII letter is the ASCII one).
#[verifier::external_body]
pub(crate) fn str_to_lowercase(s: &str) -> (r: String)
    ensures
        r@ == unicode_lowercase(s@),
        vstd::utf8::is_ascii_chars(s@) ==> r@ == ascii_lowercase(s@),
{
    s.to_lowercase()
}

/// std's `String::push`: appends one character.
#[verifier::external_body]
pub(crate) fn push_char(s: &mut String, c: char)
    ensures
        final(s)@ == old(s)@.push(c),
{
    s.push(c);
}

// ---------------------------------------------------------------------
// hmac + sha2

/// HMAC-SHA512 of `data` under `key`.
pub uninterp spec fn hmac_sha512_spec(key: Seq<u8>, data: Seq<u8>) -> Seq<u8>;

/// `hmac::Hmac<sha2::Sha512>`: keyed with `key` (any length is accepted by
/// `new_from_slice`), fed `data` in one `update`, and finalized. The result
/// is named, not restated.
#[verifier::external_body]
pub(crate) fn hmac_sha512(key: &[u8], data: &[u8]) -> (r: [u8; 64])
    ensures
        r@ == hmac_sha512_spec(key@, data@),
{
    let mut mac = hmac::Hmac::<sha2::Sha512>::new_from_slice(key).expect("HMAC accepts keys of any length");
    mac.update(data);
    let tag = mac.finalize().into_bytes();
    let mut out = [0u8; 64];
    out.copy_from_slice(&tag);
    out
}

// ---------------------------------------------------------------------
// tiny-keccak

/// Keccak-256 (the original Keccak padding, as Ethereum uses it) of `data`.
pub uninterp spec fn keccak256_spec(data: Seq<u8>) -> Seq<u8>;

/// `tiny_keccak::Keccak::v256`, fed `data` and finalized into 32 bytes.
#[verifier::external_body]
pub(crate) fn keccak256(data: &[u8]) -> (r: [u8; 32])
    ensures
        r@ == keccak256_spec(data@),
{
    let mut hasher = tiny_keccak::Keccak::v256();
    hasher.update(data);
    let mut out = [0u8; 32];
    hasher.finalize(&mut out);
    out
}

// ---------------------------------------------------------------------
// secp256k1

/// The order of the secp256k1 group.
pub open spec fn curve_order() -> nat {
    0xFFFFFFFFFFFFFFFFFFFFFFFFFFFFFFFEBAAEDCE6AF48A03BBFD25E8CD0364141nat
}

/// Big-endian value of a byte string.
pub open spec fn be_nat(s: Seq<u8>) -> nat
    decreases s.len(),
{
    if s.len() == 0 {
        0
    } else {
        be_nat(s.drop_last()) * 256 + s.last() as nat
    }
}

/// The `len`-byte big-endian encoding of `n` (reduced modulo `256^len`).
pub open spec fn be_bytes(n: nat, len: nat) -> Seq<u8>
    decreases len,
{
    if len == 0 {
        seq![]
    } else {
        be_bytes(n / 256, (len - 1) as nat).push((n % 256) as u8)
    }
}

/// A secp256k1 secret key: 32 bytes whose big-endian value is neither zero
/// nor at least the group order.
pub open spec fn is_valid_secret(s: Seq<u8>) -> bool {
    s.len() == 32 && 0 < be_nat(s) < curve_order()
}

/// `secp256k1::SecretKey::from_slice`: accepts exactly the 32-byte strings
/// that `secp256k1_ec_seckey_verify` accepts (non-zero and below the group
/// order, read big-endian) and keeps their bytes (`secret_bytes`).
#[verifier::external_body]
pub(crate) fn secret_key_from_slice(data: &[u8]) -> (r: Option<[u8; 32]>)
    ensures
        r is Some <==> is_valid_secret(data@),
        r matches Some(k) ==> k@ == data@,
{
    match secp256k1::SecretKey::from_slice(data) {
        Ok(sk) => Some(sk.secret_bytes()),
        Err(_) => None,
    }
}

/// `secp256k1::SecretKey::add_tweak`, with the tweak read by
/// `secp256k1::Scalar::from_be_bytes`. `from_be_bytes` refuses a tweak at or
/// above the group order; `add_tweak` adds modulo the group order and refuses
/// a zero sum. The key is turned into a `SecretKey` with `from_slice`, which
/// accepts it by `requires`.
#[verifier::external_body]
pub(crate) fn secret_add_tweak(secret: &[u8; 32], tweak: &[u8; 32]) -> (r: Option<[u8; 32]>)
    requires
        is_valid_secret(secret@),
    ensures
        r is Some <==> (be_nat(tweak@) < curve_order()
            && (be_nat(secret@) + be_nat(tweak@)) % curve_order() != 0),
        r matches Some(k) ==> k@ == be_bytes(
            (be_nat(secret@) + be_nat(tweak@)) % curve_order(),
            32,
        ),
{
    let sk = secp256k1::SecretKey::from_slice(secret).expect("a valid secret key");
    let t = match secp256k1::Scalar::from_be_bytes(*tweak) {
        Ok(t) => t,
        Err(_) => return None,
    };
    match sk.add_tweak(&t) {
        Ok(k) => Some(k.secret_bytes()),
        Err(_) => None,
    }
}

/// The compressed SEC1 encoding of the public key of a secret key.
pub uninterp spec fn secp256k1_pubkey_compressed(secret: Seq<u8>) -> Seq<u8>;

/// The uncompressed SEC1 encoding of the public key of a secret key.
pub uninterp spec fn secp256k1_pubkey_uncompressed(secret: Seq<u8>) -> Seq<u8>;

/// `secp256k1::PublicKey::from_secret_key_global` followed by `serialize`
/// (33 bytes). The point multiplication is named, not restated.
#[verifier::external_body]
pub(crate) fn public_key_compressed(secret: &[u8; 32]) -> (r: [u8; 33])
    requires
        is_valid_secret(secret@),
    ensures
        r@ == secp256k1_pubkey_compressed(secret@),
{
    let sk = secp256k1::SecretKey::from_slice(secret).expect("a valid secret key");
    secp256k1::PublicKey::from_secret_key_global(&sk).serialize()
}

/// `secp256k1::PublicKey::from_secret_key_global` followed by
/// `serialize_uncompressed` (65 bytes, the first being the `0x04` tag, which
/// is not stated here). The point multiplication is named, not restated.
#[verifier::external_body]
pub(crate) fn public_key_uncompressed(secret: &[u8; 32]) -> (r: [u8; 65])
    requires
        is_valid_secret(secret@),
    ensures
        r@ == secp256k1_pubkey_uncompressed(secret@),
{
    let sk = secp256k1::SecretKey::from_slice(secret).expect("a valid secret key");
    secp256k1::PublicKey::from_secret_key_global(&sk).serialize_uncompressed()
}

// ---------------------------------------------------------------------
// bip39

#[verifier::external_type_specification]
#[verifier::external_body]
pub struct ExBip39Error(bip39::Error);

/// `c` may stand in a word of the English BIP39 word list.
pub open spec fn is_word_char(c: char) -> bool {
    'a' <= c <= 'z'
}

/// `p` is `words` non-empty lowercase words joined by single spaces.
pub open spec fn is_phrase_of_words(p: Seq<char>, words: nat) -> bool {
    &&& p.len() > 0
    &&& is_word_char(p[0])
    &&& is_word_char(p.last())
    &&& forall|i: int| 0 <= i < p.len() ==> #[trigger] p[i] == ' ' || is_word_char(p[i])
    &&& forall|i: int| 0 <= i < p.len() - 1 && #[trigger] p[i] == ' ' ==> p[i + 1] != ' '
    &&& p.filter(|c: char| c == ' ').len() + 1 == words
}

/// The BIP39 seed (PBKDF2-HMAC-SHA512, 2048 rounds, salt `mnemonic`
/// followed by the passphrase) of the mnemonic whose words are `phrase`.
pub uninterp spec fn bip39_seed_spec(phrase: Seq<char>, passphrase: Seq<char>) -> Seq<u8>;

/// The English BIP39 mnemonic of an entropy, as text: the words that
/// `bip39::Mnemonic::from_entropy` picks (entropy and checksum bits, eleven
/// bits a word), joined by single spaces by its `Display`.
pub uninterp spec fn bip39_phrase_of_entropy(entropy: Seq<u8>) -> Seq<char>;

/// The entropy of a fresh English mnemonic: `bip39::Mnemonic::generate`
/// (the thread's RNG fills `word_count / 3 * 4` bytes), read back with
/// `Mnemonic::to_entropy`. `generate` fails only for a word count other
/// than 12, 15, 18, 21 or 24 (`is_invalid_word_count`). The bytes drawn are
/// left open.
#[verifier::external_body]
pub(crate) fn generate_mnemonic_entropy(word_count: usize) -> (r: Result<Vec<u8>, bip39::Error>)
    ensures
        12 <= word_count <= 24 && word_count % 3 == 0 ==> r is Ok,
        r matches Ok(entropy) ==> entropy@.len() == word_count / 3 * 4,
{
    match bip39::Mnemonic::generate(word_count) {
        Ok(m) => Ok(m.to_entropy()),
        Err(e) => Err(e),
    }
}

/// `bip39::Mnemonic::from_entropy` (English), then the mnemonic's `Display`
/// text and `Mnemonic::to_seed(passphrase)`. `from_entropy` fails only for
/// an entropy that is not 16 to 32 bytes in steps of 4; it makes
/// `len * 3 / 4` words, all from the English list (lowercase `a`-`z`), which
/// `Display` joins by single spaces.
#[verifier::external_body]
pub(crate) fn mnemonic_from_entropy(entropy: &[u8], passphrase: &str) -> (r: Result<(String, [u8; 64]), bip39::Error>)
    ensures
        16 <= entropy@.len() <= 32 && entropy@.len() % 4 == 0 ==> r is Ok,
        r matches Ok((phrase, seed)) ==> {
            &&& phrase@ == bip39_phrase_of_entropy(entropy@)
            &&& is_phrase_of_words(phrase@, entropy@.len() * 3 / 4)
            &&& seed@ == bip39_seed_spec(phrase@, passphrase@)
        },
{
    match bip39::Mnemonic::from_entropy(entropy) {
        Ok(m) => Ok((m.to_string(), m.to_seed(passphrase))),
        Err(e) => Err(e),
    }
}

// ---------------------------------------------------------------------
// chrono

pub open spec fn is_digit(c: char) -> bool {
    '0' <= c <= '9'
}

pub open spec fn all_digits(s: Seq<char>) -> bool {
    forall|i: int| 0 <= i < s.len() ==> #[trigger] is_digit(s[i])
}

/// A year as chrono writes it: four digits, or a sign and at least four
/// digits outside `0..=9999`.
pub open spec fn is_year_text(y: Seq<char>) -> bool {
    ||| y.len() == 4 && all_digits(y)
    ||| y.len() >= 5 && (y[0] == '+' || y[0] == '-') && all_digits(y.drop_first())
}

/// Fractional seconds as chrono's `SecondsFormat::AutoSi` writes them:
/// none, or a dot and three, six or nine digits.
pub open spec fn is_fraction_text(f: Seq<char>) -> bool {
    ||| f.len() == 0
    ||| (f.len() == 4 || f.len() == 7 || f.len() == 10) && f[0] == '.' && all_digits(f.drop_first())
}

/// `s` is RFC 3339 UTC text `YYYY-MM-DDTHH:MM:SS[.fff]Z` whose `T` is at `k`.
pub open spec fn is_rfc3339_utc_at(s: Seq<char>, k: int) -> bool {
    &&& 10 <= k
    &&& k + 10 <= s.len()
    &&& is_year_text(s.subrange(0, k - 6))
    &&& s[k - 6] == '-' && all_digits(s.subrange(k - 5, k - 3))
    &&& s[k - 3] == '-' && all_digits(s.subrange(k - 2, k))
    &&& s[k] == 'T' && all_digits(s.subrange(k + 1, k + 3))
    &&& s[k + 3] == ':' && all_digits(s.subrange(k + 4, k + 6))
    &&& s[k + 6] == ':' && all_digits(s.subrange(k + 7, k + 9))
    &&& is_fraction_text(s.subrange(k + 9, s.len() - 1))
    &&& s.last() == 'Z'
}

/// `s` is RFC 3339 UTC text as chrono writes it with `use_z`.
pub open spec fn is_rfc3339_utc(s: Seq<char>) -> bool {
    exists|k: int| is_rfc3339_utc_at(s, k)
}

/// The current UTC time as RFC 3339 text (`chrono::Utc::now`, rendered by
/// `to_rfc3339_opts(SecondsFormat::AutoSi, true)` as chrono's serde support
/// renders it; `write_rfc3339` in chrono's formatting). Its shape is
/// stated; the time itself depends on the clock.
#[verifier::external_body]
pub(crate) fn utc_now_rfc3339() -> (r: String)
    ensures
        is_rfc3339_utc(r@),
{
    chrono::Utc::now().to_rfc3339_opts(chrono::SecondsFormat::AutoSi, true)
}

} // verus!
