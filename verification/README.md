# beauty_wallet

Ethereum vanity address search, written in Verus. It brute-forces BIP39
mnemonics, derives addresses along `m/44'/60'/0'/0/N`, and keeps those whose
lowercase hex address ends with a given hex suffix.

Layout:

- `src/` — the verified library.
  - `matcher.rs`: suffix validation, hex decoding of the suffix, matching on
    raw address bytes and on text, and the laws that tie them together.
  - `bip32.rs`: BIP32 private derivation (master key, hardened and normal
    children, the account key at `m/44'/60'/0'/0`) over a mathematical model
    of keys.
  - `generator.rs`: batches of wallets from one mnemonic, Ethereum addresses.
  - `output.rs`: the saved record of a found wallet and the printed lines.
  - `search.rs`: search configuration, matching indices of a batch, and the
    state that decides which matches are kept and when the search stops.
  - `text.rs`: lowercase hex and decimal rendering.
  - `primitives.rs`: the trusted calls into std, `hmac`/`sha2`, `secp256k1`,
    `tiny-keccak`, `bip39` and `chrono`, with their contracts.
- `app/` — the command-line program: argument parsing, the parallel loop,
  Ctrl+C, progress bar and the JSON results file.
- `tests/` — tests of the library.
