# SecureNote core

The verified core of SecureNote, an encrypted desktop notepad with up to five
tabs, a Markdown preview and an optional Vim editing mode. Every function in
`src/` is checked by Verus against its `requires`/`ensures` contract, except
the small `#[verifier::external_body]` wrappers around outside crates and std,
whose contracts are trusted (listed at the end of this file).

## Layout

- `src/crypto.rs` — the note file format: PBKDF2-SHA256 key derivation,
  AES-256-GCM sealing as `base64(salt || iv || tag || ciphertext)`, and the
  `salt:hash` password record. Opening what `encrypt` wrote gives the
  plaintext back; a password verifies against its own hash.
- `src/storage.rs` — tabs, the password configuration, what is stored (at most
  five tabs, names cut to 64 characters) and what a notes file opens to.
- `src/session.rs` — an unlocked vault: tabs, the active tab, the per-tab undo
  history (bounded), unlock and password-change checks, Find & Replace.
- `src/search.rs` — case-insensitive plain search, regular-expression search,
  and replacing.
- `src/editor.rs`, `src/text.rs` — character/byte positions, line and word
  counts, and small text helpers.
- `src/markdown.rs` — the Markdown preview's parser: lines to blocks, inline
  emphasis, code spans and links.
- `src/vim.rs`, `src/vim_keys.rs`, `src/editing.rs`, `src/ex.rs`,
  `src/cmdline.rs` — Vim mode: motions, counts, operators, Visual mode,
  registers, search and `:` commands, applied to a session with undo
  bookkeeping.
- `app/` — the egui desktop application around the library: windows, widgets,
  timers, files and the command line.
- `tests/` — tests of the library on concrete values.

## Trusted wrappers

Outside crates and a few std functions are called through small
`#[verifier::external_body]` wrappers; Verus believes their contracts, which
state what the crates' source and std's documentation show:

- `src/crypto.rs`: `pbkdf2_sha256` (`pbkdf2::pbkdf2`), `aes_gcm_encrypt` and
  `aes_gcm_decrypt` (`Aes256Gcm` with `Aead`), `b64_encode` and `b64_decode`
  (`base64` STANDARD engine), `hex_encode` and `hex_decode` (`hex`),
  `random_bytes` (`rand::thread_rng`), `ct_equal` (`subtle::ConstantTimeEq`),
  `wipe` and `wipe_key` (`zeroize`).
- `src/search.rs`: `regex_find_all`, `regex_replace_once`, `regex_replace_all`
  (`regex::Regex`), `to_lowercase` (`str::to_lowercase`).
- `src/session.rs`: `wipe_string` (`zeroize`).
- `src/text.rs`: `string_push` (`String::push`), `string_from_utf8`
  (`String::from_utf8`).
- `src/vim.rs`: `is_alphanumeric` (`char::is_alphanumeric`).

Where an outside result takes more than a few lines to state, it is named by
a spec function without a body (such as `aes256gcm_seal` or `regex_find_spans`)
and the contracts speak of that name.
