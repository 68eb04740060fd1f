# SecureFolders

Encrypted vaults for files on Windows: each vault is a folder holding its
metadata (`vault.json`) and its files encrypted with AES-256-GCM, under a
random data key wrapped by a key derived from the master password with
Argon2id. Optional TOTP two-factor authentication, single-use recovery
codes, rate-limited unlocking and idle auto-lock.

## Layout

- `src/` is the verified library (Verus). Every function there carries a
  contract that Verus proves, and the public `proof fn`s state the laws the
  library keeps:
  - `crypto`: key derivation, envelope encryption, MACs, recovery codes and
    their normalization;
  - `stream`: chunked file encryption (STREAM over AES-256-GCM);
  - `vault`: the metadata, its integrity tag, unlocking, 2FA settings,
    recovery codes, the file and folder operations and the vault index;
  - `content`: the files and folders of a vault as one block of bytes,
    encrypted under the data key (`content_encrypted`), with a verified
    encoder and decoder that read back what they wrote;
  - `integrity`: why the integrity tag covers exactly the protected fields;
  - `state`: sessions, pending 2FA logins, rate limiting and auto-lock;
  - `login`: the steps of a password, TOTP or recovery-code login and of
    2FA setup;
  - `totp`, `settings`, `commands`, `layout`, `error`, `text`: TOTP codes,
    the auto-lock range, input checks and previews, on-disk names, errors
    and string helpers.
  Calls into outside crates (aes-gcm, argon2, hmac, sha2, rand, totp-rs,
  uuid, chrono) go through small trusted wrappers whose doc comments say
  what is assumed of them.
- `app/` is the Tauri desktop shell, ordinary Rust: reading and writing
  files and archives, Windows ACLs, shortcuts, screen-capture protection,
  and the commands the interface invokes.
- `tests/` runs the library with the real outside crates.
