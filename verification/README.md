# envly

A vault of secrets for development environments. Secrets are grouped into
projects; each project has environments whose mappings bind local variable
names to secrets. Activating an environment writes its `.env` file into a
temporary directory and links it into the project folder. The vault is stored
encrypted, either under a key derived from a passphrase (Argon2id) or under a
random key kept in the system keychain (XChaCha20-Poly1305 in both cases).

`src/` is the library, verified with Verus:

- `models` — the vault and the rules it keeps (unique keys and names, mappings
  that name existing secrets, at most one active environment per project);
- `resolver`, `envfile` — writing and reading `.env` text;
- `crypto` — the two ciphers, the encrypted payload and the keychain texts;
- `vault_file`, `registry`, `symlink`, `state` — the encrypted file, the list
  of known vaults, the bookkeeping of activated environments and the
  application's state;
- `commands` — what each user command does to the vault and the registry.

`app/` is the unverified shell: file and keychain access, serialization, the
shared state and the command handlers.
