# cred

The verified core of a credential manager whose secrets are encrypted under a
key derived from a YubiKey, and the programs around it.

`src/` is the library. Its functions carry contracts that Verus proves; what is
believed of other crates stands in `primitives`, `clock` and `text`.

| Module | What it holds |
|--------|---------------|
| `crypto` | key derivation, encryption, the recovery file of both versions |
| `store` | values to hexadecimal ciphertext and back, what a backend answers |
| `types`, `names` | secrets, their fields and previews, proper names |
| `agent_keys` | agent keys, their scopes, the audit line |
| `rate_limit` | lockout of clients that fail to authenticate |
| `server` | who is let in, and what each request is answered |
| `ceremony` | setting up a token, coming back from a recovery file |
| `store_form`, `import`, `cli`, `tables` | the decisions and texts of the command line |
| `tui` | the terminal interface as a state machine |
| `primitives`, `clock`, `text` | the calls into other crates, with what is believed of them |
| `assoc` | lists of pairs as maps |

Functions named `law_..` state what holds of several functions together, such
as that agents only read, or that one client cannot lock another one out.

`tests/` runs the library with the real crates. `app/` holds the `cred` command
line and the `credd` daemon: files, SQLite, HTTP, the terminal and the token.
