# credchain

A headless launcher for commands that need secrets. Secrets are kept as
user-scoped `systemd-creds` credentials, one ciphertext file per variable, and
reach a command through its environment only.

    credchain --set aws AWS_ACCESS_KEY_ID AWS_SECRET_ACCESS_KEY
    credchain --list aws
    credchain aws,github some-command --with args
    credchain --unset aws AWS_SECRET_ACCESS_KEY

## Layout

- `src/` is the library, verified with Verus. It decides everything and performs
  nothing: each procedure that needs the outside world is a state machine whose
  states name the operation that is due. Contracts say what each step does; laws,
  proved over whole runs, say what the program promises:
  - the target runs only when every namespace was found, every variable listed and
    resolved, and no value holds a NUL byte; later namespaces override earlier ones
    (`exec_laws.rs`);
  - no file goes live before every value was collected and encrypted, and a failed
    run marks every staging file for removal (`set_laws.rs`);
  - a listing after an unset lacks exactly the variables that were removed
    (`unset_laws.rs`);
  - no report depends on a secret beyond whether it holds a NUL byte;
  - directories are private before a path in them is handed out, and symlinks are
    refused (`dirs.rs`, `listing.rs`, `decrypt.rs`, `unset.rs`);
  - retries and decrypt slots are bounded (`retry.rs`, `slots.rs`);
  - each variable has a file and a credential name of its own (`store.rs`,
    `store_laws.rs`).
- `src/outside.rs` holds the calls into the standard library whose contracts are
  taken on trust.
- `tests/` runs the library on concrete values.
- `app/` is the program around the library: it performs what is due (files, child
  processes, the terminal, locks) and hands the outcome back.
