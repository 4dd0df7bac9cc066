# gear_test

Builds Gear test fixtures from their sample description: actors (programs
and users), fixtures, steps and messages. Keywords are bound to program
identifiers, messages draw identifiers from a nonce, replies are resolved
through the registry of message numbers, and step numbers are checked.

- `src/` is the verified library (Verus):
  - `ids` — program and message identifiers, from `gear_core`;
  - `sample` — the sample description, and the hexadecimal notation of
    memory addresses and bytes;
  - `common` — resolution: `create_message`, `transform_messages`,
    `create_steps`, `create_fixture`, `create_test`; `model` states what
    each gives, `laws` what they keep, `tables` holds the notebook and the
    program table, each kept in ascending order of key;
  - `runner` — what the runner is handed to initialize a program;
  - `assoc` — maps kept as lists of pairs, and the order of keys.
- `app/` reads test files (YAML), program binaries and runs fixtures.
- `tests/` exercises the library.
