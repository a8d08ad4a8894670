# psrp_rs

Pieces of a PowerShell Remoting Protocol (MS-PSRP) client, written in
Verus: each function states its behaviour in `requires` / `ensures` and
Verus proves it.

- `src/clixml/` — the CLIXML object model (`PsValue`, `PsObject`), the
  encoder (`to_clixml`), the decoder (`parse_clixml`, over the event
  stream of `quick_xml`), the `CreatePipeline` message builder, the
  small codecs behind them (XML and `_xHHHH_` escaping, base64, GUID
  text, integer, boolean and float syntax), and `normalize`, the change
  a round trip is allowed to make to a value. `roundtrip.rs`,
  `document_roundtrip.rs` and `nested_roundtrip.rs` prove that decoding
  what the encoder writes gives `normalize`'s result for scalars, plain
  text, and lists, dictionaries and objects of those nested to any depth
  the decoder accepts, and that decoding, writing and decoding again
  gives the same value, given the events XML defines for those documents;
  `ref_ids.rs` proves that the encoder numbers its `RefId`s from `0` in
  document order.
- `src/ssh/` — the SSH transport's settings and its host-key trust
  decision: OpenSSH glob matching, `[host]:port` patterns, `!` negation,
  hashed host names, `known_hosts` files (parsed by `ssh-key`) and pinned
  SHA-256 fingerprints; and the steps of opening an SSH session
  (`session.rs`).
- `src/transport.rs` — the decisions of the WinRM and SSH receive loops.
- `src/internal/` — the entry points used by fuzzing harnesses.
- `app/` — what Verus does not check: reading `$HOME` and the
  `known_hosts` file; converting floating-point values to and from the
  text that the library carries, and comparing them as numbers.
- `tests/` — the test suite.
