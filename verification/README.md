# garcia-patcher

Patches an ALLfiring XAPK so that the game talks to a Garcia server: the
endpoint lines of `assets/settings.txt` are rewritten, the application class in
the binary `AndroidManifest.xml` is switched from the Pairip wrapper back to
the game's own class, and every APK split is re-aligned and re-signed.

## Layout

- `src/` — the verified library (Verus):
  - `manifest.rs` — UTF-16LE encoding, byte-pattern search and the string-pool
    rewrite of the application class, with the proof that a restored manifest
    stays restored and keeps its size.
  - `settings.rs` — the settings rewrite, with the proof that rewriting twice
    changes nothing.
  - `config.rs` — endpoints, URL formatting, IPv4/port validation, tool-path
    resolution.
  - `archive.rs` — reading XAPK and APK archives in memory (through the `zip`
    crate): entry lookup, the settings of a split, the entries to unpack with
    the refusal of paths that leave the destination, the entries of an APK;
    signature-entry detection, APK split selection and order, entry naming,
    the APK rewrite plan and the checks of the finished XAPK.
  - `android.rs` — tool selection and Build Tools version ordering.
  - `args.rs`, `signing.rs` — output naming and signing-tool arguments.
  - `text.rs`, `order.rs` — character and ordering helpers.
- `app/` — the command-line program: argument parsing, TOML loading, reading
  and writing files, writing archives, and running `keytool`, `zipalign` and
  `apksigner`.
- `tests/` — tests of the library.
