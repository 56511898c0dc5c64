# uefi_engine

A verified library for editing UEFI firmware images: rebuilding a parsed
FFS tree into bytes, LZMA framing of GUID-defined sections, and the HII/IFR
walkers that find, unlock, extend and re-register setup forms. Every function
in `src/` is checked by Verus against its contract, except the small trusted
wrappers (marked `#[verifier::external_body]`) around `std`, `liblzma`,
`lzma-rs` and `object`, whose contracts state what those libraries do; the
laws of the library (rebuilding an untouched tree gives its bytes back, a
planned flip unlocks its gate, a written `$SPF` default reads back, ...)
are stated as public proof functions next to the code they speak of.

Layout:

- `src/` — the library:
  - `bytes`, `render`, `text`, `guid`, `ffs`, `types`, `ops` — byte fields,
    diagnostics text, GUIDs, FFS headers, the image tree and path edits;
  - `tiano` — the EFI 1.1 / Tiano decompressor (algorithm 1), verified
    memory-safe and terminating, with the header sizes it checks stated;
  - `decompress`, `compress` — LZMA "alone" streams. Decoding goes through
    `lzma-rs` behind a trusted wrapper whose result is named. Encoding goes
    through `liblzma`'s raw encoder behind one trusted wrapper whose result is
    named by the input and the settings; the contracts state the streams
    exactly over that name, the choice among candidate streams, and that
    every stream handed out decodes back to its input (whether liblzma
    succeeds is its own to say);
  - `builder` — serialising an image tree back to bytes;
  - `hii` — IFR walkers and builders, gates, `$SPF`/NVAR/AMI databases, HII
    package lists and PE resources (through `object`), request schemas.
- `tests/` — tests of the compiled library.
- `app/` — the command line and the JSON (serde) forms of the request
  schemas, converting to and from the library's plain types.

What the library does not hold:

- Item ids are not resolved here: edits take the path of child indices to
  the item (`hii::at_path::unlock_at`) or work on a section body directly.
  The target parser and path finder that turn an id into a path are not part
  of this code base.
- Adding forms, questions, pages and references, hijacking a form, setting a
  value and listing questions are present only through their building blocks
  (`add_form_to_package`, `set_store_value`, `build_ifr`,
  `splice_question_ops`, `patch_ami`, `find_varstore_record`, ...): the IFR
  statement walker and the string-package codec they also rest on are not
  part of this code base.
- The search for gates in other formsets (`hii::cross_formset`) is here, but
  unlocking covers only the gates inside the item's own section: a
  `GateTarget` of this code base names no formset, so gates found elsewhere
  cannot be told to lead to the item's own formset.
