# edit_counter

Counts semantic code edits between two versions of a source tree: files,
classes (structs, enums, traits, interfaces, records, ...) and functions
(including methods) that were added, modified or deleted. Each event counts
as one edit.

The library under `src/` is written in Verus. Its functions carry contracts
that Verus proves, except for the calls into `syn` and std that it cannot
read. Those are small functions marked `#[verifier::external_body]`, whose
contracts Verus believes:

- in `rust_syntax`: `parse_rust_file`, `file_len`, `file_item`, `item_kind`,
  `item_ident`, `item_line`, `item_tokens`, `impl_self_ty`, `trait_head`,
  `impl_len`, `impl_member`, `trait_len`, `trait_member`, `mod_len`,
  `mod_item`. Each one reads a single fact that `syn` reports about one
  parsed item, and names it as a function of the parsed text and the
  item's place in that text;
- in `text`: `string_from_chars` (collecting `char`s into a `String`).

The modules:

- `models` — `EditKind`, `EditEvent`, and `EditReport`, whose counters always
  agree with its list of events.
- `text` — source text as lines: splitting, trimming, tokens, brace counts.
- `lang` — the language of a file, chosen by its extension.
- `scan` — the classes and functions of a file, found line by line
  (Python, Ruby, JavaScript, TypeScript, Java, C#, C/C++, Go, PHP, Swift,
  Kotlin). The comment lines just before a class or function are
  its doc comment and belong to its text, so editing them modifies that item.
- `rust_syntax` — the classes and functions of a Rust file, parsed with `syn`.
  Which parsed items count as classes or functions, and what text each one
  carries, is stated in `node_items`. A trait's text holds its attributes
  and doc comments but leaves out its functions, so editing a method body
  modifies only that method.
- `ast` — `CodeItem` and the entry points `parse_items`,
  `parse_items_for_path`, `parse_rust_items`.
- `analyzer` — `compare_items` and `analyze_file_diff`, with the laws they
  obey (identical item lists give no event; units are conserved; adding and
  deleting a file mirror each other).
- `changes` — `build_report` over a change set, `DiffConfig` ignore
  patterns, and which versions of a file a diff reads (`reads_old_version`,
  `reads_new_version`, `is_rust_source`).

`app/` is the command-line program: it reads file versions from a git
repository (`git2`) or from disk (`walkdir`), calls `build_report`, and
prints the total or the JSON report (`serde_json`).
