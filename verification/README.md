# er_qs — Elden Ring save toolkit (Linux / Proton)

Snapshots, inspection and in-memory edits of `ER0000.sl2` saves. The game
process is never touched; only the BND4 file is read and written.

## Layout

- `src/` — the library, verified with Verus.
  - `bytes.rs` — little-endian fields of a byte buffer and in-place writes.
  - `utf16.rs` — UTF-16 encoding of names and their lossy decoding.
  - `bnd4.rs` — the section table, the SteamID, the stat-anchor scan and
    the characters it finds.
  - `save.rs` — `SaveFile` and its edits (stats, name, runes, SteamID,
    delete, item quantity, give item); every edit recomputes the MD5
    checksum of the sections it touches.
  - `item_db.rs` — the item table, lookups and name search. The table is
    cut down to the 75 common goods; the game's full table of over 1,700
    item names is not included, so items outside those 75 are not named,
    not found by the search, not listed among owned items, and `give`
    treats an owned one of them as new (see `item_db.rs`).
  - `text.rs` — snapshot slot names, relative-age text, trimming and
    reading numbers typed by the user.
  - `snapshots.rs` — snapshot records, their listing order, which backups are pruned, and
    when waiting for the game's autosave ends.
  - `screen.rs` — what each key does in the terminal UI.
  - `screen_text.rs` — the texts the terminal UI shows: titles, rows,
    prompts, help lines and selections.
  - `cli.rs` — the argument decisions of the command-line `give`.
  - `laws.rs`, `steam_laws.rs` — what the edits promise when read back.
  - `frame_laws.rs` — what each edit leaves unchanged.
  - `keep_laws.rs` — on a save laid out as the game writes it, an edit of
    one slot keeps every other character.
- `tests/` — the edits on a synthetic save, and the text/item helpers.
- `app/` — the command-line tool (`er-qs`), the terminal UI (`er`, ratatui)
  and the window (`er-gui`, eframe), with the file-system side: locating
  the save, snapshots, backups.
