# Cellborn, verified

The rules, formats and protocols of the Cellborn cell-evolution game as a
Verus library: every function in `src/` carries a contract that Verus proves.

- `src/parts.rs` — the catalogue of organs: families, levels, costs, indices.
- `src/genome.rs` — genomes, genetic distance, hostility, kinship, offspring,
  the mutation and upgrade economy, relation colours, body signatures.
- `src/heredity.rs` — breeding wild bots from remembered ancestors, and the
  memory file with its round trip.
- `src/config.rs` — the server's `key = value` settings file: reading,
  sanitising, writing, and the proof that a written file reads back.
- `src/settings.rs` — the player's settings file and remembered servers.
- `src/network.rs` — tick length and the LAN discovery packets.
- `src/update.rs` — choosing a release, checking a download, protected files,
  the updater's texts.
- `src/crest.rs` — lineage crests and the lineage table.
- `src/menu.rs`, `src/panel.rs` — the address field, the server list, the
  upgrade card.
- `src/audio.rs` — WAV framing and which sounds a frame asks for.
- `src/life.rs`, `src/environment.rs`, `src/version.rs`, `src/text.rs` — bots'
  choices and heirs, biomes, versions, and the text toolkit the rest is built on.

`app/` is the plain Rust around the library: a small command line with
files, sockets, GitHub, sound synthesis and the floating-point balance
figures. It is not the game: the 3D client, the server's world loop and the
floating-point simulation (movement, combat, perception, food, pollution)
are not part of this crate. `tests/` runs the library
on concrete values.
