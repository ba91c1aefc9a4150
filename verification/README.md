# modeman

A Linux-first mod manager for games (Bethesda titles, Cyberpunk 2077,
RimWorld, Stardew Valley, Paradox games, Unity/BepInEx games), written in
Verus.

## Layout

- `src/` — the verified library: the game catalog and Proton prefix paths,
  Steam KeyValues parsing, launcher detection rules, mod store naming,
  profiles and load order, plugin header parsing and master-aware sorting,
  `plugins.txt` / `ModsConfig.xml` / `dlc_load.json` rewriting, reading
  launcher and game JSON documents (`json::Json`: Heroic's installed lists,
  Paradox `dlc_load.json`, SMAPI manifests), the FOMOD
  installer model (XML reading, dependency evaluation, selection validation,
  install plans), conflict detection, deployment decisions, the bubblewrap
  launch line, REDmod planning, `nxm://` links, the Nexus and free-platform
  request URLs and listings, and the per-game manager state.
  Every function carries a contract checked by Verus; properties that span
  several functions are stated as proof functions (for example
  `plugins::clear_after_rewrite_restores`,
  `loadorder::rewrite_is_idempotent`,
  `fomod::install_plan_is_sorted`,
  `manager::register_then_remove_restores`,
  `fomod::default_selections_are_valid`,
  `fomod::toggling_keeps_the_group_valid`).
- `app/` — the program around it: reading and writing files, walking
  directories, extracting archives, HTTP, SQLite, turning JSON text into
  `json::Json` values and back, and the command line.
- `tests/` — tests of the library.

Outside crates called from the library go through a few trusted wrappers:
`roxmltree` (XML documents, `xml::read_xml`), `url` (`nxm::read_url`) and a
handful of `std` functions (`String::push`, `String::from_utf8_lossy`,
`Path::file_name`, `Path::parent`, `Path ==`).
