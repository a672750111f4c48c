# fabled

The rules of the Fabled co-op extraction game as a Verus library: what the
game decides, stated in `requires` / `ensures` contracts and proved.

## Layout

- `src/` — the verified library, one module per subject:
  - `level`: the sewer-stretch labyrinth generator. The growth is stated
    exactly as the seeded breadth-first growth (`grow_spec`); on top of it,
    adjacent modules agree on their shared openings, every module reaches
    the start, depth is distance, and the extraction follows its tier rule;
  - `nav`, `steer`, `ai`: the nav grid (A* with the cheapest-walk
    guarantee, cover cells, cell/world conversion), path following and the
    mode plan, and the enemy senses, mode machine and alarm shouts;
  - `run`, `items`, `classes`, `npc`, `pool`: the extraction run (routes,
    shop, trade, the map carrier rule, permadeath, map-pool candidates and
    pool map files);
  - `kenney`, `synth`, `catalog`, `editor`, `docs`, `modes`: the map editor's
    catalogues, anchoring rules, floor masks, documents and generated map
    files;
  - `village`, `economy`, `professions`, `house`, `genome`, `clock`,
    `weather`, `control`, `text`: the headless village simulation (the
    village state and its minute step, a money-conserving ledger, the goods
    economy, house plans, the seeded random stream).
- `tests/` — ordinary Rust tests against the compiled library.
- `app/` — the headless village runner around the library: command line,
  console, wall-clock pacing, the JSONL event log and snapshots, reading
  catalogues and map files into the library's records, and what runs on
  floating-point numbers: the villagers' needs, moods, homes and utility
  choices (every coin and good they move goes through the library's
  `Village` operations), and policy evolution.

Positions are integer millimetres, angles microradians and times integer
milliseconds wherever the library reasons about them; conversion from the
engine's floating-point values happens outside the library.

The only outside calls in `src/` go to `rand` / `rand_chacha` (the seeded
stream), behind the trusted wrappers in `src/weather.rs`.
