# pumpkin

The core of a Minecraft server for Java and Bedrock clients, verified with Verus.

- `src/` is the library. Every function states in its contract what it returns or changes;
  what holds of several functions together stands as a public proof function whose name
  begins with `law_`.
  - `protocol`, `bytes`, `text`, `ids`, `registry`, `random`: codecs and shared parts.
  - `cli`, `launch`: the choices at start, on a panic and on an interrupt.
  - `gui`: the management console, its window's decisions, and the supervision of a server
    process.
  - `net`: login, resource packs, emotes, skin updates and the Bedrock join endpoint.
  - `skin_pack`: resource packs made of the skins of Bedrock players.
  - `loot`: loot tables and chests.
  - `worldgen`: structure templates, jigsaw assembly, mansions, mineshafts and the search
    for structures.
  - `distant_horizons`: the handshake of the Distant Horizons mod.
- `tests/` runs the library.
- `app/` is the program around it: sockets, files, processes, the window and the clock.

Calls into other crates (UUIDs, SHA-1, CRC-32, hexadecimal text, image scaling and PNG, URI
authorities, JSON) stand behind small functions whose contracts are believed; each says in its
comment what it claims.
