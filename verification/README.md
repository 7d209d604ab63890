# Souls Client

A client that lets a server take part in a running game: viewers name bosses and spawn enemies,
runners share the bosses they have defeated, deaths are linked, and items are handed out.

- `src/` is the library: every rule of the client, with its contract, proved by Verus. It reads
  plain snapshots of the game and gives back what is to be done.
  - `names`, `hooks`: which name a healthbar shows.
  - `bosses`: defeated bosses, what is reported of them, and the panel that shows them.
  - `deathlink`: when a death is passed on, and when one elsewhere kills.
  - `items`: what items there are, which are given, and where they are equipped.
  - `spawn`, `event`: which enemies are spawned, where, and with which events.
  - `client`, `ui`: the connection to the server, and the overlay's messages.
  - `game`, `program`, `rva`: the running game.
  - `text`, `wide`, `sorting`: building blocks.
- `tests/` runs the library on examples.
- `app/` is what the game loads: sockets, JSON, hooks, drawing, and the game's own memory. Its
  parts for Windows need the games' engine crates.

Files beside the program: `serverhost.txt` and `server.txt` (the server and its password),
`bosses.json` (regions and bosses), `offsets.json` (by game, the offsets of its functions and its
event instructions) and `fonts/`.
