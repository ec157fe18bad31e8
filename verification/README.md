# tsuitate

A rules engine for shogi variants: boards of up to 9x9 squares (including dobutsu shogi),
tsuitate shogi (the opponent's pieces are hidden, illegal attempts count as fouls) and dark
shogi (only the squares a player's pieces reach are seen). The library is written in Verus:
its functions carry contracts that Verus proves, with two exceptions whose contracts are
trusted: `usi::parse_usi_position`, which reads a position through `shogi_usi_parser`, and
`text::chars_to_string`, which collects characters into a `String`.

Layout of `src/`:

- `types`, `bitboard`, `position`: squares, pieces, moves, sets of squares and positions.
- `text`, `usi`, `sfen_util`: SFEN text of positions, and the embedding of smaller boards in
  9x9 SFEN text and back.
- `setting`, `normal`, `prelegality`: variants, where pieces move, valid moves and drops,
  king safety and mate.
- `game`: a game with foul counters and a move limit, as a state machine.
- `convert`: CSA move notation.
- `game_api`, `wasm_game`: the game as offered to front ends (views for one player).
- `rl`: numbering of moves as actions, legal actions and observation planes.

`app/` holds the WebAssembly (wasm-bindgen) and Python (pyo3) bindings around the library.
