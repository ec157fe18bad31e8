//! Rules engine for shogi variants with hidden information (tsuitate and dark shogi)
//! and small boards (dobutsu shogi), with verified move generation and legality.
pub mod types;
pub mod text;
pub mod bitboard;
pub mod position;
pub mod usi;
pub mod setting;
pub mod normal;
pub mod prelegality;
pub mod game;
pub mod convert;
pub mod sfen_util;
pub mod rl;
pub mod game_api;
pub mod wasm_game;
