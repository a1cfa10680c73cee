//! A small engine for turn-based games with hidden information, and two
//! games built on it: the hidden-ship game and Nim.

// The engine
pub mod abstract_game;
pub mod partial_info_game;
pub mod play;
pub mod player;
pub mod text;
pub mod util;
pub mod view;

// The games
pub mod battleship;
pub mod board;
pub mod nim;
