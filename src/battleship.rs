//! The hidden-ship game: each player places ships on a board the opponent
//! cannot see, then the players take turns shooting at each other's board.

pub mod game;
