pub mod bitboard;
pub mod movement;
pub mod piece;
pub mod square;
pub mod state_metadata;
