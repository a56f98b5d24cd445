pub mod bitboard;
pub mod bits;
pub mod bot;
pub mod board;
pub mod geometry;
pub mod legal_moves;
pub mod movement;
pub mod pieces;
pub mod square;
pub mod text;
pub mod types;
