//! A multiplayer number-board game engine: deterministic board generation,
//! line judgment (complete and one-away lines), and a session registry.
pub mod matrix;
pub mod board;
pub mod judge;
pub mod generate;
pub mod config;
pub mod errors;
pub mod game;
pub mod manager;
pub mod security;
pub mod pkce;
