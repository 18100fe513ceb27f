pub mod text;
pub mod chess;
pub mod engine;
pub mod review;
pub mod game;
pub mod openings;
pub mod drill;
pub mod ui;
pub mod flow;
pub mod stl;
