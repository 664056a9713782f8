//! Simulation core of a tick-based, last-team-standing arena game: the world and its
//! fixed-order tick, procedural map generation, the views each observer gets, and
//! how connections bind to teams.

pub mod config;
pub mod entities;
pub mod game;
pub mod generate;
pub mod items;
pub mod map;
pub mod player;
pub mod random;
pub mod save;
pub mod server;
pub mod state;
pub mod tick;
pub mod types;
