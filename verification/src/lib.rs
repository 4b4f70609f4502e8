//! Cellborn: the game's rules, formats and protocols, verified.

pub mod text;
pub mod version;
pub mod parts;
pub mod genome;
pub mod heredity;
pub mod network;
pub mod config;
pub mod settings;
pub mod update;
pub mod audio;
pub mod crest;
pub mod life;
pub mod environment;
pub mod menu;
pub mod panel;
