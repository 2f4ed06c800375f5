//! Game rules of a two-player, rollback-networked aerial dogfight:
//! input encoding, heat and damage bookkeeping, scoring, seed agreement,
//! player ordering, console commands, sound scheduling and map layouts.

pub mod audio;
pub mod console;
pub mod game_logic;
pub mod input;
pub mod map;
pub mod network;
pub mod player;
pub mod shooting;
pub mod text;
