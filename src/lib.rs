//! A turn-based deck-building card game engine: cards and their effects,
//! board zones, per-player boards, turn rotation and a push-down automaton
//! that routes game events between states.

pub mod game_objects;
pub mod ai;
pub mod game_control;
pub mod game_logic;
pub mod automaton;
pub mod ui;
pub mod loading;
