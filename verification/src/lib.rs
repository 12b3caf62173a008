pub mod ability;
pub mod battle;
pub mod card;
pub mod catalog;
pub mod conservation;
pub mod game;
pub mod middle;
pub mod modifiers;
pub mod solver;
pub mod solver_2;
pub mod text;
pub mod types;
pub mod utils;
