//! Rules engine pieces for a Magic: The Gathering simulator, verified with Verus.

pub mod ids;
pub mod text;
pub mod mana;
pub mod mana_payment;
pub mod card;
pub mod mana_engine;
pub mod heuristic;
pub mod evaluator;
pub mod error;
pub mod stop_condition;
pub mod hand_setup;
pub mod deck;
pub mod state_hash;
pub mod card_loader;
pub mod controller;
pub mod fixed_script_controller;
pub mod scripted_controller;
pub mod zero_controller;
pub mod zero_controller_v2;
pub mod ordering;
pub mod heuristic_choices;
pub mod logger;
pub mod interactive;
pub mod game_result;
pub mod actions;
pub mod snapshot;
pub mod random_controller;
pub mod database;
pub mod combat;

pub mod replay_controller;
pub mod json_strip;
pub mod legal_actions;
pub mod declarations;
pub mod random_controller_v2;
pub mod game_state;
pub mod priority;
pub mod game_text;
