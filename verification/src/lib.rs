//! Deterministic battle simulation core: unit geometry and movement,
//! target selection, the movement orchestrator, basic attacks, damage,
//! health and resonance, skill areas and triggered effects.
//!
//! Every function states what it computes in its contract and is verified
//! against it; the laws that relate several functions are proof functions
//! next to them.

pub mod arith;
pub mod position;
pub mod order;
pub mod keys;
pub mod select;
pub mod movement;
pub mod spatial;
pub mod types;
pub mod motion;
pub mod damage;
pub mod vitals;
pub mod plan;
pub mod board;
pub mod chase;
pub mod targets;
pub mod advance;
pub mod intents;
pub mod waits;
pub mod interrupts;
pub mod engage;
pub mod attack_start;
pub mod buffs;
pub mod attacks;
pub mod projectiles;
pub mod areas;
pub mod triggers;
pub mod ids;
pub mod autocast;
pub mod battle;
