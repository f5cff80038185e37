//! A decision engine for a turn-based survival game: one player shepherds
//! stationary humans while zombies hunt both. The library simulates turns
//! exactly, in integer arithmetic, and searches a few turns ahead over a
//! caller-supplied set of policies.

pub mod arith;
pub mod vector;
pub mod rules;
pub mod scoring;
pub mod entity;
pub mod state;
pub mod turn;
pub mod policy;
pub mod invariants;
pub mod savable;
pub mod strategy;
pub mod search;
pub mod laws;
pub mod validate;
pub mod parse;
pub mod render;
pub mod equality;
