//! L-system plants: a token registry and grammar builder, a rewrite engine
//! and a turtle interpreter that traces the expanded symbols as 3D poses.

pub mod action;
pub mod engine;
pub mod events;
pub mod grammar;
pub mod plant;
pub mod registry;
pub mod rule;
pub mod turtle;
