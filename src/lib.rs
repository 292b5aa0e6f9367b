//! An entity/resource/event container and the frame pipeline of a small
//! candy-collecting game built on it.
pub mod galaxy;
pub mod laws;
pub mod game;
pub mod schedule;
