//! Core of an eight-step drum and tone sequencer: the rhythmic pattern, the
//! sample clock that advances through its steps, the state shared between the
//! audio callback and the controls, and the decisions the front ends draw from
//! them.

pub mod binary64;
pub mod clock;
pub mod display;
pub mod engine;
pub mod panel;
pub mod pattern;
pub mod state;
