//! Per-tick unit selection for a real-time strategy game: builds the pointer
//! ray, judges whether the cursor rests on something the current selection can
//! attack, updates the selection on a primary click and plans movement orders
//! on a secondary click.

pub mod geometry;
pub mod dat;
pub mod action;
pub mod selection;
pub mod world;
pub mod system;
pub mod laws;
