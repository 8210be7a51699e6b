//! Cheapest routes across a square map made of a central cell, four homelands
//! and the four borders between them.

pub mod binary_heap;
pub mod cell;
pub mod cost;
pub mod duration;
pub mod fonts;
pub mod grid;
pub mod homeland;
pub mod index;
pub mod order;
pub mod pathfinder;
pub mod skill;
pub mod text;
pub mod translation;
