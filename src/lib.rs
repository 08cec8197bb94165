//! A toroidal cellular-automaton kernel: a grid of small cell codes, the
//! update rules that advance it, and an engine that drives generations.

pub mod automaton;
pub mod codec;
pub mod dummy;
pub mod engine;
pub mod grid;
pub mod life;
pub mod mazegenerator;
pub mod mazesolver;
pub mod patterns;
pub mod random;
pub mod stepping;
pub mod torus;
pub mod render;
