//! A moving-average crossover strategy unit that a host trading engine drives
//! across a binary boundary: the parameter merge, the host callback table, the
//! boundary call sequences and the per-bar decision logic.
pub mod engine;
pub mod meta;
pub mod setting;
pub mod strategy;
