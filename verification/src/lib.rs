//! Decision logic of the Eclipse snapshot and block replay tool: network
//! selection, snapshot and block file naming, archive and download path
//! handling, and the control of the test-vector collection loop.

pub mod text;
pub mod cli;
pub mod commands;
pub mod paths;
pub mod solana;
pub mod toolkit;
