//! What the tool asks of a Solana-compatible RPC node.

pub mod rpc_client;
