//! The JSON-RPC endpoint: what a request asks for and what it is answered.

pub mod ids;
pub mod json;
pub mod ledger;
pub mod lesson_create;
pub mod lessons;
pub mod manifest;
pub mod memories;
pub mod order;
pub mod rpc;
pub mod transport;
