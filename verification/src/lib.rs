//! Verified core of a Polymarket copy-trading tool: ABI word encoding,
//! EIP-712 order hashing and signing, L2 request signing, and the
//! watch-list and request-building logic of the tool.

pub mod abi;
pub mod bytes;
pub mod crypto;
pub mod auth;
pub mod b64;
pub mod text;
pub mod wallets;
pub mod types;
pub mod api;
pub mod tool;
