//! Enclave-mediated transaction validation: the witness wire codec, the
//! request/response protocol between the application and the enclave
//! gateway, the dispatch logic of the validation server, and the small
//! key-value services of the client index.
pub mod attribute;
pub mod balance_service;
pub mod bytes;
pub mod codec;
pub mod error;
pub mod global_state_service;
pub mod coin;
pub mod protocol;
pub mod server;
pub mod storage;
pub mod transaction;
pub mod transaction_service;
pub mod wallet_service;
pub mod witness;
