pub mod account;
pub mod accounts_catalog;
pub mod block;
pub mod block_validator;
pub mod blockchain;
pub mod bytes;
pub mod cli;
pub mod codec;
pub mod crypto;
pub mod peer;
pub mod protocol;
pub mod transaction;
pub mod transaction_validator;
