//! Numeric and cryptographic core of a Starknet command-line client:
//! a prime-field scalar type with parsing and formatting, the chain-identifier
//! encoding built on it, Pedersen/Keccak/ECDSA primitives behind thin trusted
//! wrappers, and the error taxonomy for remote-procedure failures.

pub mod bignum;
pub mod cast;
pub mod chain;
pub mod crypto;
pub mod field;
pub mod parser;
pub mod rpc;
