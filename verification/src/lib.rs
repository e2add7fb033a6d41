//! A stepping debugger engine for Bitcoin Script.
//!
//! Transaction parsing, sighash construction, hashing and signature
//! verification come from rust-bitcoin; the evaluator, the spend resolution,
//! the decoder and the assembler are here, each with its contract.

pub mod arith;
pub mod asmlaws;
pub mod assembly;
pub mod checks;
pub mod crypto;
pub mod debugger;
pub mod exec;
pub mod hexcodec;
pub mod interp;
pub mod laws;
pub mod locktime;
pub mod multisig;
pub mod num;
pub mod oplookup;
pub mod oplaws;
pub mod opnames;
pub mod ops;
pub mod sig;
pub mod siglaws;
pub mod spend;
pub mod spendlaws;
pub mod stack;
pub mod steplaws;
pub mod text;
pub mod tools;
pub mod tx;
pub mod vm;

pub use debugger::Debugger;
pub use tools::{btcc, describe_spend, disasm, flag_info, parse_tx, script_address, tf, version};
