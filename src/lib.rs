//! Security daemon core: a replicated-log consensus engine together with
//! the identity, key-vault, memory-accounting, packet-filtering, sandbox and
//! threat-scanning components that sit around it.
pub mod clock;
pub mod text;
pub mod seqs;
pub mod identity;
pub mod vault;
pub mod memory;
pub mod audit;
pub mod hooks;
pub mod packet;
pub mod jail;
pub mod config;
pub mod scanner;
pub mod consensus;
pub mod safety;
