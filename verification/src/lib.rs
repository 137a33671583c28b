//! A toolchain for a one-instruction computer: the machine itself and an
//! assembler that lowers a small register language onto its single primitive,
//! "subtract and branch if the result is not positive".
//!
//! The machine is in `subleq`; the assembler in `text`, `symbols`, `mnemonic`,
//! `expansion`, `assembler`, `passes` and `assembling`, which also holds the
//! system that runs an assembled program and serves its ports. The modules
//! `stepping`, `semantics`, `linkage` and `laws` prove what the generated code
//! does on the machine and what the passes guarantee.

pub mod subleq;
pub mod text;
pub mod registers;
pub mod symbols;
pub mod mnemonic;
pub mod error;
pub mod expansion;
pub mod assembler;
pub mod passes;
pub mod assembling;
pub mod stepping;
pub mod semantics;
pub mod linkage;
pub mod laws;
