//! Declarative on-chain programs.
//!
//! An author declares instructions, error tables and persistent records as
//! data. The first half of this crate reads those declarations out of
//! surrounding source text and turns them into generated source; the second
//! half is the runtime that every generated handler relies on: the
//! per-account capability rules, derived-address assertions, fixed-size
//! record views and the account lifecycle.
//!
//! Text is modelled as `Seq<char>`, account storage as `Seq<u8>`; every
//! executable function states its result over those models.

pub mod access;
pub mod account;
pub mod aggregate;
pub mod capability;
pub mod codegen;
pub mod dispatch;
pub mod errors;
pub mod extract;
pub mod instruction;
pub mod lifecycle;
pub mod pda;
pub mod state;
pub mod text;
