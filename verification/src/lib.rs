//! Records, transitions and the inclusion statements that tie a consumed
//! record to the state it was created in: the ledger's state tree, or the
//! tree of the transaction at hand.
//!
//! - [`record`], [`codec`], [`decode`]: records and their bit-level
//!   encoding, with the proof that decoding inverts encoding.
//! - [`transition`], [`leaf`]: transitions and the leaves of their trees.
//! - [`program`], [`process`]: programs, stacks, and the process that
//!   deploys programs and authorizes calls.
//! - [`inclusion`]: the tracker that tells records produced in the
//!   transaction from records of the ledger.
//! - [`state_path`], [`circuit`]: the statement of inclusion and its
//!   circuit assignment.
//! - [`command`], [`text`], [`grammar`], [`finalize`]: finalize commands,
//!   as bytes and as text, and their execution against the stored mappings.
//! - [`header`]: block headers.
//! - [`network`]: the primitives that a network supplies.
//! - [`bits`], [`field`], [`fieldmap`], [`ident`], [`error`]: what the
//!   rest stands on.

pub mod bits;
pub mod field;
pub mod fieldmap;
pub mod ident;
pub mod error;
pub mod leaf;
pub mod transition;
pub mod network;
pub mod record;
pub mod program;
pub mod process;
pub mod state_path;
pub mod circuit;
pub mod inclusion;
pub mod finalize;
pub mod command;
pub mod header;
pub mod codec;
pub mod decode;
pub mod text;
pub mod grammar;
