//! A menu driver for a row-based selector host.
//!
//! The driver keeps a value stack and a call stack of submenu scripts
//! across process invocations, serialized into host-controlled
//! environment variables as JSON5.  Each invocation restores the state,
//! applies one transition, runs the selected submenu script, and encodes
//! the resulting rows in the host's framed row-property protocol.

use vstd::prelude::*;

pub mod data;
pub mod driver;
pub mod fallback_row;
pub mod json;
pub mod numtext;
pub mod options;
pub mod row;
pub mod row2;
pub mod stack_op;
pub mod stack_op2;
pub mod value;

verus! {

/// The byte that separates rows on the wire; the first-launch preamble
/// tells the host to use it as the record delimiter.
pub const DELIM: char = '\x0b';

} // verus!
