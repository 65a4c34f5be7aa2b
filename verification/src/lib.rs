//! A verified core for a flat-file todo-list manager.
//!
//! The task store is a plain-text buffer of markdown checkbox lines:
//! `- [ ] <label>` for a pending task and `- [x] <label>` for a done one.
//! Every operation here is a pure function from the buffer (and the
//! requested labels) to the new buffer or to the parsed task list, with a
//! contract stating the exact result; the surrounding binary does the file
//! and terminal I/O.

use vstd::prelude::*;

pub mod laws;
pub mod lemmas;
pub mod model;
pub mod paths;
pub mod store;
pub mod style;
pub mod tasks;

verus! {

} // verus!
