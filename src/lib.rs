//! Session bookkeeping for an embedded terminal, and the small text rules
//! that the desktop companion applies to configuration entries and paths.
//!
//! The library decides; the host performs the I/O. Pseudoterminals, child
//! processes and the file system are driven by the host application, which
//! hands plain values to the functions here and acts on what they return.

pub mod codec;
pub mod entries;
pub mod mcp;
pub mod registry;
pub mod scanner;
pub mod skills;
pub mod stream;
pub mod tcc;
pub mod terminal;
pub mod text;
