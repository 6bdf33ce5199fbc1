//! Explicit binary encodings for enumerated types: from a layout that was
//! already decided to a description that says which bytes identify each
//! variant and how to tell the variants apart again.

pub mod convert;
pub mod decide;
pub mod enums;
pub mod guarantees;
pub mod integer;
pub mod layout;
pub mod memory;
pub mod program;
pub mod storage;
pub mod syntax;
pub mod terminator;
pub mod types;
pub mod well_formed;
