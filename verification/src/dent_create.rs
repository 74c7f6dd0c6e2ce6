//! The kind field of a create request.

use vstd::prelude::*;
use crate::interface::{Gate, Service};

verus! {

/// Which kind of entry a create request asks for, with the payload the
/// kind needs.
pub enum Kind {
    Directory,
    File,
    FacetedDirectory,
    Gate(Gate),
    Service(Service),
    Blob,
}

} // verus!
