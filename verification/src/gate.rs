//! The wire form of a gate: direct, or a redirect to another gate.

use vstd::prelude::*;
use crate::interface::{DirectGate, RedirectGate};

verus! {

/// Which sort of gate a create request carries.
pub enum Kind {
    Direct(DirectGate),
    Redirect(RedirectGate),
}

} // verus!
