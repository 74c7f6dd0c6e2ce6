//! The selector of an open request: a plain name under a directory, or a
//! facet label under a faceted directory.

use vstd::prelude::*;
use crate::buckle::Buckle;

verus! {

/// What an open call selects under its base entry.
pub enum Entry {
    Name(String),
    Facet(Buckle),
}

} // verus!
