//! Changes to the layout of the database.

use vstd::prelude::*;
use crate::text::{contains_text, holds_text};

verus! {

/// Whether the error of a change to the layout only says that the change was
/// made before: a column that is to be added is already there.
pub fn already_applied(error: &str) -> (r: bool)
    ensures
        r == holds_text(error@, "duplicate column name"@),
{
    contains_text(error, "duplicate column name")
}

} // verus!
