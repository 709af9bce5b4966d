//! Platform default for Windows hosts.

use vstd::prelude::*;

use crate::via::Layout;

verus! {

/// Determines layout for this OS: on Windows we set Windows layout.
pub fn target_layout() -> (r: Layout)
    ensures
        r == Layout::Windows,
{
    Layout::Windows
}

} // verus!
