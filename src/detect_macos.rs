//! Platform default for macOS hosts.

use vstd::prelude::*;

use crate::via::Layout;

verus! {

/// Determines layout for this OS: on macOS we set Mac layout.
pub fn target_layout() -> (r: Layout)
    ensures
        r == Layout::Mac,
{
    Layout::Mac
}

} // verus!
