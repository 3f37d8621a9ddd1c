//! The light/dark theme switch.
use vstd::prelude::*;

verus! {

/// The theme after a dark-mode toggle of one whose darkness is `dark`: the
/// default dark theme after a light one, the default light theme after a dark one.
pub fn toggle_theme(dark: bool) -> (next_dark: bool)
    ensures
        next_dark == !dark,
{
    !dark
}

} // verus!
