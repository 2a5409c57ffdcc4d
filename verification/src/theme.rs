use vstd::prelude::*;

verus! {

/// A renderer-agnostic style for one piece of displayed text. Front ends map
/// each style to their own colors and borders.
#[derive(Clone, Copy, Debug, PartialEq, Eq)]
pub enum Style {
    Default,
    Error,
    Shadow,
    Emphasis,
}

impl Default for Style {
    /// The unstyled default.
    fn default() -> (s: Style)
        ensures
            s == Style::Default,
    {
        Style::Default
    }
}

/// The application theme: a stateless marker that front ends hang their
/// styling on.
#[derive(Default)]
pub struct Theme;

} // verus!
