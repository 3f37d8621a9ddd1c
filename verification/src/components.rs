//! The style enums of the catalog's controls, each with its default.
use vstd::prelude::*;

verus! {

/// The visual style of a button.
#[derive(Clone, Copy, Debug, PartialEq, Eq, Structural)]
pub enum ButtonVariant {
    Primary,
    Secondary,
    Outline,
    /// Transparent until hovered (the "ghost" style).
    Transparent,
    Destructive,
    Link,
}

impl Default for ButtonVariant {
    fn default() -> (r: ButtonVariant)
        ensures
            r == ButtonVariant::Primary,
    {
        ButtonVariant::Primary
    }
}

/// The size of a button.
#[derive(Clone, Copy, Debug, PartialEq, Eq, Structural)]
pub enum ButtonSize {
    Sm,
    Md,
    Lg,
}

impl Default for ButtonSize {
    fn default() -> (r: ButtonSize)
        ensures
            r == ButtonSize::Md,
    {
        ButtonSize::Md
    }
}

/// The highlight shape of a pressable region: a (rounded) rectangle bounded to
/// the box, or a circle centered on it.
#[derive(Clone, Copy, Debug, PartialEq, Eq, Structural)]
pub enum InkShape {
    Rectangle,
    Circle,
}

impl Default for InkShape {
    fn default() -> (r: InkShape)
        ensures
            r == InkShape::Rectangle,
    {
        InkShape::Rectangle
    }
}

/// The size of a selection control (checkbox, radio, switch, toggle).
#[derive(Clone, Copy, Debug, PartialEq, Eq, Structural)]
pub enum ToggleSize {
    Sm,
    Md,
    Lg,
}

impl Default for ToggleSize {
    fn default() -> (r: ToggleSize)
        ensures
            r == ToggleSize::Md,
    {
        ToggleSize::Md
    }
}

/// The visual style of a toggle button: transparent until active, or bordered.
#[derive(Clone, Copy, Debug, PartialEq, Eq, Structural)]
pub enum ToggleVariant {
    Default,
    Outline,
}

impl Default for ToggleVariant {
    fn default() -> (r: ToggleVariant)
        ensures
            r == ToggleVariant::Default,
    {
        ToggleVariant::Default
    }
}

/// The visual style of a tab strip: the active tab underlined, or in a pill.
#[derive(Clone, Copy, Debug, PartialEq, Eq, Structural)]
pub enum TabsVariant {
    Underline,
    Pills,
}

impl Default for TabsVariant {
    fn default() -> (r: TabsVariant)
        ensures
            r == TabsVariant::Underline,
    {
        TabsVariant::Underline
    }
}

} // verus!
