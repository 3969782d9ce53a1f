//! Where floating content sits relative to its trigger, and the attribute
//! values that tie the two together.
use vstd::prelude::*;
use vstd::string::StringExecFns;

verus! {

/// The side of the trigger on which the content is displayed.
#[derive(Clone, Copy, Debug, PartialEq, Eq, Structural)]
pub enum ContentSide {
    /// Above the trigger.
    Top,
    /// To the right of the trigger.
    Right,
    /// Below the trigger.
    Bottom,
    /// To the left of the trigger.
    Left,
}

impl ContentSide {
    /// The side's name, as used in `data-side`.
    pub fn as_str(&self) -> (name: &'static str)
        ensures
            name@ == (match *self {
                ContentSide::Top => "top"@,
                ContentSide::Right => "right"@,
                ContentSide::Bottom => "bottom"@,
                ContentSide::Left => "left"@,
            }),
    {
        match self {
            ContentSide::Top => "top",
            ContentSide::Right => "right",
            ContentSide::Bottom => "bottom",
            ContentSide::Left => "left",
        }
    }
}

/// How the content is aligned along the trigger's side.
#[derive(Clone, Copy, Debug, PartialEq, Eq, Structural)]
pub enum ContentAlign {
    /// Aligned to the start of the trigger.
    Start,
    /// Centered on the trigger.
    Center,
    /// Aligned to the end of the trigger.
    End,
}

impl ContentAlign {
    /// The alignment's name, as used in `data-align`.
    pub fn as_str(&self) -> (name: &'static str)
        ensures
            name@ == (match *self {
                ContentAlign::Start => "start"@,
                ContentAlign::Center => "center"@,
                ContentAlign::End => "end"@,
            }),
    {
        match self {
            ContentAlign::Start => "start",
            ContentAlign::Center => "center",
            ContentAlign::End => "end",
        }
    }
}

/// The kind of top-layer popover an overlay is promoted to.
#[derive(Clone, Copy, Debug, PartialEq, Eq, Structural)]
pub enum PopoverKind {
    /// `popover="auto"`: light-dismissed by Escape and outside presses.
    Auto,
    /// `popover="manual"`: only closed explicitly.
    Manual,
}

impl PopoverKind {
    /// The `popover` attribute's value.
    pub fn as_str(self) -> (value: &'static str)
        ensures
            value@ == (match self {
                PopoverKind::Auto => "auto"@,
                PopoverKind::Manual => "manual"@,
            }),
    {
        match self {
            PopoverKind::Auto => "auto",
            PopoverKind::Manual => "manual",
        }
    }
}

/// The `style` that names a trigger as the anchor of the content with id
/// `id`: `anchor-name: --dxa-<id>;`.
pub fn anchor_name_style(id: &str) -> (style: String)
    ensures
        style@ == "anchor-name: --dxa-"@ + id@ + ";"@,
{
    let mut style = String::from_str("anchor-name: --dxa-");
    style.append(id);
    style.append(";");
    style
}

/// The `style` that positions content with id `id` against the anchor its
/// trigger named: `position-anchor: --dxa-<id>;`.
pub fn position_anchor_style(id: &str) -> (style: String)
    ensures
        style@ == "position-anchor: --dxa-"@ + id@ + ";"@,
{
    let mut style = String::from_str("position-anchor: --dxa-");
    style.append(id);
    style.append(";");
    style
}

} // verus!
