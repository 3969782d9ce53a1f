//! Scroll areas: which axes scroll, and how their scrollbars show.
use vstd::prelude::*;

verus! {

/// The axes along which a scroll area scrolls.
#[derive(Clone, Copy, Debug, PartialEq, Eq, Structural)]
pub enum ScrollDirection {
    /// Up and down only.
    Vertical,
    /// Left and right only.
    Horizontal,
    /// Both axes.
    Both,
}

impl Default for ScrollDirection {
    /// Both axes.
    fn default() -> (direction: Self)
        ensures
            direction == ScrollDirection::Both,
    {
        ScrollDirection::Both
    }
}

impl ScrollDirection {
    /// The direction's name, as used in `data-scroll-direction`.
    pub fn as_str(self) -> (name: &'static str)
        ensures
            name@ == (match self {
                ScrollDirection::Vertical => "vertical"@,
                ScrollDirection::Horizontal => "horizontal"@,
                ScrollDirection::Both => "both"@,
            }),
    {
        match self {
            ScrollDirection::Vertical => "vertical",
            ScrollDirection::Horizontal => "horizontal",
            ScrollDirection::Both => "both",
        }
    }
}

/// How scrollbars show.
#[derive(Clone, Copy, Debug, PartialEq, Eq, Structural)]
pub enum ScrollType {
    /// Only when the content overflows.
    Auto,
    /// Always.
    Always,
    /// Never (the area still scrolls).
    Hidden,
}

impl Default for ScrollType {
    /// Only when the content overflows.
    fn default() -> (scroll_type: Self)
        ensures
            scroll_type == ScrollType::Auto,
    {
        ScrollType::Auto
    }
}

/// A CSS `overflow` value.
#[derive(Clone, Copy, Debug, PartialEq, Eq, Structural)]
pub enum Overflow {
    /// `hidden`: no scrolling along the axis.
    Hidden,
    /// `auto`: scrollbars when the content overflows.
    Auto,
    /// `scroll`: always scrollable.
    Scroll,
}

impl Overflow {
    /// The CSS keyword.
    pub fn as_str(self) -> (keyword: &'static str)
        ensures
            keyword@ == (match self {
                Overflow::Hidden => "hidden"@,
                Overflow::Auto => "auto"@,
                Overflow::Scroll => "scroll"@,
            }),
    {
        match self {
            Overflow::Hidden => "hidden",
            Overflow::Auto => "auto",
            Overflow::Scroll => "scroll",
        }
    }
}

/// The styles a scroll area gets.
#[derive(Clone, Copy, Debug, PartialEq, Eq, Structural)]
pub struct ScrollStyles {
    /// `overflow-x`.
    pub overflow_x: Overflow,
    /// `overflow-y`.
    pub overflow_y: Overflow,
    /// Whether `scrollbar-width: none` hides the scrollbars.
    pub hide_scrollbars: bool,
}

/// The overflow of an axis: hidden when it does not scroll, else `auto`
/// for auto scrollbars and `scroll` otherwise; scrollbars are hidden only
/// for `Hidden`.
pub fn scroll_styles(scroll_type: ScrollType, direction: ScrollDirection) -> (styles: ScrollStyles)
    ensures
        styles.overflow_x == (if direction == ScrollDirection::Vertical {
            Overflow::Hidden
        } else if scroll_type == ScrollType::Auto {
            Overflow::Auto
        } else {
            Overflow::Scroll
        }),
        styles.overflow_y == (if direction == ScrollDirection::Horizontal {
            Overflow::Hidden
        } else if scroll_type == ScrollType::Auto {
            Overflow::Auto
        } else {
            Overflow::Scroll
        }),
        styles.hide_scrollbars == (scroll_type == ScrollType::Hidden),
{
    let scrolls = match scroll_type {
        ScrollType::Auto => Overflow::Auto,
        _ => Overflow::Scroll,
    };
    let overflow_x = match direction {
        ScrollDirection::Vertical => Overflow::Hidden,
        _ => scrolls,
    };
    let overflow_y = match direction {
        ScrollDirection::Horizontal => Overflow::Hidden,
        _ => scrolls,
    };
    let hide_scrollbars = match scroll_type {
        ScrollType::Hidden => true,
        _ => false,
    };
    ScrollStyles { overflow_x, overflow_y, hide_scrollbars }
}

/// The class that decides whether scrollbars stay visible or hide when
/// idle.
pub fn visibility_class(always_show: bool) -> (class: &'static str)
    ensures
        class@ == if always_show { "dx-scroll-area-always-show"@ } else { "dx-scroll-area-auto-hide"@ },
{
    if always_show {
        "dx-scroll-area-always-show"
    } else {
        "dx-scroll-area-auto-hide"
    }
}

} // verus!
