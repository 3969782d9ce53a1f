//! Verified core logic of a set of accessible UI primitives: virtual-list
//! windowing, option registries, typeahead matching, attribute merging,
//! keyboard decision tables and the small state machines the components run.
use vstd::prelude::*;

pub mod attributes;
pub mod disclosure;
pub mod escape_stack;
pub mod input_otp;
pub mod keyboard;
pub mod placement;
pub mod pointer;
pub mod portal;
pub mod radio_group;
pub mod resizable;
pub mod scroll_lock;
pub mod scroll_area;
pub mod selection;
pub mod state;
pub mod seq_search;
pub mod typeahead;
pub mod virtual_list;
pub mod window;

verus! {
} // verus!
