//! A verified log-line highlighting core for a terminal dashboard.
//!
//! Two components make up the library: [`SelectableList`], an ordered
//! collection with at most one highlighted index, and a log highlighter
//! that turns raw log lines into styled, render-ready segments.

#![verifier::loop_isolation(false)]

pub mod highlight;
pub mod home;
pub mod laws;
pub mod pattern;
pub mod selectable_list;
pub mod style;

pub use highlight::LogHighlighter;
pub use home::Home;
pub use selectable_list::SelectableList;
pub use style::{Segment, Style, StyledLine};
