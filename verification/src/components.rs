//! The renderers: progress gauges, the braille line chart and the
//! sortable list view, with the glyph tables they share.

pub mod bar;
pub mod chart;
pub mod glyphs;
pub mod listview;
pub mod sorting;
