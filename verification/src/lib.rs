//! Building blocks for terminal dashboards: progress gauges, a braille
//! line chart and a sortable list view, each rendering into a fixed-size
//! block of styled text.

pub mod components;
pub mod plugin;
pub mod text;
pub mod widget;
