//! Daily activity tracking: a registry of named activity types, a log of
//! per-day completions, and the models behind a calendar heat-map display
//! with an activity selector and popup editors.

pub mod activites;
pub mod activity_popup;
pub mod activity_selector;
pub mod confirmation_popup;
pub mod daila;
pub mod date;
pub mod heatmap;
pub mod input;
pub mod popup;
pub mod rect;
