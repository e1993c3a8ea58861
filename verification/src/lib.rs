//! Calendar-style activity graphs for the terminal.
//!
//! The crate turns a series of daily activity counts into a week-by-weekday
//! grid. Two independent parts do the work: the range calculator derives
//! five intensity thresholds from the distribution of the counts, and the
//! calendar layout maps a date range onto week columns with month labels.
//! The graph generator composes both into text.
//!
//! Around this core stand the configuration, the reading of the activity
//! calendar that the service answers with, and the choice of colours for
//! the graph and for the summary beside it.

pub mod calendar_layout;
pub mod config_manager;
pub mod contribution_analyzer;
pub mod date;
pub mod errors;
pub mod github_client;
pub mod graph_generator;
pub mod info_text;
pub mod palette;
