//! Chat-export statistics: turns exported chat lines into `Date,Hour,Name`
//! rows for the messages that hold a marker, and tallies those rows per
//! sender by hour of day and by day of week.
pub mod chart;
pub mod chat;
pub mod external;
pub mod laws;
pub mod tally;
pub mod text;
