//! Daily activity report for a group's members: who has gone quiet, for how
//! long, who holds the longest streaks, and whom to remove.
pub mod date;
pub mod json;
pub mod numeric;
pub mod period;
pub mod report;
