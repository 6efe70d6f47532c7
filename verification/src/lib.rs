//! Text statistics for files: lines, words, bytes, characters and the longest
//! line, with a tabular report over several files.
//!
//! [`count`] measures one text. [`metrics`] holds the measures of a file and
//! the totals over several, [`layout`] writes them as rows, and [`wc`] puts
//! the report together from what reading each file gave. [`laws`] states what
//! holds of every text and every report.

pub mod colors;
pub mod count;
pub mod decimal;
pub mod laws;
pub mod layout;
pub mod metrics;
pub mod notice;
pub mod wc;
