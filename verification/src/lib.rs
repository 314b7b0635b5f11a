//! Library for decoding a legacy fixed-width plot description format.
//!
//! A header stream carries fixed-column records that describe one chart
//! "block" after another (page dimensions, curve counts, labels, titles),
//! driven by a record-kind state machine that resets on blank lines.  A
//! companion curve stream carries titled point lists.  The library decodes
//! the records, accumulates autoscale axis bounds over the observed points,
//! and derives the per-block ratio sequences that compare each curve with
//! the first one.  Numbers are kept as exact decimal rationals.

pub mod rat;
pub mod decode;
pub mod settings;
pub mod machine;
pub mod curves;
pub mod ratio;
pub mod run;
