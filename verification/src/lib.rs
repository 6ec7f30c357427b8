//! Metrics aggregation with output in the CloudWatch embedded metric format.
//!
//! A [`Collector`] keeps counters, gauges and histograms by name and label
//! set. A flush reads them into documents, one for each label set, and gives
//! the documents as JSON text, one to a line.
//!
//! The library is sequential and does no input or output: it is handed the
//! time and hands back text. Doubles are carried as their IEEE 754 bits and
//! are left as places in the text, for the caller to write out; see [`json`].
//!
//! * [`model`] says what a collector holds and what each operation makes of
//!   it; [`laws`] states what follows.
//! * [`collector`], [`register`] and [`flush`] are the operations.
//! * [`emf`] holds the documents, [`value`] their values and [`json`] their
//!   text.
//! * [`labels`], [`name_map`] and [`order`] hold the orders by which metrics
//!   are filed and found.
//! * [`builder`] makes a collector, and [`lambda`] ties it to the invocations
//!   of a Lambda function.

pub mod builder;
pub mod collector;
pub mod emf;
pub mod flush;
pub mod json;
pub mod labels;
pub mod lambda;
pub mod laws;
pub mod model;
pub mod name_map;
pub mod order;
pub mod preserve;
pub mod register;
pub mod value;

pub use builder::Builder;
pub use collector::Collector;
