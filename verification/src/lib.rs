//! Thematic equity indices: a verified weighting engine, and the decisions of
//! the services around it.
//!
//! The engine turns a batch of companies into the constituents of an index.
//! Three factors of each company are put on one scale, combined into a score,
//! and turned into weights that sum to one whole; the constituents are then
//! ranked by weight. See [`weighting`] for the records, [`factors`],
//! [`allocation`] and [`ranking`] for the steps, [`engine`] for the whole and
//! [`statistics`] for the figures of an index. What holds of the engine for
//! every batch is proved in [`laws`].
//!
//! All quantities are whole numbers in fixed units (see [`units`]), so that
//! every result is determined to the last digit: points in millionths,
//! fractions of the index in parts per billion, market values in whole
//! currency units, logarithms in binary fractions of a decade
//! (see [`logarithm`] and, for how close they are to the true ones,
//! [`log_accuracy`]). Every division rounds down.
//!
//! Around the engine stand the parts of the data, classification, newsletter
//! and web services that decide or compute without reaching outside:
//! [`ingestion`], [`classifier`], [`newsletter`] and [`api`], with
//! [`calendar`] and [`text`] beneath them.

pub mod allocation;
pub mod api;
pub mod calendar;
pub mod classifier;
pub mod engine;
pub mod factors;
pub mod ingestion;
pub mod laws;
pub mod log_accuracy;
pub mod logarithm;
pub mod newsletter;
pub mod ranking;
pub mod series;
pub mod statistics;
pub mod text;
pub mod units;
pub mod weighting;
