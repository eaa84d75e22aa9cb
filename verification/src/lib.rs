//! Retrieval and merging of per-day vessel telemetry streams.
//!
//! A remote data hub serves irregularly sampled sensor streams for marine
//! vessels. This library holds the verified core of a per-day export tool:
//! the record model, the ordered merge-join that pairs longitude and latitude
//! samples on exact timestamps, the defensive sort of fetched streams, and
//! the fan-in logic that turns a batch of concurrent fetch results into
//! either a set of non-empty streams or a single fatal error.
//!
//! Network transfer, JSON decoding and CSV output are left to the
//! surrounding application; the library works on plain values.

pub mod data;
pub mod date;
pub mod merge;
pub mod orchestrator;
pub mod sort;
