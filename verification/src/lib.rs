//! Register decoding and value-mapping engine for a solar-inverter poller.
//!
//! The library turns raw sequences of 16-bit register words into typed
//! values, applies schema-driven post-processing (precision scaling or
//! enum resolution), expands recurring "statistic" schema entries into
//! per-day historical readings, and builds the datapoints of one poll
//! cycle with per-entry failure isolation.  All I/O (the field-protocol
//! transport, the time-series sink, configuration files) stays outside:
//! callers hand in register words and read results, and take datapoints
//! back.

pub mod app_config;
pub mod convert;
pub mod cycle;
pub mod inverter_config;
pub mod statistics;
