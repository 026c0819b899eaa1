//! Telemetry link of a sensor-carrying drone: COBS framing of a serial byte
//! stream, decoding of the framed records, and the per-axis sliding windows
//! that smooth the decoded samples.
pub mod frame;
pub mod record;
pub mod window;
pub mod pipeline;
pub mod device;
pub mod config;
