//! A staleness-tracked registry of environmental sensor readings.
//!
//! Sensor tags broadcast manufacturer-specific payloads; the library decodes
//! them into readings, keeps the latest reading of every device together with
//! the time it was last seen, and evicts devices that fell silent.
pub mod address;
pub mod decoder;
pub mod gauges;
pub mod laws;
pub mod reading;
pub mod watchdog;

pub use address::DeviceAddress;
pub use decoder::{event_address, parse_event, parse_manufacturer_data, DeviceEvent, MANUFACTURER_ID};
pub use gauges::{DeviceEntry, RuuviGauges, Sample, CLEANUP_PERIOD_MS, STALE_TIMEOUT_MS};
pub use laws::Step;
pub use reading::{Quantity, SensorReading};
pub use watchdog::{WaitStep, Watchdog};
