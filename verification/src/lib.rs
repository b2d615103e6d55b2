//! Verified core of a terminal hardware telemetry monitor.
//!
//! One cycle of the monitor takes a `snapshot::Snapshot` of the machine and
//! makes of it the lines of a report and, where a temperature sensor
//! overheats, the plan of an audible alert:
//!
//! - `sensor` selects the temperature sensors of the core group and of the
//!   GPU group by their labels (`label`) and puts each group in the order of
//!   the ordinals in the labels (`ordinal`, `order`);
//! - `threshold` judges each reading against the fixed ceiling;
//! - `render` writes the report, with byte quantities scaled by `memory` and
//!   the network interfaces in the order of their names (`network`);
//! - `alert` plans the pulses of the alert and the pauses before them;
//! - `cycle` ties these into one pass.
//!
//! Temperatures and usages are single-precision values. They are held as
//! bit patterns (`binary32`) and compared and written by integer arithmetic
//! (`decimal`), so that every result is stated and proved exactly.

pub mod alert;
pub mod binary32;
pub mod cycle;
pub mod decimal;
pub mod label;
pub mod memory;
pub mod network;
pub mod order;
pub mod ordinal;
pub mod render;
pub mod sensor;
pub mod snapshot;
pub mod threshold;
