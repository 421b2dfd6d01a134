//! Inventory of JBOD disk shelves: enclosure discovery, slot-to-device
//! correlation, per-disk attributes, indicator LED addressing and fan readings.
//!
//! The library works on plain text and plain values. Running the diagnostic
//! tools and touching sysfs is left to the caller; every rule that turns their
//! output into a topology lives here and is proved against its contract.

pub mod disks;
pub mod enclosure;
pub mod exporter;
pub mod helper;
pub mod order;
pub mod overview;
pub mod table;
pub mod text;
