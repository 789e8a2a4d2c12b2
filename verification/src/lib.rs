//! Verified core of a thermal-printer monitor.

pub mod text;
pub mod json;
pub mod raster;
pub mod pdf;
pub mod model;
pub mod serial;
pub mod guards;
pub mod strategy;
pub mod escpos;
pub mod printers;
pub mod printer_cache;
pub mod api;
pub mod bluetooth;
pub mod network;
pub mod system;
