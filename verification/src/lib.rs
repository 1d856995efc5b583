//! zerowire: share a USB device over a paired, encrypted LAN connection.

pub mod bytes;
pub mod desktop;
pub mod gui;
pub mod protocol;
pub mod scan;
pub mod text;
