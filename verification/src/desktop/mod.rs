//! The Linux desktop side: receiver, sender and the pieces they share.

pub mod cli;
pub mod client;
pub mod discovery;
pub mod hid_descriptor;
pub mod hidraw;
pub mod key_state;
pub mod loopback;
pub mod receiver;
pub mod report;
pub mod sender;
pub mod tls;
pub mod uinput;
pub mod urb_driver;
pub mod urb_pump;
pub mod usbip;
pub mod usbip_receiver;
pub mod wire;
