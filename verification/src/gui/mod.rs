//! The desktop window's logic: pairing, the QR code and the daemon's status.

pub mod daemon;
pub mod pairing;
pub mod qr;
