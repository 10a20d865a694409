//! QR symbol encoder: GF(256) arithmetic, Reed-Solomon error correction,
//! message encoding and module-matrix layout.
pub mod tables;
pub mod galois;
pub mod polynomial;
pub mod utils;
pub mod reed_solomon;
pub mod qr_code;
