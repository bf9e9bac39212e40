//! Core of a small desktop overlay: trimming the transparent border off an
//! RGBA icon, decoding the icon from its encoded bytes, and choosing the
//! settings the overlay shows.

pub mod decode;
pub mod raster;
pub mod settings;
pub mod trim;
pub mod trim_proofs;
