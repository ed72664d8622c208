//! Decoder output parsers: multimon-ng (POCSAG/APRS), dsd-neo (digital
//! voice), AIVDM (AIS) and FT8 decoders. All tolerant — decoder builds
//! vary.

pub mod ais;
pub mod dsd;
pub mod ft8;
pub mod multimon;
pub mod sbs;
