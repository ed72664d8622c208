//! Signal simulators: bit-exact transmissions (POCSAG, AX.25, Baudot, AIS)
//! and decoded-line feeds, so every mode runs without RF.

pub mod ais;
pub mod ax25;
pub mod baudot;
pub mod lines;
pub mod pocsag;
pub mod voice;
