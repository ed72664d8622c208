//! deck — the verified core of an SDR receiver deck.

pub mod sys;
pub mod text;
pub mod ui;
pub mod config;
pub mod freq;
pub mod keys;
pub mod audio;
pub mod bands;
pub mod modes;
pub mod parse;
pub mod device;
pub mod doctor;
pub mod dsp;
pub mod pipeline;
pub mod rec;
pub mod scan;
pub mod session;
pub mod sim;
