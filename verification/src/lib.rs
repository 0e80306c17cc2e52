//! The deck: what a two-button player knows about tracks, cues, panels and the
//! wire, with every rule stated as a contract and proved.

pub mod app;
pub mod browser;
pub mod cli;
pub mod cue;
pub mod display;
pub mod engine;
pub mod file;
pub mod input;
pub mod loaded;
pub mod media;
pub mod path;
pub mod ring;
pub mod rt;
pub mod scan;
pub mod sink;
pub mod sndfile;
pub mod surface;
pub mod text;
pub mod transport;
pub mod window;
