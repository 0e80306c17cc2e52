//! The deck's own loop: the modules joined to each other.
//!
//! What each half of the loop decides stands here, apart from the threads and
//! the devices it decides for.

pub mod audio;
pub mod track;
pub mod deck;
pub mod controls;
pub mod medium;
pub mod panel;
