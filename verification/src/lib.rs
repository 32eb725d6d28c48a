//! Verified core of a screen recorder: the frame stack shared between the
//! capture and palette workers, colour counting and palette selection,
//! capture-region geometry, post-processing settings and controller placement.

pub mod stack;
pub mod palette;
pub mod post_processing;
pub mod capture;
pub mod ui;
