//! Sorting algorithms taken apart into single, resumable steps, so that a
//! visualiser can advance them one comparison at a time and paint the
//! sequence between steps.

pub mod algorithm;
pub mod bubble;
pub mod gnome;
pub mod insertion;
pub mod registry;
pub mod selection;
pub mod sequence;
pub mod session;
