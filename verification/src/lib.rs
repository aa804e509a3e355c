//! A two-dimensional particle universe in which every particle type may emit
//! a scalar field, and every particle answers to the fields around it.
//!
//! All quantities are [`fixed::Fixed`] numbers: signed, with six decimal
//! places, and with arithmetic that saturates instead of overflowing. Every
//! result is therefore an exact function of the inputs, stated in the
//! contracts below and the same on every machine.

pub mod components;
pub mod curve;
pub mod editor;
pub mod fixed;
pub mod physics;
pub mod resources;
pub mod spawner;
pub mod vector;
pub mod visual;
