//! Exact, integer-only perception for stealth simulations: which targets a
//! light reaches, and which lit targets a watcher sees.
//!
//! Positions are points of an integer lattice (pick any unit, for example
//! millimetres), cone apertures are rational cosines, and every comparison
//! is carried out exactly. Ray casting against scene geometry is left to
//! the caller: the passes in [`illumination`] and [`visibility`] say which
//! ray they need next and take the nearest hit back.

pub mod geometry;
pub mod illumination;
pub mod registry;
pub mod sector;
pub mod sight;
pub mod visibility;
pub mod wide;
