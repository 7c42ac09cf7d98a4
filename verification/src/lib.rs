//! Arc* corner detection on a surface of active events.

pub mod sae_types;
pub mod surface;
pub mod ring;
pub mod arc;
pub mod detector;
