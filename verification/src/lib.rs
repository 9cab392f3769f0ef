//! A small engine for Euclidean rhythms: binary step patterns that spread a
//! chosen number of pulses as evenly as possible over a chosen number of
//! steps, together with the bookkeeping a sequencer needs (valid pulse
//! counts, rotation, and a playback position).

pub mod events;
pub mod numbers;
pub mod pattern;
pub mod rhythm;

pub use events::EknType;
pub use rhythm::Ekn;
