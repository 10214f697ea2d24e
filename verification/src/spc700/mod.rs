//! Parts of the sound subsystem (SPC700 side).
pub mod events;
pub mod timers;
