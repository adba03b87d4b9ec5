//! Pitch tracking for a singing tuner: note naming, the pitch-history ring
//! buffer behind the scrolling spectrograph, the sample window that feeds
//! the pitch detector, and the queue of captured samples.

pub mod capture;
pub mod notes;
pub mod pitch;
pub mod spectrograph;
pub mod window;
