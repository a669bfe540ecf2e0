//! Plain-value models of the X11 objects the tracker works with.

pub mod display;
pub mod window;

pub use self::display::Display;
