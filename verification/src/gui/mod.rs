//! What the window and the tray show, and what they do on events.

pub mod desktop;
pub mod indicator;
pub mod window;
