//! An interactive fuzzy-selection engine for terminal programs.
//!
//! The crate holds the whole decision logic of a picker widget: ranking the
//! candidates against the typed prompt, keeping the scroll window and the
//! selection cursor, turning input events into state changes and laying out
//! the frame to paint. Terminal input and output stay with the caller, which
//! feeds events in and paints the frames that come back.

pub mod event;
pub mod frame;
pub mod matcher;
pub mod picker;
pub mod rank;
pub mod session;
pub mod window;
