//! The decisions behind the Grayline RTTY and WEFAX applications, verified.
//!
//! Everything here is plain state and the rules that change it: the text a
//! contact prints, the message queue a transmission is keyed from, the strip a
//! chart is drawn on, and the small machines the workers report through. The
//! window, the sound card and the files are driven from outside and hand this
//! crate plain values.

pub mod chart;
pub mod clock;
pub mod devices;
pub mod history;
pub mod input;
pub mod library;
pub mod macros;
pub mod menu;
pub mod paths;
pub mod phase;
pub mod publish;
pub mod recording;
pub mod rx;
pub mod scope;
pub mod scrollback;
pub mod session;
pub mod sstv_menu;
pub mod strip;
pub mod text;
pub mod transmit;
