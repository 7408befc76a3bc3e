//! The decisions behind a Windows desktop automation server.
//!
//! A client asks to see windows, to act on a control, to read the screen, to
//! wait, or to start an application. What is asked for is checked, resolved and
//! answered here, on plain values; reading the desktop and sending input to it
//! are left to the program around this library.
//!
//! - [`text`] matches labels, and [`keys`] reads key specifications.
//! - [`lease`] signs the authority to act on one window, and [`scope_text`] reads
//!   it back.
//! - [`uia`] surveys a window's element tree and acts on an element of it.
//! - [`ocr`] finds text in what was read off the screen.
//! - [`capture`] compares, crops and encodes pictures of the screen.
//! - [`input`] works out mouse and keyboard events.
//! - [`guard`] is the emergency stop and the launch allowlist.
//! - [`server`] decides who is served, and with what.
//! - [`laws`] states what holds of all of this together.

pub mod capture;
pub mod chars;
pub mod foreign;
pub mod guard;
pub mod input;
pub mod keys;
pub mod laws;
pub mod lease;
pub mod ocr;
pub mod scope_text;
pub mod server;
pub mod text;
pub mod uia;
