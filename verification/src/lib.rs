//! Scanning for WiFi networks, connecting to one through netplan, and the
//! terminal screens in between: every decision, every text that is read and
//! every line that is drawn.
//!
//! - [`text`]: text as sequences of characters.
//! - [`signal`], [`scan`]: the networks in range, from the output of a scan.
//! - [`system`]: what the commands that were run have answered.
//! - [`netplan`]: the configuration that connects to a network.
//! - [`connect`]: an attempt to connect, one action at a time.
//! - [`tui`]: the state of the screens, and how keys change it.
//! - [`geometry`], [`label`], [`render`]: what the screens show, and where.
//! - [`cli`]: arguments, and what is printed without the screens.
//! - [`laws`]: what all of this promises.

pub mod cli;
pub mod connect;
pub mod geometry;
pub mod label;
pub mod laws;
pub mod netplan;
pub mod render;
pub mod scan;
pub mod signal;
pub mod system;
pub mod text;
pub mod tui;
