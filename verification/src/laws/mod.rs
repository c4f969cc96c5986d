//! What the library promises, said without the functions that its contracts
//! are written with: each law speaks of the given values and of the result in
//! characters, positions and literal text, or relates two results.

pub mod cli;
pub mod connect;
pub mod netplan;
pub mod render;
pub mod scan;
pub mod signal;
pub mod system;
pub mod text;
pub mod tui;
pub mod views;
