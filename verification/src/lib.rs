//! Rust Viewer Pro — the verified core of a fast image viewer.
//!
//! The modules hold the viewer's decisions as plain values with contracts:
//! which files form a playlist, which images are kept decoded around the
//! current one, how keyboard intents move through the playlist, how a decoded
//! image is fitted under a size cap, and how the self-update flow moves from
//! one status to the next. Windowing, threads, the network and the disk stay
//! outside, in the application that drives these functions.

pub mod decode;
pub mod frame;
pub mod image_loader;
pub mod input;
pub mod path_order;
pub mod update;
pub mod viewer;
