//! A daemon that plays an internet radio station.
//!
//! The daemon reads an mp3 stream with interleaved song titles, plays it, tells over
//! HTTP what it plays, takes commands to start and stop, and announces itself in the
//! local network. This library decides what the daemon does; input and output are
//! left to the program around it.

pub mod control;
pub mod error;
pub mod headers;
pub mod icy;
pub mod icy_stream;
pub mod ipv4;
pub mod logging;
pub mod playback;
pub mod player;
pub mod retry;
pub mod service;
pub mod text;
pub mod title;
