//! Core of a modal, compositor-rendered pop-up menu: key chords are parsed
//! and matched against a hierarchical menu tree, and a session state machine
//! drives the pop-up surface through its configure / redraw / seat lifecycle.
//!
//! Everything pixel- or protocol-specific (drawing, the compositor
//! connection, configuration files) lives outside this crate; the logic here
//! works on plain values and is verified.

pub mod config;
pub mod keys;
pub mod menu;
pub mod session;
