//! Interactive runtime core for a modal terminal editor.
//!
//! The crate covers the three parts that make such an editor's behaviour
//! subtle: the modal key-sequence dispatch engine (pending sequences, numeral
//! counts, ambiguity and timeout resolution), the layered compositor (an
//! ordered stack of UI components owning focus, event routing and occluding
//! render), and the application event loop (a small state machine that
//! serialises input, background-job completions and redraws).

pub mod application;
pub mod commands;
pub mod compositor;
pub mod keymap;
pub mod ui;
