//! A rolling window of the most recent lines of a stream, redrawn in place on
//! an interactive terminal.
//!
//! The library decides what to write for every incoming line; it performs no
//! input or output itself. A [`renderer::Renderer`] turns each line into a
//! list of terminal operations, and [`page::Page`] is the mathematical model
//! of a terminal against which the redraw algorithm is proved.

pub mod text;
pub mod decimal;
pub mod policy;
pub mod mode;
pub mod terminal;
pub mod window;
pub mod single_line;
pub mod multi_line;
pub mod renderer;
pub mod page;
pub mod display;
pub mod erasure;
pub mod reset;
pub mod history;
pub mod args;
