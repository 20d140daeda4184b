//! A terminal front-end for the `toilet` banner renderer: the font catalog,
//! the command lines that are shown and run, and the session state behind them.

pub mod command;
pub mod focus;
pub mod fonts;
pub mod opts;
pub mod state;
pub mod text;
