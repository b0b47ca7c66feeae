//! Log levels and how each is shown on screen.

use vstd::prelude::*;
use crate::ui::Color;

verus! {

/// Severity of a log message.
#[derive(Clone, Copy, Debug, PartialEq, Eq, Structural)]
pub enum Level {
    Error,
    Warn,
    Info,
    Debug,
    Trace,
}

/// The screen color of a level.
pub fn level_color(level: Level) -> (r: Color)
    ensures
        r == (match level {
            Level::Trace => Color::Cyan,
            Level::Debug => Color::Blue,
            Level::Info => Color::Green,
            Level::Warn => Color::Yellow,
            Level::Error => Color::Red,
        }),
{
    match level {
        Level::Trace => Color::Cyan,
        Level::Debug => Color::Blue,
        Level::Info => Color::Green,
        Level::Warn => Color::Yellow,
        Level::Error => Color::Red,
    }
}

/// Whether the level's label is shown in bold on the serial console.
pub fn level_bold(level: Level) -> (r: bool)
    ensures
        r == (level == Level::Error),
{
    level == Level::Error
}

} // verus!
