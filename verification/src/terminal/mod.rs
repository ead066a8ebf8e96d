//! Terminals: their event stream, replay history, screen and worker.
pub mod capture;
pub mod emulator;
pub mod graphics;
pub mod grid;
pub mod limits;
pub mod manager;
pub mod palette;
pub mod registry;
pub mod replay;
pub mod screen;
pub mod shell;
pub mod snapshot;
pub mod stream;
pub mod waits;
pub mod wire;
pub mod worker;

use vstd::prelude::*;

verus! {

/// Default colours of a terminal, as `0xRRGGBB`.
#[derive(Debug, Clone, Copy, PartialEq, Eq, Structural)]
pub struct TerminalTheme {
    pub foreground: u32,
    pub background: u32,
    pub cursor: u32,
}

impl TerminalTheme {
    /// Light grey on dark grey.
    pub open spec fn standard() -> TerminalTheme {
        TerminalTheme { foreground: 0xe4e4e4, background: 0x2c2c2c, cursor: 0xe4e4e4 }
    }

    pub fn new(foreground: u32, background: u32, cursor: u32) -> (theme: Self)
        ensures
            theme == (TerminalTheme { foreground, background, cursor }),
    {
        Self { foreground, background, cursor }
    }
}

impl Default for TerminalTheme {
    fn default() -> (theme: Self)
        ensures
            theme == TerminalTheme::standard(),
    {
        Self::new(0xe4e4e4, 0x2c2c2c, 0xe4e4e4)
    }
}

/// The colours of a terminal that no theme was chosen for: light grey on dark
/// grey.
pub proof fn the_standard_theme_is_grey()
    ensures
        TerminalTheme::standard().foreground == 0xe4e4e4,
        TerminalTheme::standard().background == 0x2c2c2c,
        TerminalTheme::standard().cursor == 0xe4e4e4,
{
}

} // verus!
