//! Abstraction over terminal emulation backends.

use vstd::prelude::*;

verus! {

/// A terminal emulator that the application drives: it is fed the bytes a
/// shell writes, reports its grid size, and can be resized.
pub trait TerminalBackend {
    /// Feed raw bytes from PTY into the terminal emulator.
    fn process_bytes(&mut self, bytes: &[u8]);

    /// Get the terminal grid dimensions (columns, rows).
    fn size(&self) -> (u16, u16);

    /// Resize the terminal.
    fn resize(&mut self, cols: u16, rows: u16);
}

} // verus!
