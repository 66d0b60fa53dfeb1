//! Configuration handed to an evaluator or code generator: the tape length
//! and the width of one cell.

use vstd::prelude::*;

verus! {

/// Describes the memory model a downstream evaluator or code generator
/// must realise: how many cells the tape has and how many bytes one cell
/// occupies (one byte for the canonical 8-bit cells).
#[derive(Debug, Clone, PartialEq, Eq, Structural)]
pub struct BrainfuckConfig {
    /// Size of the memory tape (number of cells)
    pub tape_size: usize,
    /// Size of each memory cell in bytes (usually 1)
    pub cell_size: usize,
}

impl Default for BrainfuckConfig {
    /// The canonical configuration: 30000 cells of one byte each.
    fn default() -> (c: Self)
        ensures
            c.tape_size == 30000,
            c.cell_size == 1,
    {
        Self { tape_size: 30000, cell_size: 1 }
    }
}

impl BrainfuckConfig {
    /// Create a new configuration with custom values.
    pub fn new(tape_size: usize, cell_size: usize) -> (c: Self)
        ensures
            c.tape_size == tape_size,
            c.cell_size == cell_size,
    {
        Self { tape_size, cell_size }
    }

    /// A configuration sized for small programs: 1000 one-byte cells.
    pub fn small() -> (c: Self)
        ensures
            c.tape_size == 1000,
            c.cell_size == 1,
    {
        Self { tape_size: 1000, cell_size: 1 }
    }

    /// A configuration sized for large programs: 100000 one-byte cells.
    pub fn large() -> (c: Self)
        ensures
            c.tape_size == 100000,
            c.cell_size == 1,
    {
        Self { tape_size: 100000, cell_size: 1 }
    }
}

} // verus!
