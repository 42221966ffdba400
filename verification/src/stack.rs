//! The value stack: an ordered sequence of cells, accessed last-in-first-out
//! at the top. A cell is either a resolved number (a binary64 bit pattern) or
//! an unresolved variable reference; a cell's tag never changes after it is
//! pushed, and a variable cell is resolved only when it is consumed.
use vstd::prelude::*;

use crate::token::copy_chars;

verus! {

/// One stack cell.
#[derive(Debug, PartialEq, Eq)]
pub enum Cell {
    /// A number, as its binary64 bit pattern.
    Num(u64),
    /// An unresolved reference to a variable, by name.
    Var(Vec<char>),
}

/// The specification-level image of a cell.
pub enum CellV {
    Num(u64),
    Var(Seq<char>),
}

impl View for Cell {
    type V = CellV;

    open spec fn view(&self) -> CellV {
        match self {
            Cell::Num(b) => CellV::Num(*b),
            Cell::Var(n) => CellV::Var(n@),
        }
    }
}

impl DeepView for Cell {
    type V = CellV;

    open spec fn deep_view(&self) -> CellV {
        self@
    }
}

/// Copies a cell.
pub fn copy_cell(c: &Cell) -> (r: Cell)
    ensures
        r@ == c@,
{
    match c {
        Cell::Num(b) => Cell::Num(*b),
        Cell::Var(n) => Cell::Var(copy_chars(n)),
    }
}

/// The value stack. Its view is the sequence of cell views, bottom first.
pub struct Stack {
    cells: Vec<Cell>,
}

impl View for Stack {
    type V = Seq<CellV>;

    closed spec fn view(&self) -> Seq<CellV> {
        self.cells.deep_view()
    }
}

impl Stack {
    /// An empty stack.
    pub fn new() -> (s: Stack)
        ensures
            s@ == Seq::<CellV>::empty(),
    {
        let s = Stack { cells: Vec::new() };
        proof {
            assert(s@ =~~= Seq::<CellV>::empty());
        }
        s
    }

    /// The number of cells on the stack.
    pub fn len(&self) -> (n: usize)
        ensures
            n == self@.len(),
    {
        self.cells.len()
    }

    /// Pushes a cell on top.
    pub fn push(&mut self, c: Cell)
        ensures
            final(self)@ == old(self)@.push(c@),
    {
        let ghost old_v = self@;
        let ghost c_v = c@;
        self.cells.push(c);
        proof {
            assert(self@ =~~= old_v.push(c_v));
        }
    }

    /// Pops the top cell. Call sites check the length first: popping an empty
    /// stack is a caller contract violation, not a runtime error path.
    pub fn pop(&mut self) -> (c: Cell)
        requires
            old(self)@.len() > 0,
        ensures
            c@ == old(self)@.last(),
            final(self)@ == old(self)@.drop_last(),
    {
        let ghost old_v = self@;
        let c = self.cells.pop().unwrap();
        proof {
            assert(self@ =~~= old_v.drop_last());
        }
        c
    }

    /// Empties the stack.
    pub fn clear(&mut self)
        ensures
            final(self)@ == Seq::<CellV>::empty(),
    {
        self.cells.clear();
        proof {
            assert(self@ =~~= Seq::<CellV>::empty());
        }
    }

    /// Reads the cell at `i`, counted from the bottom.
    pub fn get(&self, i: usize) -> (c: &Cell)
        requires
            i < self@.len(),
        ensures
            c@ == self@[i as int],
    {
        &self.cells[i]
    }
}

} // verus!
