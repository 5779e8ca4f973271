//! The mathematical model of a grid: a sequence of rows, each a sequence of
//! cells, and what each operation makes of it.
use vstd::prelude::*;
use crate::style::{blank, Cell, Style};

verus! {

/// A grid as its rows of cells, line by line.
pub type Rows = Seq<Seq<Cell>>;

/// The row at `line`, or an empty row where the grid has none yet.
pub open spec fn row_of(rows: Rows, line: int) -> Seq<Cell> {
    if 0 <= line < rows.len() {
        rows[line]
    } else {
        Seq::empty()
    }
}

/// What reading `(line, col)` yields: the stored cell, or a blank one where
/// the grid does not reach that far.
pub open spec fn cell_of(rows: Rows, line: int, col: int) -> Cell {
    if 0 <= col < row_of(rows, line).len() {
        row_of(rows, line)[col]
    } else {
        blank()
    }
}

/// `row` extended with blank cells until it holds at least `n` of them.
pub open spec fn pad_row(row: Seq<Cell>, n: nat) -> Seq<Cell> {
    if row.len() >= n {
        row
    } else {
        row + Seq::new((n - row.len()) as nat, |i: int| blank())
    }
}

/// The grid after `(line, col)` has been made addressable: missing rows up to
/// `line` are added empty, and row `line` is padded with blanks through `col`.
pub open spec fn grow(rows: Rows, line: nat, col: nat) -> Rows {
    let n = if rows.len() > line { rows.len() } else { line + 1 };
    Seq::new(
        n,
        |r: int|
            if r == line {
                pad_row(row_of(rows, r), col + 1)
            } else {
                row_of(rows, r)
            },
    )
}

/// The grid after the cell at `(line, col)` is overwritten with `cell`.
pub open spec fn write_cell(rows: Rows, line: nat, col: nat, cell: Cell) -> Rows {
    let g = grow(rows, line, col);
    g.update(line as int, g[line as int].update(col as int, cell))
}

/// The grid after `text` is written from `(line, col)` rightwards, one cell
/// per character, each with `style`. Empty text leaves the grid as it is.
pub open spec fn write_run(rows: Rows, line: nat, col: nat, text: Seq<char>, style: Style) -> Rows {
    if text.len() == 0 {
        rows
    } else {
        let g = grow(rows, line, (col + text.len() - 1) as nat);
        let row = g[line as int];
        g.update(
            line as int,
            Seq::new(
                row.len(),
                |c: int|
                    if col <= c < col + text.len() {
                        (text[c - col], style)
                    } else {
                        row[c]
                    },
            ),
        )
    }
}

/// The grid after `cell` is inserted at `(line, col)`, the rest of that row
/// moving one place to the right.
pub open spec fn insert_cell(rows: Rows, line: nat, col: nat, cell: Cell) -> Rows {
    let g = grow(rows, line, col);
    g.update(line as int, g[line as int].insert(col as int, cell))
}

/// The grid after the cell at `(line, col)` is removed, the rest of that row
/// moving one place to the left; a position outside the grid changes nothing.
pub open spec fn remove_cell(rows: Rows, line: nat, col: nat) -> Rows {
    if line < rows.len() && col < rows[line as int].len() {
        rows.update(line as int, rows[line as int].remove(col as int))
    } else {
        rows
    }
}

/// The grid after row `line` is removed, the rows below moving up by one; a
/// line outside the grid changes nothing.
pub open spec fn remove_row(rows: Rows, line: nat) -> Rows {
    if line < rows.len() {
        rows.remove(line as int)
    } else {
        rows
    }
}

/// Growing to `(line, col)` makes that cell addressable, and changes what
/// no read of any cell yields.
pub proof fn lemma_grow_reaches(rows: Rows, line: nat, col: nat)
    ensures
        grow(rows, line, col).len() > line,
        grow(rows, line, col)[line as int].len() > col,
        forall|r: int, c: int| #[trigger] cell_of(grow(rows, line, col), r, c) == cell_of(rows, r, c),
{
    let g = grow(rows, line, col);
    assert forall|r: int, c: int| #[trigger] cell_of(g, r, c) == cell_of(rows, r, c) by {
        if r == line {
            let base = row_of(rows, r);
            if base.len() < col + 1 && base.len() <= c < col + 1 {
                assert(pad_row(base, col + 1)[c] == blank());
            }
        }
    }
}

} // verus!
