//! What holds across the grid's operations, stated over the model in
//! `grid` that the operations' own contracts use.
use vstd::prelude::*;
use crate::grid::{
    cell_of, grow, insert_cell, lemma_grow_reaches, remove_cell, remove_row,
    write_cell, write_run, Rows,
};
use crate::style::{blank, Cell, Style};

verus! {

/// Reading any cell of an empty grid yields a blank, unstyled cell, and
/// leaves a grid with more than `line` rows whose row `line` holds more than
/// `col` cells.
pub proof fn lemma_read_of_empty(line: nat, col: nat)
    ensures
        cell_of(Seq::empty(), line as int, col as int) == blank(),
        grow(Seq::empty(), line, col).len() > line,
        grow(Seq::empty(), line, col)[line as int].len() > col,
{
    lemma_grow_reaches(Seq::empty(), line, col);
}

/// Growth never shrinks: every row keeps its cells, the grid keeps its rows.
pub proof fn lemma_grow_keeps(rows: Rows, line: nat, col: nat)
    ensures
        grow(rows, line, col).len() >= rows.len(),
        forall|r: int|
            0 <= r < rows.len() ==> #[trigger] grow(rows, line, col)[r].subrange(
                0,
                rows[r].len() as int,
            ) == rows[r],
{
    let g = grow(rows, line, col);
    assert forall|r: int| 0 <= r < rows.len() implies #[trigger] g[r].subrange(
        0,
        rows[r].len() as int,
    ) == rows[r] by {
        assert(g[r].subrange(0, rows[r].len() as int) =~= rows[r]);
    }
}

/// A cell just written reads back as written, and that read leaves the grid
/// as it is, whatever the grid's size before the write.
pub proof fn lemma_put_then_read(rows: Rows, line: nat, col: nat, chr: char, style: Style)
    ensures
        cell_of(write_cell(rows, line, col, (chr, style)), line as int, col as int) == (chr, style),
        grow(write_cell(rows, line, col, (chr, style)), line, col) == write_cell(
            rows,
            line,
            col,
            (chr, style),
        ),
{
    let w = write_cell(rows, line, col, (chr, style));
    lemma_grow_reaches(rows, line, col);
    let g = grow(w, line, col);
    assert forall|r: int| 0 <= r < w.len() implies #[trigger] g[r] == w[r] by {
        assert(g[r] =~= w[r]);
    }
    assert(g =~= w);
}

/// A string written from `(line, col)` reads back one character per cell,
/// in order, each with the style given; every other cell reads as before.
pub proof fn lemma_run_reads_back(rows: Rows, line: nat, col: nat, text: Seq<char>, style: Style)
    ensures
        forall|i: int|
            0 <= i < text.len() ==> #[trigger] cell_of(
                write_run(rows, line, col, text, style),
                line as int,
                col + i,
            ) == (text[i], style),
        forall|r: int, c: int|
            !(r == line && col <= c < col + text.len()) ==> #[trigger] cell_of(
                write_run(rows, line, col, text, style),
                r,
                c,
            ) == cell_of(rows, r, c),
{
    if text.len() > 0 {
        lemma_grow_reaches(rows, line, (col + text.len() - 1) as nat);
        let g = grow(rows, line, (col + text.len() - 1) as nat);
        let w = write_run(rows, line, col, text, style);
        assert forall|r: int, c: int|
            !(r == line && col <= c < col + text.len()) implies #[trigger] cell_of(w, r, c)
            == cell_of(rows, r, c) by {
            assert(cell_of(g, r, c) == cell_of(rows, r, c));
        }
    }
}

/// An inserted cell reads at its position; the cells that were at and after
/// it in that row read one place further right, those before it as they did.
pub proof fn lemma_insert_shifts_right(rows: Rows, line: nat, col: nat, cell: Cell)
    ensures
        cell_of(insert_cell(rows, line, col, cell), line as int, col as int) == cell,
        forall|c: int|
            c > col ==> #[trigger] cell_of(insert_cell(rows, line, col, cell), line as int, c)
                == cell_of(rows, line as int, c - 1),
        forall|c: int|
            c < col ==> #[trigger] cell_of(insert_cell(rows, line, col, cell), line as int, c)
                == cell_of(rows, line as int, c),
        forall|r: int, c: int|
            r != line ==> #[trigger] cell_of(insert_cell(rows, line, col, cell), r, c) == cell_of(
                rows,
                r,
                c,
            ),
{
    lemma_grow_reaches(rows, line, col);
    let g = grow(rows, line, col);
    let w = insert_cell(rows, line, col, cell);
    assert forall|c: int| c > col implies #[trigger] cell_of(w, line as int, c) == cell_of(
        rows,
        line as int,
        c - 1,
    ) by {
        assert(cell_of(g, line as int, c - 1) == cell_of(rows, line as int, c - 1));
    }
    assert forall|c: int| c < col implies #[trigger] cell_of(w, line as int, c) == cell_of(
        rows,
        line as int,
        c,
    ) by {
        assert(cell_of(g, line as int, c) == cell_of(rows, line as int, c));
    }
    assert forall|r: int, c: int| r != line implies #[trigger] cell_of(w, r, c) == cell_of(
        rows,
        r,
        c,
    ) by {
        assert(cell_of(g, r, c) == cell_of(rows, r, c));
    }
}

/// Deleting a cell that exists leaves the cells before it as they were, and
/// each cell from its position on reads as the one after it read before.
pub proof fn lemma_delete_shifts_left(rows: Rows, line: nat, col: nat)
    requires
        line < rows.len(),
        col < rows[line as int].len(),
    ensures
        forall|c: int|
            c < col ==> #[trigger] cell_of(remove_cell(rows, line, col), line as int, c)
                == cell_of(rows, line as int, c),
        forall|c: int|
            c >= col ==> #[trigger] cell_of(remove_cell(rows, line, col), line as int, c)
                == cell_of(rows, line as int, c + 1),
        forall|r: int, c: int|
            r != line ==> #[trigger] cell_of(remove_cell(rows, line, col), r, c) == cell_of(
                rows,
                r,
                c,
            ),
{
}

/// Deleting a row that exists makes each row below it read, cell for cell,
/// one line higher; the rows above read as they did.
pub proof fn lemma_delete_line_shifts_up(rows: Rows, line: nat)
    requires
        line < rows.len(),
    ensures
        forall|r: int, c: int|
            r >= line ==> #[trigger] cell_of(remove_row(rows, line), r, c) == cell_of(
                rows,
                r + 1,
                c,
            ),
        forall|r: int, c: int|
            r < line ==> #[trigger] cell_of(remove_row(rows, line), r, c) == cell_of(rows, r, c),
{
}

} // verus!
