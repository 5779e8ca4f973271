use vstd::prelude::*;
use crate::grid::{
    cell_of, grow, insert_cell, lemma_grow_reaches, pad_row, remove_cell, remove_row, row_of,
    write_cell, write_run, Rows,
};
use crate::style::{Cell, Style};

verus! {

/// A grid of styled characters that grows on demand.
#[derive(Debug)]
pub struct Buffer {
    rows: Vec<Vec<Cell>>,
}

impl View for Buffer {
    type V = Rows;

    closed spec fn view(&self) -> Rows {
        self.rows@.map_values(|r: Vec<Cell>| r@)
    }
}

impl Buffer {
    /// Makes `(line, col)` addressable, adding empty rows and blank cells as
    /// needed.
    fn ensure(&mut self, line: usize, col: usize)
        requires
            line < usize::MAX,
            col < usize::MAX,
        ensures
            final(self)@ == grow(old(self)@, line as nat, col as nat),
    {
        let ghost start = self@;
        while self.rows.len() <= line
            invariant
                line < usize::MAX,
                self@.len() == start.len() || start.len() < self@.len() <= line + 1,
                self@ == Seq::new(self@.len(), |r: int| row_of(start, r)),
            decreases line + 1 - self@.len(),
        {
            let ghost prev = self@;
            self.rows.push(Vec::new());
            assert(self@ =~= prev.push(Seq::empty()));
            assert(self@ =~= Seq::new(self@.len(), |r: int| row_of(start, r)));
        }
        let ghost base = row_of(start, line as int);
        while self.rows[line].len() <= col
            invariant
                line < self@.len(),
                col < usize::MAX,
                forall|r: int| 0 <= r < self@.len() && r != line ==> self@[r] == row_of(start, r),
                self@.len() == grow(start, line as nat, col as nat).len(),
                self@[line as int] == pad_row(base, self@[line as int].len()),
                self@[line as int].len() <= col + 1 || self@[line as int] == base,
            decreases col + 1 - self@[line as int].len(),
        {
            self.rows[line].push((' ', Style::NoStyle));
        }
        assert(self@ =~= grow(start, line as nat, col as nat));
    }

    /// Overwrites the cell at `(line, col)` with `chr` in `style`, growing the
    /// grid first where it does not reach that far.
    pub fn put_char(&mut self, line: usize, col: usize, chr: char, style: Style)
        requires
            line < usize::MAX,
            col < usize::MAX,
        ensures
            final(self)@ == write_cell(old(self)@, line as nat, col as nat, (chr, style)),
    {
        self.ensure(line, col);
        proof {
            lemma_grow_reaches(old(self)@, line as nat, col as nat);
        }
        let ghost g = self@;
        self.rows[line].set(col, (chr, style));
        assert(self@ =~= g.update(line as int, g[line as int].update(col as int, (chr, style))));
    }

    /// Writes `string` from `(line, col)` rightwards, one cell per character,
    /// each in `style`. The grid is first grown to reach the last of those
    /// cells; an empty string changes nothing.
    pub fn put_string(&mut self, line: usize, col: usize, string: &str, style: Style)
        requires
            string@.len() > 0 ==> line < usize::MAX && col + string@.len() <= usize::MAX,
        ensures
            final(self)@ == write_run(old(self)@, line as nat, col as nat, string@, style),
    {
        let mut chars: Vec<char> = Vec::new();
        for c in it: string.chars()
            invariant
                chars@ == it.seq().take(it.index() as int),
        {
            chars.push(c);
        }
        assert(chars@ == string@);
        if chars.len() == 0 {
            return;
        }
        let last = col + (chars.len() - 1);
        self.ensure(line, last);
        proof {
            lemma_grow_reaches(old(self)@, line as nat, last as nat);
        }
        let ghost g = self@;
        let ghost row = g[line as int];
        let mut i: usize = 0;
        while i < chars.len()
            invariant
                chars@ == string@,
                0 < chars.len(),
                last == col + chars.len() - 1,
                i <= chars.len(),
                line < g.len(),
                last < row.len(),
                row == g[line as int],
                self@.len() == g.len(),
                forall|r: int| 0 <= r < g.len() && r != line ==> self@[r] == g[r],
                self@[line as int].len() == row.len(),
                forall|c: int|
                    0 <= c < row.len() ==> #[trigger] self@[line as int][c] == if col <= c < col + i {
                        (string@[c - col], style)
                    } else {
                        row[c]
                    },
            decreases chars.len() - i,
        {
            self.rows[line].set(col + i, (chars[i], style));
            i = i + 1;
        }
        let ghost w = write_run(old(self)@, line as nat, col as nat, string@, style);
        assert(self@[line as int] =~= w[line as int]);
        assert(self@ =~= w);
    }

    /// Inserts `chr` in `style` at `(line, col)`; the cells from `col` on move
    /// one place to the right. The grid is first grown to reach `(line, col)`.
    pub fn insert_char(&mut self, line: usize, col: usize, chr: char, style: Style)
        requires
            line < usize::MAX,
            col < usize::MAX,
        ensures
            final(self)@ == insert_cell(old(self)@, line as nat, col as nat, (chr, style)),
    {
        self.ensure(line, col);
        proof {
            lemma_grow_reaches(old(self)@, line as nat, col as nat);
        }
        let ghost g = self@;
        self.rows[line].insert(col, (chr, style));
        assert(self@ =~= g.update(line as int, g[line as int].insert(col as int, (chr, style))));
    }

    /// Removes the cell at `(line, col)`; the cells after it move one place to
    /// the left. Where the grid has no such cell nothing changes.
    pub fn delete_char(&mut self, line: usize, col: usize)
        ensures
            final(self)@ == remove_cell(old(self)@, line as nat, col as nat),
    {
        if self.rows.len() > line && self.rows[line].len() > col {
            let ghost g = self@;
            self.rows[line].remove(col);
            assert(self@ =~= g.update(line as int, g[line as int].remove(col as int)));
        }
    }

    /// Removes row `line`; the rows below move up by one. Where the grid has
    /// no such row nothing changes.
    pub fn delete_line(&mut self, line: usize)
        ensures
            final(self)@ == remove_row(old(self)@, line as nat),
    {
        if self.rows.len() > line {
            let ghost g = self@;
            self.rows.remove(line);
            assert(self@ =~= g.remove(line as int));
        }
    }

    /// The cell at `(line, col)`. Reading grows the grid to reach that cell,
    /// which is then blank unless it was written before.
    pub fn pair_at(&mut self, line: usize, col: usize) -> (r: Cell)
        requires
            line < usize::MAX,
            col < usize::MAX,
        ensures
            r == cell_of(old(self)@, line as int, col as int),
            final(self)@ == grow(old(self)@, line as nat, col as nat),
    {
        self.ensure(line, col);
        proof {
            lemma_grow_reaches(old(self)@, line as nat, col as nat);
        }
        self.rows[line][col]
    }

    /// How many rows the grid holds.
    pub fn line_count(&self) -> (r: usize)
        ensures
            r == self@.len(),
    {
        self.rows.len()
    }

    /// How many cells row `line` holds; zero where the grid has no such row.
    pub fn line_len(&self, line: usize) -> (r: usize)
        ensures
            r == row_of(self@, line as int).len(),
    {
        if line < self.rows.len() {
            self.rows[line].len()
        } else {
            0
        }
    }

    /// An empty grid: no rows at all.
    pub fn new() -> (b: Buffer)
        ensures
            b@ == Seq::<Seq<Cell>>::empty(),
    {
        let b = Buffer { rows: Vec::new() };
        assert(b@ =~= Seq::<Seq<Cell>>::empty());
        b
    }
}

} // verus!
