//! The shell's character grid: a heap-allocated rectangle of cells, each
//! carrying a glyph and a dirty bit, with an insertion cursor in row-major
//! order, newline handling, scrolling, and dirty-cell bookkeeping.
//!
//! The dirty discipline: every cell whose glyph may differ from what the
//! framebuffer currently shows is marked dirty (possibly more, never fewer),
//! so that a renderer that repaints exactly the dirty cells and then calls
//! `mark_all_clean` keeps the screen faithful.
use vstd::prelude::*;

verus! {

/// How many rows an automatic scroll discards when the cursor runs off the
/// end of the grid.
pub const AUTOSCROLL_LINES: usize = 2;

/// Abstract state of a character grid: the cell contents and dirty bits in
/// row-major order, and the insertion cursor.
#[verifier::ext_equal]
pub struct Grid {
    pub width: int,
    pub height: int,
    pub chars: Seq<char>,
    pub dirty: Seq<bool>,
    pub cursor: int,
}

impl Grid {
    /// Shape and cursor bounds every reachable grid satisfies.
    pub open spec fn wf(self) -> bool {
        &&& self.width >= 0
        &&& self.height >= 0
        &&& self.chars.len() == self.width * self.height
        &&& self.chars.len() <= usize::MAX
        &&& self.dirty.len() == self.chars.len()
        &&& 0 <= self.cursor <= self.chars.len()
        &&& self.chars.len() > 0 ==> self.cursor < self.chars.len()
    }

    pub open spec fn capacity(self) -> int {
        self.width * self.height
    }

    /// A grid on which insertion is meaningful: at least one column, and
    /// enough rows for the automatic scroll to leave the cursor in bounds.
    pub open spec fn insertable(self) -> bool {
        &&& self.wf()
        &&& self.width >= 1
        &&& self.height >= AUTOSCROLL_LINES as int
    }
}

/// Cell contents after scrolling up by `scoop` positions: every cell takes
/// the value `scoop` places after it, and the vacated tail becomes spaces.
pub open spec fn scrolled_chars(chars: Seq<char>, scoop: int) -> Seq<char> {
    Seq::new(chars.len(), |i: int| if i + scoop < chars.len() { chars[i + scoop] } else { ' ' })
}

/// The first cell of the row after the one holding `cursor`.
pub open spec fn next_row_start(cursor: int, width: int) -> int
    recommends
        width > 0,
{
    (cursor / width + 1) * width
}

/// The grid after `scroll(lines)`: contents shifted up by `lines` rows,
/// every cell dirty, cursor pulled back by the same amount.
pub open spec fn grid_scroll(g: Grid, lines: int) -> Grid {
    let scoop = lines * g.width;
    Grid {
        chars: scrolled_chars(g.chars, scoop),
        dirty: Seq::new(g.dirty.len(), |i: int| true),
        cursor: g.cursor - scoop,
        ..g
    }
}

/// The grid after `newline()`: the cursor moves to the start of the next
/// row, and the grid scrolls if that ran off the end.
pub open spec fn grid_newline(g: Grid) -> Grid {
    let advanced = Grid { cursor: next_row_start(g.cursor, g.width), ..g };
    if advanced.cursor >= g.capacity() {
        grid_scroll(advanced, AUTOSCROLL_LINES as int)
    } else {
        advanced
    }
}

/// The grid after `insert(c)` for a non-newline `c`: the glyph lands at the
/// cursor, the cell turns dirty, the cursor advances, and the grid scrolls
/// if the cursor ran off the end.
pub open spec fn grid_put(g: Grid, c: char) -> Grid {
    let placed = Grid {
        chars: g.chars.update(g.cursor, c),
        dirty: g.dirty.update(g.cursor, true),
        cursor: g.cursor + 1,
        ..g
    };
    if placed.cursor >= g.capacity() {
        grid_scroll(placed, AUTOSCROLL_LINES as int)
    } else {
        placed
    }
}

/// The grid after `insert(c)`.
pub open spec fn grid_insert(g: Grid, c: char) -> Grid {
    if c == '\n' {
        grid_newline(g)
    } else {
        grid_put(g, c)
    }
}

/// A heap-allocated character grid with a dirty bit per cell and an
/// insertion cursor.
pub struct TextBuffer {
    width: usize,
    height: usize,
    chars: Vec<char>,
    dirty: Vec<bool>,
    cursor: usize,
}

impl View for TextBuffer {
    type V = Grid;

    closed spec fn view(&self) -> Grid {
        Grid {
            width: self.width as int,
            height: self.height as int,
            chars: self.chars@,
            dirty: self.dirty@,
            cursor: self.cursor as int,
        }
    }
}

impl TextBuffer {
    /// The zero-by-zero grid used before the screen dimensions are known.
    pub fn empty() -> (r: TextBuffer)
        ensures
            r@.wf(),
            r@.width == 0,
            r@.height == 0,
            r@.cursor == 0,
    {
        TextBuffer::new(0, 0)
    }

    /// A `width` by `height` grid of spaces, all clean, cursor at the
    /// top-left corner.
    pub fn new(width: usize, height: usize) -> (r: TextBuffer)
        requires
            width * height <= usize::MAX,
        ensures
            r@.wf(),
            r@.width == width,
            r@.height == height,
            r@.cursor == 0,
            r@.chars == Seq::new((width * height) as nat, |i: int| ' '),
            r@.dirty == Seq::new((width * height) as nat, |i: int| false),
    {
        let capacity = width * height;
        let r = TextBuffer {
            width,
            height,
            chars: vec![' '; capacity],
            dirty: vec![false; capacity],
            cursor: 0,
        };
        proof {
            assert(r@.chars =~= Seq::new((width * height) as nat, |i: int| ' '));
            assert(r@.dirty =~= Seq::new((width * height) as nat, |i: int| false));
        }
        r
    }

    pub fn width(&self) -> (r: usize)
        ensures
            r == self@.width,
    {
        self.width
    }

    pub fn height(&self) -> (r: usize)
        ensures
            r == self@.height,
    {
        self.height
    }

    pub fn cursor(&self) -> (r: usize)
        ensures
            r == self@.cursor,
    {
        self.cursor
    }

    pub fn capacity(&self) -> (r: usize)
        requires
            self@.wf(),
        ensures
            r == self@.capacity(),
    {
        self.width * self.height
    }

    /// The glyph in cell `cursor` (row-major).
    pub fn at(&self, cursor: usize) -> (r: char)
        requires
            cursor < self@.chars.len(),
        ensures
            r == self@.chars[cursor as int],
    {
        self.chars[cursor]
    }

    /// Whether cell `cursor` is marked dirty.
    pub fn dirty_at(&self, cursor: usize) -> (r: bool)
        requires
            cursor < self@.dirty.len(),
        ensures
            r == self@.dirty[cursor as int],
    {
        self.dirty[cursor]
    }

    /// Replace the grid with a fresh `width` by `height` one: all spaces,
    /// every cell dirty, cursor back at the top-left corner.
    pub fn resize(&mut self, width: usize, height: usize)
        requires
            width * height <= usize::MAX,
        ensures
            final(self)@.wf(),
            final(self)@.width == width,
            final(self)@.height == height,
            final(self)@.cursor == 0,
            final(self)@.chars == Seq::new((width * height) as nat, |i: int| ' '),
            final(self)@.dirty == Seq::new((width * height) as nat, |i: int| true),
    {
        let capacity = width * height;
        self.width = width;
        self.height = height;
        self.chars = vec![' '; capacity];
        self.dirty = vec![true; capacity];
        self.cursor = 0;
        proof {
            assert(self.chars@ =~= Seq::new((width * height) as nat, |i: int| ' '));
            assert(self.dirty@ =~= Seq::new((width * height) as nat, |i: int| true));
        }
    }

    /// Overwrite every cell with a space and mark it dirty; the cursor does
    /// not move.
    pub fn clear(&mut self)
        requires
            old(self)@.wf(),
        ensures
            final(self)@.wf(),
            final(self)@ == (Grid {
                chars: Seq::new(old(self)@.chars.len(), |i: int| ' '),
                dirty: Seq::new(old(self)@.dirty.len(), |i: int| true),
                ..old(self)@
            }),
    {
        let capacity = self.capacity();
        let mut i: usize = 0;
        while i < capacity
            invariant
                self@.wf(),
                capacity == self@.capacity(),
                i <= capacity,
                self@.width == old(self)@.width,
                self@.height == old(self)@.height,
                self@.cursor == old(self)@.cursor,
                self@.chars.len() == old(self)@.chars.len(),
                self@.dirty.len() == old(self)@.dirty.len(),
                forall|j: int| 0 <= j < i ==> self@.chars[j] == ' ',
                forall|j: int| 0 <= j < i ==> self@.dirty[j] == true,
                forall|j: int| i <= j < self@.chars.len() ==> self@.chars[j] == old(self)@.chars[j],
                forall|j: int| i <= j < self@.dirty.len() ==> self@.dirty[j] == old(self)@.dirty[j],
            decreases capacity - i,
        {
            self.chars[i] = ' ';
            self.dirty[i] = true;
            i = i + 1;
        }
        proof {
            assert(self@.chars =~= Seq::new(old(self)@.chars.len(), |i: int| ' '));
            assert(self@.dirty =~= Seq::new(old(self)@.dirty.len(), |i: int| true));
            assert(self@ =~= (Grid {
                chars: Seq::new(old(self)@.chars.len(), |i: int| ' '),
                dirty: Seq::new(old(self)@.dirty.len(), |i: int| true),
                ..old(self)@
            }));
        }
    }

    /// Insert a glyph at the cursor (or start a new row for `'\n'`),
    /// scrolling automatically when the cursor runs off the end.
    pub fn insert(&mut self, c: char)
        requires
            old(self)@.insertable(),
        ensures
            final(self)@.wf(),
            final(self)@ == grid_insert(old(self)@, c),
    {
        if c == '\n' {
            self.newline();
        } else {
            let ghost g0 = self@;
            proof {
                lemma_mul_bounds_for_grid(g0.width, g0.height);
            }
            self.chars[self.cursor] = c;
            self.dirty[self.cursor] = true;
            self.cursor = self.cursor + 1;
            self.scroll_if_necessary();
            proof {
                assert(self@ =~= grid_put(g0, c));
            }
        }
    }

    /// Pull the cursor back one cell and blank that cell, marking it dirty.
    pub fn delete(&mut self)
        requires
            old(self)@.wf(),
            old(self)@.cursor >= 1,
        ensures
            final(self)@.wf(),
            final(self)@ == (Grid {
                chars: old(self)@.chars.update(old(self)@.cursor - 1, ' '),
                dirty: old(self)@.dirty.update(old(self)@.cursor - 1, true),
                cursor: old(self)@.cursor - 1,
                ..old(self)@
            }),
    {
        self.cursor = self.cursor - 1;
        self.chars[self.cursor] = ' ';
        self.dirty[self.cursor] = true;
        proof {
            assert(self@ =~= (Grid {
                chars: old(self)@.chars.update(old(self)@.cursor - 1, ' '),
                dirty: old(self)@.dirty.update(old(self)@.cursor - 1, true),
                cursor: old(self)@.cursor - 1,
                ..old(self)@
            }));
        }
    }

    /// Move the cursor to the start of the next row, scrolling if that ran
    /// off the end of the grid.
    pub fn newline(&mut self)
        requires
            old(self)@.insertable(),
        ensures
            final(self)@.wf(),
            final(self)@ == grid_newline(old(self)@),
    {
        let ghost g0 = self@;
        proof {
            lemma_mul_bounds_for_grid(g0.width, g0.height);
            lemma_next_row_start_bounds(g0.cursor, g0.width, g0.height);
        }
        self.cursor = (1 + self.cursor / self.width) * self.width;
        self.scroll_if_necessary();
        proof {
            assert((1 + g0.cursor / g0.width) * g0.width == next_row_start(g0.cursor, g0.width));
            assert(self@ =~= grid_newline(g0));
        }
    }

    /// Move the cursor by a signed offset.
    pub fn move_cursor(&mut self, offset: isize)
        requires
            old(self)@.wf(),
            0 <= old(self)@.cursor + offset <= old(self)@.capacity(),
            old(self)@.capacity() > 0 ==> old(self)@.cursor + offset < old(self)@.capacity(),
        ensures
            final(self)@.wf(),
            final(self)@ == (Grid { cursor: old(self)@.cursor + offset, ..old(self)@ }),
    {
        let moved: i128 = self.cursor as i128 + offset as i128;
        self.cursor = moved as usize;
        proof {
            assert(self@ =~= (Grid { cursor: old(self)@.cursor + offset, ..old(self)@ }));
        }
    }

    /// The indices of the dirty cells, in increasing order.
    pub fn dirty(&self) -> (r: Vec<usize>)
        ensures
            forall|i: int| 0 <= i < r@.len() ==> r@[i] < self@.dirty.len() && self@.dirty[r@[i] as int],
            forall|i: int, j: int| 0 <= i < j < r@.len() ==> r@[i] < r@[j],
            forall|k: int| 0 <= k < self@.dirty.len() && self@.dirty[k] ==> r@.contains(k as usize),
    {
        let mut r: Vec<usize> = Vec::new();
        let mut i: usize = 0;
        let len = self.dirty.len();
        while i < len
            invariant
                len == self@.dirty.len(),
                i <= len,
                forall|k: int| 0 <= k < r@.len() ==> r@[k] < i && self@.dirty[r@[k] as int],
                forall|k: int, l: int| 0 <= k < l < r@.len() ==> r@[k] < r@[l],
                forall|k: int| 0 <= k < i && self@.dirty[k] ==> r@.contains(k as usize),
            decreases len - i,
        {
            if self.dirty[i] {
                let ghost r_prev = r@;
                r.push(i);
                proof {
                    assert(r@[r@.len() - 1] == i);
                    assert forall|k: int| 0 <= k < i && self@.dirty[k] implies r@.contains(
                        k as usize,
                    ) by {
                        let j = choose|j: int| 0 <= j < r_prev.len() && r_prev[j] == k as usize;
                        assert(r@[j] == k as usize);
                    };
                }
            }
            i = i + 1;
        }
        r
    }

    fn scroll_if_necessary(&mut self)
        requires
            old(self)@.width >= 1,
            old(self)@.height >= AUTOSCROLL_LINES as int,
            old(self)@.chars.len() == old(self)@.capacity(),
            old(self)@.chars.len() <= usize::MAX,
            old(self)@.dirty.len() == old(self)@.chars.len(),
            0 <= old(self)@.cursor <= old(self)@.capacity(),
        ensures
            final(self)@.wf(),
            old(self)@.cursor >= old(self)@.capacity() ==> final(self)@ == grid_scroll(
                old(self)@,
                AUTOSCROLL_LINES as int,
            ),
            old(self)@.cursor < old(self)@.capacity() ==> final(self)@ == old(self)@,
    {
        proof {
            lemma_mul_bounds_for_grid(self@.width, self@.height);
        }
        if self.cursor >= self.capacity_inner() {
            self.scroll(AUTOSCROLL_LINES);
        }
    }

    /// Shift the whole grid up by `lines` rows: the discarded top rows are
    /// gone, the vacated bottom rows become spaces, every cell turns dirty,
    /// and the cursor moves back by `lines` times the width.
    pub fn scroll(&mut self, lines: usize)
        requires
            old(self)@.width >= 0,
            old(self)@.chars.len() == old(self)@.capacity(),
            old(self)@.chars.len() <= usize::MAX,
            old(self)@.dirty.len() == old(self)@.chars.len(),
            lines * old(self)@.width <= old(self)@.cursor,
            old(self)@.cursor <= old(self)@.capacity(),
        ensures
            old(self)@.wf() ==> final(self)@.wf(),
            final(self)@ == grid_scroll(old(self)@, lines as int),
    {
        let ghost g0 = self@;
        let scoop = lines * self.width;
        let capacity = self.capacity_inner();
        let end = capacity - scoop;
        let mut i: usize = 0;
        while i < end
            invariant
                self@.width == g0.width,
                self@.height == g0.height,
                self@.cursor == g0.cursor,
                self@.dirty == g0.dirty,
                self@.chars.len() == g0.chars.len(),
                scoop == lines * g0.width,
                capacity == g0.capacity() == g0.chars.len(),
                scoop <= capacity,
                end == capacity - scoop,
                i <= end,
                forall|j: int| 0 <= j < i ==> self@.chars[j] == g0.chars[j + scoop],
                forall|j: int| i <= j < capacity ==> self@.chars[j] == g0.chars[j],
            decreases end - i,
        {
            let shifted = self.chars[i + scoop];
            self.chars[i] = shifted;
            i = i + 1;
        }
        let mut j: usize = 0;
        while j < scoop
            invariant
                self@.width == g0.width,
                self@.height == g0.height,
                self@.cursor == g0.cursor,
                self@.dirty == g0.dirty,
                self@.chars.len() == g0.chars.len(),
                scoop == lines * g0.width,
                capacity == g0.capacity() == g0.chars.len(),
                scoop <= capacity,
                end == capacity - scoop,
                j <= scoop,
                forall|k: int| 0 <= k < end ==> self@.chars[k] == g0.chars[k + scoop],
                forall|k: int| end <= k < end + j ==> self@.chars[k] == ' ',
                forall|k: int| end + j <= k < capacity ==> self@.chars[k] == g0.chars[k],
            decreases scoop - j,
        {
            self.chars[end + j] = ' ';
            j = j + 1;
        }
        self.mark_all_dirty();
        self.cursor = self.cursor - scoop;
        proof {
            assert(self@.chars =~= scrolled_chars(g0.chars, scoop as int));
            assert(self@ =~= grid_scroll(g0, lines as int));
        }
    }

    fn mark_all_dirty(&mut self)
        ensures
            final(self)@ == (Grid {
                dirty: Seq::new(old(self)@.dirty.len(), |i: int| true),
                ..old(self)@
            }),
    {
        let len = self.dirty.len();
        let mut i: usize = 0;
        while i < len
            invariant
                len == self@.dirty.len(),
                i <= len,
                self@.width == old(self)@.width,
                self@.height == old(self)@.height,
                self@.cursor == old(self)@.cursor,
                self@.chars == old(self)@.chars,
                forall|j: int| 0 <= j < i ==> self@.dirty[j] == true,
                forall|j: int| i <= j < len ==> self@.dirty[j] == old(self)@.dirty[j],
            decreases len - i,
        {
            self.dirty[i] = true;
            i = i + 1;
        }
        proof {
            assert(self@.dirty =~= Seq::new(old(self)@.dirty.len(), |i: int| true));
            assert(self@ =~= (Grid {
                dirty: Seq::new(old(self)@.dirty.len(), |i: int| true),
                ..old(self)@
            }));
        }
    }

    /// Mark every cell clean; the renderer calls this after repainting the
    /// dirty cells.
    pub fn mark_all_clean(&mut self)
        ensures
            final(self)@ == (Grid {
                dirty: Seq::new(old(self)@.dirty.len(), |i: int| false),
                ..old(self)@
            }),
    {
        let len = self.dirty.len();
        let mut i: usize = 0;
        while i < len
            invariant
                len == self@.dirty.len(),
                i <= len,
                self@.width == old(self)@.width,
                self@.height == old(self)@.height,
                self@.cursor == old(self)@.cursor,
                self@.chars == old(self)@.chars,
                forall|j: int| 0 <= j < i ==> self@.dirty[j] == false,
                forall|j: int| i <= j < len ==> self@.dirty[j] == old(self)@.dirty[j],
            decreases len - i,
        {
            self.dirty[i] = false;
            i = i + 1;
        }
        proof {
            assert(self@.dirty =~= Seq::new(old(self)@.dirty.len(), |i: int| false));
            assert(self@ =~= (Grid {
                dirty: Seq::new(old(self)@.dirty.len(), |i: int| false),
                ..old(self)@
            }));
        }
    }

    fn capacity_inner(&self) -> (r: usize)
        requires
            self@.chars.len() == self@.capacity(),
            self@.chars.len() <= usize::MAX,
        ensures
            r == self@.capacity(),
    {
        self.width * self.height
    }
}

/// The glyph of the cell in row `row`, column `col` of a grid.
pub open spec fn cell(g: Grid, row: int, col: int) -> char {
    g.chars[row * g.width + col]
}

/// After `scroll(n)`, every surviving row holds what the row `n` places
/// below it held, the vacated bottom rows hold only spaces, every cell is
/// dirty, and the cursor moved back by `n` times the width.
pub proof fn lemma_scroll_rows(g: Grid, n: int)
    requires
        g.wf(),
        0 <= n <= g.height,
    ensures
        grid_scroll(g, n).width == g.width,
        grid_scroll(g, n).height == g.height,
        grid_scroll(g, n).cursor == g.cursor - n * g.width,
        forall|row: int, col: int|
            0 <= row < g.height - n && 0 <= col < g.width ==> #[trigger] cell(
                grid_scroll(g, n),
                row,
                col,
            ) == cell(g, row + n, col),
        forall|row: int, col: int|
            g.height - n <= row < g.height && 0 <= col < g.width ==> #[trigger] cell(
                grid_scroll(g, n),
                row,
                col,
            ) == ' ',
        forall|i: int| 0 <= i < g.dirty.len() ==> grid_scroll(g, n).dirty[i],
{
    let s = grid_scroll(g, n);
    let w = g.width;
    let h = g.height;
    let scoop = n * w;
    assert forall|row: int, col: int|
        0 <= row < h - n && 0 <= col < w implies #[trigger] cell(s, row, col) == cell(
        g,
        row + n,
        col,
    ) by {
        assert(0 <= row * w + col && (row + n) * w + col < w * h && (row + n) * w + col == row * w
            + col + n * w) by (nonlinear_arith)
            requires
                0 <= row < h - n,
                0 <= col < w,
                0 <= n,
                w >= 1,
        ;
    }
    assert forall|row: int, col: int|
        h - n <= row < h && 0 <= col < w implies #[trigger] cell(s, row, col) == ' ' by {
        assert(0 <= row * w + col < w * h && row * w + col + n * w >= w * h) by (nonlinear_arith)
            requires
                h - n <= row < h,
                0 <= col < w,
                0 <= n <= h,
                w >= 1,
        ;
    }
}

/// Inserting `'\n'` twice in a row from a row boundary advances the cursor
/// by exactly twice the width; if that would run off the end of the grid,
/// exactly one automatic scroll triggers and pulls the cursor back by the
/// autoscroll amount.
pub proof fn lemma_double_newline(g: Grid)
    requires
        g.insertable(),
        g.cursor % g.width == 0,
    ensures
        ({
            let g2 = grid_insert(grid_insert(g, '\n'), '\n');
            &&& g.cursor + 2 * g.width < g.capacity() ==> g2.cursor == g.cursor + 2 * g.width
            &&& g.cursor + 2 * g.width >= g.capacity() ==> g2.cursor == g.cursor + 2 * g.width - (
            AUTOSCROLL_LINES as int) * g.width
        }),
{
    let w = g.width;
    let h = g.height;
    let c = g.cursor;
    let q = c / w;
    vstd::arithmetic::div_mod::lemma_fundamental_div_mod(c, w);
    assert(c == w * q);
    lemma_mul_bounds_for_grid(w, h);
    let g1 = grid_newline(g);
    assert(next_row_start(c, w) == (q + 1) * w);
    assert((q + 1) * w == w * q + w) by (nonlinear_arith);
    assert(g1.width == w && g1.height == h);
    if c + w >= g.capacity() {
        // The first newline lands exactly on the capacity and scrolls.
        assert(c + w <= w * h) by {
            assert(w * q < w * h);
            assert(q < h) by (nonlinear_arith)
                requires
                    w * q < w * h,
                    w >= 1,
            ;
            assert((q + 1) * w <= w * h) by (nonlinear_arith)
                requires
                    q < h,
                    w >= 1,
            ;
        }
        assert(g1.cursor == c + w - 2 * w);
        assert(g1.cursor == w * (q - 1)) by (nonlinear_arith)
            requires
                g1.cursor == c + w - 2 * w,
                c == w * q,
        ;
        lemma_newline_from_multiple(g1, q - 1);
        let g2 = grid_newline(g1);
        assert(next_row_start(g1.cursor, w) == w * q) by (nonlinear_arith)
            requires
                next_row_start(g1.cursor, w) == (g1.cursor / w + 1) * w,
                g1.cursor / w == q - 1,
        ;
        assert(w * q < w * h);
        assert(g2.cursor == c);
    } else {
        assert(g1.cursor == c + w);
        assert(g1.cursor == w * (q + 1)) by (nonlinear_arith)
            requires
                g1.cursor == c + w,
                c == w * q,
        ;
        lemma_newline_from_multiple(g1, q + 1);
        let g2 = grid_newline(g1);
        assert(next_row_start(g1.cursor, w) == (q + 2) * w) by (nonlinear_arith)
            requires
                next_row_start(g1.cursor, w) == (g1.cursor / w + 1) * w,
                g1.cursor / w == q + 1,
        ;
        assert((q + 2) * w == c + 2 * w) by (nonlinear_arith)
            requires
                c == w * q,
        ;
        if c + 2 * w >= g.capacity() {
            assert(g2.cursor == c + 2 * w - 2 * w);
        } else {
            assert(g2.cursor == c + 2 * w);
        }
    }
}

/// The dirty discipline of insertion: every cell whose glyph an insertion
/// changes is marked dirty by it, so a renderer that repaints the dirty
/// cells misses nothing.
pub proof fn lemma_insert_marks_changed_cells_dirty(g: Grid, c: char)
    requires
        g.insertable(),
    ensures
        forall|i: int|
            0 <= i < g.chars.len() && grid_insert(g, c).chars[i] != g.chars[i]
                ==> grid_insert(g, c).dirty[i],
{
}

/// A cursor standing at `width` times `q` is its own row start's witness:
/// division by the width recovers `q`.
proof fn lemma_newline_from_multiple(g: Grid, q: int)
    requires
        g.width >= 1,
        g.cursor == g.width * q,
    ensures
        g.cursor / g.width == q,
{
    vstd::arithmetic::div_mod::lemma_div_multiples_vanish(q, g.width);
}

/// For a well-formed cursor, the start of the next row lies within one row
/// past the end of the grid.
proof fn lemma_next_row_start_bounds(cursor: int, width: int, height: int)
    requires
        width >= 1,
        height >= 0,
        0 <= cursor < width * height,
    ensures
        cursor < next_row_start(cursor, width) <= width * height,
        next_row_start(cursor, width) % width == 0,
{
    let q = cursor / width;
    vstd::arithmetic::div_mod::lemma_fundamental_div_mod(cursor, width);
    vstd::arithmetic::div_mod::lemma_mod_bound(cursor, width);
    assert(cursor == width * q + cursor % width);
    assert(next_row_start(cursor, width) == (q + 1) * width);
    assert((q + 1) * width == width * q + width) by (nonlinear_arith);
    assert(cursor < (q + 1) * width);
    assert(width * q < width * height);
    assert(q < height) by (nonlinear_arith)
        requires
            width * q < width * height,
            width >= 1,
    ;
    assert((q + 1) * width <= width * height) by (nonlinear_arith)
        requires
            q < height,
            width >= 1,
    ;
    assert(((q + 1) * width) % width == 0) by (nonlinear_arith)
        requires
            width >= 1,
    ;
}

/// The capacity of an `insertable` grid covers at least the autoscroll
/// amount.
proof fn lemma_mul_bounds_for_grid(width: int, height: int)
    requires
        width >= 0,
        height >= 0,
    ensures
        width * height >= 0,
        height >= AUTOSCROLL_LINES as int && width >= 1 ==> (AUTOSCROLL_LINES as int) * width <= width * height,
{
    assert(width * height >= 0) by (nonlinear_arith)
        requires
            width >= 0,
            height >= 0,
    ;
    if height >= AUTOSCROLL_LINES as int && width >= 1 {
        assert((AUTOSCROLL_LINES as int) * width <= width * height) by (nonlinear_arith)
            requires
                width >= 1,
                height >= AUTOSCROLL_LINES as int,
        ;
    }
}

} // verus!
