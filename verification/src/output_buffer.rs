//! A fixed-size diagnostic character grid for the phase before the heap
//! exists: an 80 by 60 cell array with an append cursor that scrolls
//! automatically when it runs off the end.
use vstd::prelude::*;

use crate::text_buffer::scrolled_chars;

verus! {

pub const BUFFER_WIDTH: u32 = 80;

pub const BUFFER_HEIGHT: u32 = 60;

pub const BUFFER_SIZE: usize = 4800;

pub const AUTOSCROLL_LINES: u32 = 2;

/// The cell array and cursor after appending one glyph: the glyph lands at
/// the cursor, and the grid scrolls by the autoscroll amount if the cursor
/// ran off the end.
pub open spec fn put_spec(chars: Seq<char>, cursor: int, c: char) -> (Seq<char>, int) {
    let placed = chars.update(cursor, c);
    if cursor + 1 >= chars.len() {
        (
            scrolled_chars(placed, AUTOSCROLL_LINES as int * BUFFER_WIDTH as int),
            cursor + 1 - AUTOSCROLL_LINES as int * BUFFER_WIDTH as int,
        )
    } else {
        (placed, cursor + 1)
    }
}

/// The cell array and cursor after appending every glyph of `s` in order.
pub open spec fn puts_spec(chars: Seq<char>, cursor: int, s: Seq<char>) -> (Seq<char>, int)
    decreases s.len(),
{
    if s.len() == 0 {
        (chars, cursor)
    } else {
        let stepped = put_spec(chars, cursor, s[0]);
        puts_spec(stepped.0, stepped.1, s.drop_first())
    }
}

/// A stack-friendly character grid of fixed dimensions with an append
/// cursor.
pub struct OutputBuffer {
    chars: Vec<char>,
    cursor: usize,
}

impl OutputBuffer {
    /// The cell array and append cursor a reachable buffer always keeps.
    pub open spec fn wf(&self) -> bool {
        &&& self.spec_chars().len() == BUFFER_SIZE
        &&& 0 <= self.spec_cursor() < BUFFER_SIZE
    }

    pub closed spec fn spec_chars(&self) -> Seq<char> {
        self.chars@
    }

    pub closed spec fn spec_cursor(&self) -> int {
        self.cursor as int
    }

    /// A grid of spaces with the cursor at the top-left corner.
    pub fn new() -> (r: OutputBuffer)
        ensures
            r.wf(),
            r.spec_cursor() == 0,
            r.spec_chars() == Seq::new(BUFFER_SIZE as nat, |i: int| ' '),
    {
        let r = OutputBuffer { chars: vec![' '; BUFFER_SIZE], cursor: 0 };
        proof {
            assert(r.spec_chars() =~= Seq::new(BUFFER_SIZE as nat, |i: int| ' '));
        }
        r
    }

    pub fn cursor(&self) -> (r: usize)
        ensures
            r == self.spec_cursor(),
    {
        self.cursor
    }

    /// The glyph in column `x` of row `y`.
    pub fn at(&self, x: u32, y: u32) -> (r: char)
        requires
            self.wf(),
            x < BUFFER_WIDTH,
            y < BUFFER_HEIGHT,
        ensures
            r == self.spec_chars()[y * BUFFER_WIDTH + x],
    {
        self.chars[(y * BUFFER_WIDTH + x) as usize]
    }

    /// Append one glyph at the cursor, scrolling if the cursor ran off the
    /// end of the grid.
    pub fn putc(&mut self, c: char)
        requires
            old(self).wf(),
        ensures
            final(self).wf(),
            (final(self).spec_chars(), final(self).spec_cursor()) == put_spec(
                old(self).spec_chars(),
                old(self).spec_cursor(),
                c,
            ),
    {
        self.chars[self.cursor] = c;
        self.cursor = self.cursor + 1;
        if self.cursor >= BUFFER_SIZE {
            self.scroll(AUTOSCROLL_LINES);
        }
        proof {
            assert((self.spec_chars(), self.spec_cursor()) =~= put_spec(
                old(self).spec_chars(),
                old(self).spec_cursor(),
                c,
            ));
        }
    }

    /// Append every character of `s` in order.
    pub fn puts(&mut self, s: &str)
        requires
            old(self).wf(),
        ensures
            final(self).wf(),
            (final(self).spec_chars(), final(self).spec_cursor()) == puts_spec(
                old(self).spec_chars(),
                old(self).spec_cursor(),
                s@,
            ),
    {
        let len = s.unicode_len();
        let mut i: usize = 0;
        proof {
            assert(s@.skip(0) =~= s@);
        }
        while i < len
            invariant
                self.wf(),
                len == s@.len(),
                i <= len,
                puts_spec(old(self).spec_chars(), old(self).spec_cursor(), s@) == puts_spec(
                    self.spec_chars(),
                    self.spec_cursor(),
                    s@.skip(i as int),
                ),
            decreases len - i,
        {
            let c = s.get_char(i);
            self.putc(c);
            proof {
                assert(s@.skip(i as int).drop_first() =~= s@.skip(i + 1));
                assert(s@.skip(i as int)[0] == s@[i as int]);
            }
            i = i + 1;
        }
        proof {
            assert(s@.skip(len as int) =~= Seq::<char>::empty());
        }
    }

    /// Shift the whole grid up by `lines` rows; the vacated bottom rows
    /// become spaces and the cursor moves back by `lines` times the width.
    pub fn scroll(&mut self, lines: u32)
        requires
            old(self).spec_chars().len() == BUFFER_SIZE,
            0 <= old(self).spec_cursor() <= BUFFER_SIZE,
            lines * BUFFER_WIDTH <= old(self).spec_cursor(),
        ensures
            final(self).spec_chars() == scrolled_chars(
                old(self).spec_chars(),
                lines as int * BUFFER_WIDTH as int,
            ),
            final(self).spec_cursor() == old(self).spec_cursor() - lines * BUFFER_WIDTH,
    {
        let shift = (BUFFER_WIDTH * lines) as usize;
        let mut i: usize = 0;
        while i < BUFFER_SIZE - shift
            invariant
                self.spec_chars().len() == BUFFER_SIZE,
                self.spec_cursor() == old(self).spec_cursor(),
                shift == lines * BUFFER_WIDTH,
                shift <= BUFFER_SIZE,
                i <= BUFFER_SIZE - shift,
                forall|j: int| 0 <= j < i ==> self.spec_chars()[j] == old(self).spec_chars()[j
                    + shift],
                forall|j: int|
                    i <= j < BUFFER_SIZE ==> self.spec_chars()[j] == old(self).spec_chars()[j],
            decreases BUFFER_SIZE - shift - i,
        {
            let shifted = self.chars[i + shift];
            self.chars[i] = shifted;
            i = i + 1;
        }
        let mut j: usize = BUFFER_SIZE - shift;
        while j < BUFFER_SIZE
            invariant
                self.spec_chars().len() == BUFFER_SIZE,
                self.spec_cursor() == old(self).spec_cursor(),
                shift == lines * BUFFER_WIDTH,
                shift <= BUFFER_SIZE,
                BUFFER_SIZE - shift <= j <= BUFFER_SIZE,
                forall|k: int|
                    0 <= k < BUFFER_SIZE - shift ==> self.spec_chars()[k] == old(
                        self,
                    ).spec_chars()[k + shift],
                forall|k: int|
                    BUFFER_SIZE - shift <= k < j ==> self.spec_chars()[k] == ' ',
                forall|k: int| j <= k < BUFFER_SIZE ==> self.spec_chars()[k] == old(
                    self,
                ).spec_chars()[k],
            decreases BUFFER_SIZE - j,
        {
            self.chars[j] = ' ';
            j = j + 1;
        }
        self.cursor = self.cursor - shift;
        proof {
            assert(self.spec_chars() =~= scrolled_chars(
                old(self).spec_chars(),
                lines as int * BUFFER_WIDTH as int,
            ));
        }
    }
}

} // verus!
