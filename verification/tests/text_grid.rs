use feebos::text_buffer::TextBuffer;

fn filled_grid(width: usize, height: usize, text: &str) -> TextBuffer {
    let mut grid = TextBuffer::new(width, height);
    for c in text.chars() {
        grid.insert(c);
    }
    grid
}

#[test]
fn new_grid_is_blank_and_clean() {
    let grid = TextBuffer::new(4, 3);
    assert_eq!(grid.width(), 4);
    assert_eq!(grid.height(), 3);
    assert_eq!(grid.capacity(), 12);
    assert_eq!(grid.cursor(), 0);
    for i in 0..12 {
        assert_eq!(grid.at(i), ' ');
        assert!(!grid.dirty_at(i));
    }
}

#[test]
fn empty_grid_has_no_cells() {
    let grid = TextBuffer::empty();
    assert_eq!(grid.width(), 0);
    assert_eq!(grid.height(), 0);
    assert_eq!(grid.capacity(), 0);
}

#[test]
fn insert_places_glyph_and_marks_dirty() {
    let mut grid = TextBuffer::new(4, 3);
    grid.insert('h');
    grid.insert('i');
    assert_eq!(grid.at(0), 'h');
    assert_eq!(grid.at(1), 'i');
    assert!(grid.dirty_at(0));
    assert!(grid.dirty_at(1));
    assert!(!grid.dirty_at(2));
    assert_eq!(grid.cursor(), 2);
    assert_eq!(grid.dirty(), vec![0, 1]);
}

#[test]
fn newline_advances_to_next_row_start() {
    let mut grid = TextBuffer::new(4, 3);
    grid.insert('a');
    grid.insert('\n');
    assert_eq!(grid.cursor(), 4);
    grid.insert('b');
    assert_eq!(grid.at(4), 'b');
    assert_eq!(grid.cursor(), 5);
}

#[test]
fn two_newlines_advance_two_rows() {
    let mut grid = TextBuffer::new(4, 4);
    grid.insert('\n');
    grid.insert('\n');
    assert_eq!(grid.cursor(), 8);
}

#[test]
fn delete_pulls_cursor_back_and_blanks() {
    let mut grid = TextBuffer::new(4, 3);
    grid.insert('x');
    grid.insert('y');
    grid.delete();
    assert_eq!(grid.cursor(), 1);
    assert_eq!(grid.at(1), ' ');
    assert!(grid.dirty_at(1));
}

#[test]
fn move_cursor_both_ways() {
    let mut grid = TextBuffer::new(4, 3);
    grid.move_cursor(5);
    assert_eq!(grid.cursor(), 5);
    grid.move_cursor(-3);
    assert_eq!(grid.cursor(), 2);
}

#[test]
fn clear_blanks_everything_and_keeps_cursor() {
    let mut grid = filled_grid(4, 3, "abcdef");
    grid.clear();
    assert_eq!(grid.cursor(), 6);
    for i in 0..12 {
        assert_eq!(grid.at(i), ' ');
        assert!(grid.dirty_at(i));
    }
}

#[test]
fn resize_resets_to_blank_dirty_grid() {
    let mut grid = filled_grid(4, 3, "abcdef");
    grid.resize(5, 2);
    assert_eq!(grid.width(), 5);
    assert_eq!(grid.height(), 2);
    assert_eq!(grid.cursor(), 0);
    for i in 0..10 {
        assert_eq!(grid.at(i), ' ');
        assert!(grid.dirty_at(i));
    }
}

#[test]
fn scroll_shifts_rows_up_and_blanks_bottom() {
    // rows: "abcd" / "efgh" / "ijkl"; scrolling one row discards "abcd"
    let grid = filled_grid(4, 3, "abcdefghijkl");
    assert_eq!(grid.cursor(), 4);  // the last insert scrolled twice already
    let mut grid = filled_grid(4, 3, "abcdefghijk");
    grid.insert('l');
    // autoscroll by two rows fired: "ijkl" moved to row 0
    assert_eq!(grid.at(0), 'i');
    assert_eq!(grid.at(1), 'j');
    assert_eq!(grid.at(2), 'k');
    assert_eq!(grid.at(3), 'l');
    for i in 4..12 {
        assert_eq!(grid.at(i), ' ');
    }
    assert_eq!(grid.cursor(), 4);
}

#[test]
fn explicit_scroll_moves_rows_and_cursor() {
    // rows: "abcd" / "efgh" / "    "; cursor 8
    let mut grid = filled_grid(4, 3, "abcdefgh");
    grid.scroll(1);
    // row 0 now holds what row 1 held; the bottom rows are blank
    assert_eq!(grid.at(0), 'e');
    assert_eq!(grid.at(1), 'f');
    assert_eq!(grid.at(2), 'g');
    assert_eq!(grid.at(3), 'h');
    for i in 4..12 {
        assert_eq!(grid.at(i), ' ');
    }
    assert_eq!(grid.cursor(), 4);
    for i in 0..12 {
        assert!(grid.dirty_at(i));
    }
}

#[test]
fn autoscroll_on_full_grid() {
    // an 80 by 25 grid filled to the brim scrolls two rows
    let mut grid = TextBuffer::new(80, 25);
    for i in 0..80 * 25 {
        let c = char::from(b'a' + (i % 26) as u8);
        grid.insert(c);
    }
    assert_eq!(grid.cursor(), 80 * 23);
    for i in 80 * 23..80 * 25 {
        assert_eq!(grid.at(i), ' ');
    }
    for i in 0..80 * 25 {
        assert!(grid.dirty_at(i));
    }
    // one more glyph lands at the start of the first vacated row
    grid.insert('!');
    assert_eq!(grid.at(80 * 23), '!');
    assert_eq!(grid.cursor(), 80 * 23 + 1);
}

#[test]
fn newline_at_last_row_scrolls() {
    let mut grid = TextBuffer::new(4, 2);
    grid.insert('a');
    grid.insert('\n');
    // moving past row 0 reaches row 1; another newline runs off the end
    assert_eq!(grid.cursor(), 4);
    grid.insert('\n');
    assert_eq!(grid.cursor(), 0);
    for i in 0..8 {
        assert_eq!(grid.at(i), ' ');
    }
}

#[test]
fn mark_all_clean_clears_dirty_bits() {
    let mut grid = filled_grid(4, 3, "ab");
    grid.mark_all_clean();
    assert_eq!(grid.dirty(), Vec::<usize>::new());
    assert!(!grid.dirty_at(0));
}
