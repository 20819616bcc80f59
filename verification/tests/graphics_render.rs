use feebos::graphics::{
    calculate_text_buffer_size, Color, FramebufferInfo, GraphicsContext, PixelFormat,
};
use feebos::text_buffer::TextBuffer;

fn bound_context(info: FramebufferInfo) -> GraphicsContext {
    let len = info.stride * info.height * info.bytes_per_pixel;
    let mut gfx = GraphicsContext::new();
    gfx.set_framebuffer(info, vec![0xAAu8; len]);
    gfx
}

fn rgb_info() -> FramebufferInfo {
    FramebufferInfo {
        width: 20,
        height: 18,
        stride: 24,
        bytes_per_pixel: 3,
        pixel_format: PixelFormat::Rgb,
    }
}

#[test]
fn color_from_hex_splits_components() {
    let c = Color::from_hex(0x1A1C2C);
    let mut gfx = bound_context(FramebufferInfo {
        width: 1,
        height: 1,
        stride: 1,
        bytes_per_pixel: 4,
        pixel_format: PixelFormat::Rgb,
    });
    gfx.set_pixel(0, 0, c);
    assert_eq!(gfx.pixel(0, 0), vec![0x1A, 0x1C, 0x2C, 0x00]);
}

#[test]
fn pixel_formats_order_components() {
    let c = Color::new(1, 2, 3);
    for (format, expected) in [
        (PixelFormat::Rgb, vec![1u8, 2, 3, 0]),
        (PixelFormat::U8, vec![1u8, 0, 0, 0]),
        (PixelFormat::Bgr, vec![3u8, 2, 1, 0]),
    ] {
        let mut gfx = bound_context(FramebufferInfo {
            width: 2,
            height: 2,
            stride: 2,
            bytes_per_pixel: 4,
            pixel_format: format,
        });
        gfx.set_pixel(1, 0, c);
        assert_eq!(gfx.pixel(1, 0), expected);
    }
}

#[test]
fn clear_then_set_pixel_round_trip() {
    let mut gfx = bound_context(rgb_info());
    let base = Color::new(10, 20, 30);
    let mark = Color::new(200, 100, 50);
    gfx.clear(base);
    gfx.set_pixel(5, 7, mark);
    for x in 0..20 {
        for y in 0..18 {
            if (x, y) == (5, 7) {
                assert_eq!(gfx.pixel(x, y), vec![200, 100, 50]);
            } else {
                assert_eq!(gfx.pixel(x, y), vec![10, 20, 30]);
            }
        }
    }
}

#[test]
fn set_pixel_out_of_bounds_is_ignored() {
    let mut gfx = bound_context(rgb_info());
    gfx.clear(Color::new(1, 1, 1));
    gfx.set_pixel(20, 0, Color::new(9, 9, 9));
    gfx.set_pixel(0, 18, Color::new(9, 9, 9));
    for x in 0..20 {
        for y in 0..18 {
            assert_eq!(gfx.pixel(x, y), vec![1, 1, 1]);
        }
    }
}

#[test]
fn char_paints_glyph_bits() {
    let mut gfx = bound_context(rgb_info());
    let fg = Color::new(255, 255, 255);
    let bg = Color::new(0, 0, 64);
    gfx.clear(Color::new(7, 7, 7));
    gfx.char('A', 4, 2, fg, bg);
    // the glyph's first row bitmap is 0x0C: bits 2 and 3 lit
    assert_eq!(gfx.pixel(4 + 2, 2), vec![255, 255, 255]);
    assert_eq!(gfx.pixel(4 + 3, 2), vec![255, 255, 255]);
    assert_eq!(gfx.pixel(4, 2), vec![0, 0, 64]);
    // the glyph's last row is blank
    for dx in 0..8 {
        assert_eq!(gfx.pixel(4 + dx, 2 + 7), vec![0, 0, 64]);
    }
    // outside the 8 by 8 box nothing changed
    assert_eq!(gfx.pixel(3, 2), vec![7, 7, 7]);
    assert_eq!(gfx.pixel(12, 2), vec![7, 7, 7]);
    assert_eq!(gfx.pixel(4, 10), vec![7, 7, 7]);
}

#[test]
fn char_without_glyph_paints_nothing() {
    let mut gfx = bound_context(rgb_info());
    gfx.clear(Color::new(7, 7, 7));
    gfx.char('\u{00C9}', 0, 0, Color::new(1, 1, 1), Color::new(2, 2, 2));
    for x in 0..20 {
        for y in 0..18 {
            assert_eq!(gfx.pixel(x, y), vec![7, 7, 7]);
        }
    }
}

#[test]
fn text_lays_characters_eight_apart() {
    let mut gfx = bound_context(FramebufferInfo {
        width: 40,
        height: 10,
        stride: 40,
        bytes_per_pixel: 3,
        pixel_format: PixelFormat::Rgb,
    });
    let fg = Color::new(255, 0, 0);
    let bg = Color::new(0, 0, 0);
    gfx.clear(Color::new(9, 9, 9));
    gfx.text("AA", 1, 1, fg, bg);
    // bit 2 of the glyph's first row is lit in both copies
    assert_eq!(gfx.pixel(1 + 2, 1), vec![255, 0, 0]);
    assert_eq!(gfx.pixel(1 + 8 + 2, 1), vec![255, 0, 0]);
    // past the second character's box nothing changed
    assert_eq!(gfx.pixel(1 + 16, 1), vec![9, 9, 9]);
}

#[test]
fn text_buffer_repaints_dirty_cells_and_cleans() {
    let mut gfx = bound_context(FramebufferInfo {
        width: 60,
        height: 40,
        stride: 64,
        bytes_per_pixel: 3,
        pixel_format: PixelFormat::Rgb,
    });
    let fg = Color::new(250, 250, 250);
    let bg = Color::new(0, 0, 0);
    let backdrop = Color::new(30, 30, 30);
    gfx.clear(backdrop);
    let mut grid = TextBuffer::new(4, 3);
    grid.mark_all_clean();
    grid.insert('A');
    grid.insert('A');
    gfx.text_buffer(&mut grid, 2, 2, fg, bg);
    // every cell is clean afterwards
    for i in 0..12 {
        assert!(!grid.dirty_at(i));
    }
    assert_eq!(grid.dirty(), Vec::<usize>::new());
    // cell (0, 0) was dirty and shows its glyph: bit 2 of row 0 is lit
    assert_eq!(gfx.pixel(2 + 2, 2), vec![250, 250, 250]);
    assert_eq!(gfx.pixel(2, 2), vec![0, 0, 0]);
    // cell (2, 0) was clean, so its box still shows the backdrop
    assert_eq!(gfx.pixel(2 + 16 + 2, 2), vec![30, 30, 30]);
    // repainting again touches nothing: no cell is dirty any more
    gfx.clear(backdrop);
    gfx.text_buffer(&mut grid, 2, 2, fg, bg);
    assert_eq!(gfx.pixel(2 + 2, 2), vec![30, 30, 30]);
}

#[test]
fn text_buffer_size_fits_padding_and_spacing() {
    assert_eq!(calculate_text_buffer_size(640, 480, 8, 2), (78, 46));
    assert_eq!(calculate_text_buffer_size(16, 16, 0, 0), (2, 2));
}
