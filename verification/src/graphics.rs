//! Pixel and glyph rendering into a linear framebuffer: a byte buffer with
//! per-row stride, a runtime-chosen pixel format, an 8 by 8 bitmap font, and
//! a renderer that repaints exactly the dirty cells of a text grid.
use vstd::prelude::*;

use crate::text_buffer::TextBuffer;

verus! {

/// An RGB color with 8-bit components.
#[derive(Clone, Copy, PartialEq, Eq, Structural, Debug)]
pub struct Color {
    red: u8,
    green: u8,
    blue: u8,
}

impl Color {
    pub closed spec fn spec_red(self) -> u8 {
        self.red
    }

    pub closed spec fn spec_green(self) -> u8 {
        self.green
    }

    pub closed spec fn spec_blue(self) -> u8 {
        self.blue
    }

    pub fn new(red: u8, green: u8, blue: u8) -> (r: Color)
        ensures
            r.spec_red() == red,
            r.spec_green() == green,
            r.spec_blue() == blue,
    {
        Color { red, green, blue }
    }

    /// The color written `0xRRGGBB`.
    pub fn from_hex(hex: u32) -> (r: Color)
        ensures
            r.spec_red() == ((hex >> 16) & 0xFF) as u8,
            r.spec_green() == ((hex >> 8) & 0xFF) as u8,
            r.spec_blue() == (hex & 0xFF) as u8,
    {
        let red = (hex & 0xFF0000) >> 16;
        let green = (hex & 0x00FF00) >> 8;
        let blue = hex & 0x0000FF;
        proof {
            assert((hex & 0xFF0000) >> 16 == (hex >> 16) & 0xFF) by (bit_vector);
            assert((hex & 0x00FF00) >> 8 == (hex >> 8) & 0xFF) by (bit_vector);
            assert(hex & 0x0000FF == hex & 0xFF) by (bit_vector);
            assert((hex & 0xFF0000) >> 16 < 256 && (hex & 0x00FF00) >> 8 < 256 && hex & 0x0000FF
                < 256) by (bit_vector);
        }
        Color::new(red as u8, green as u8, blue as u8)
    }
}

/// How the bytes of one pixel are laid out in framebuffer memory.
#[derive(Clone, Copy, PartialEq, Eq, Structural, Debug)]
pub enum PixelFormat {
    /// Red, green, blue, then a zero filler byte.
    Rgb,
    /// A single luminance byte (the red channel), zero filled.
    U8,
    /// Blue, green, red, then a zero filler byte; also the default when the
    /// firmware reports a format this renderer does not know.
    Bgr,
}

/// Shape of the framebuffer: resolution, row stride in pixels, bytes per
/// pixel and component layout, as reported by the firmware.
#[derive(Clone, Copy, PartialEq, Eq, Structural, Debug)]
pub struct FramebufferInfo {
    pub width: usize,
    pub height: usize,
    pub stride: usize,
    pub bytes_per_pixel: usize,
    pub pixel_format: PixelFormat,
}

impl FramebufferInfo {
    /// A geometry this renderer can address: pixels of one to four bytes,
    /// rows no wider than the stride, and a byte count that fits the
    /// machine.
    pub open spec fn wf(self) -> bool {
        &&& 1 <= self.bytes_per_pixel <= 4
        &&& self.width <= self.stride
        &&& self.stride * self.height * self.bytes_per_pixel <= usize::MAX
    }

    /// How many bytes the buffer holds.
    pub open spec fn buffer_len(self) -> int {
        self.stride * self.height * self.bytes_per_pixel
    }
}

/// The four component bytes of `c` in the given format; a pixel holds the
/// first `bytes_per_pixel` of them.
pub open spec fn color_bytes(format: PixelFormat, c: Color) -> Seq<u8> {
    match format {
        PixelFormat::Rgb => seq![c.spec_red(), c.spec_green(), c.spec_blue(), 0u8],
        PixelFormat::U8 => seq![c.spec_red(), 0u8, 0u8, 0u8],
        PixelFormat::Bgr => seq![c.spec_blue(), c.spec_green(), c.spec_red(), 0u8],
    }
}

/// `(x, y)` lies inside the visible resolution.
pub open spec fn visible(info: FramebufferInfo, x: int, y: int) -> bool {
    0 <= x < info.width && 0 <= y < info.height
}

/// Byte offset of the first byte of pixel `(x, y)`.
pub open spec fn pixel_start(info: FramebufferInfo, x: int, y: int) -> int {
    (y * info.stride + x) * info.bytes_per_pixel
}

/// The bytes of pixel `(x, y)` in the buffer.
pub open spec fn pixel_at(buf: Seq<u8>, info: FramebufferInfo, x: int, y: int) -> Seq<u8> {
    buf.subrange(pixel_start(info, x, y), pixel_start(info, x, y) + info.bytes_per_pixel)
}

/// Byte `i` belongs to some visible pixel (as opposed to stride padding).
pub open spec fn visible_byte(info: FramebufferInfo, i: int) -> bool {
    exists|x: int, y: int|
        visible(info, x, y) && pixel_start(info, x, y) <= i < pixel_start(info, x, y)
            + info.bytes_per_pixel
}

/// A visible pixel's bytes lie inside the buffer.
pub proof fn lemma_pixel_start_bounds(info: FramebufferInfo, x: int, y: int)
    requires
        info.wf(),
        0 <= x < info.stride,
        0 <= y < info.height,
    ensures
        0 <= pixel_start(info, x, y),
        pixel_start(info, x, y) + info.bytes_per_pixel <= info.buffer_len(),
        0 <= y * info.stride,
        y * info.stride + x <= pixel_start(info, x, y),
{
    let s = info.stride as int;
    let h = info.height as int;
    let b = info.bytes_per_pixel as int;
    assert(0 <= y * s && 0 <= (y * s + x) * b && y * s + x <= (y * s + x) * b && (y * s + x) * b
        + b <= s * h * b) by (nonlinear_arith)
        requires
            0 <= x < s,
            0 <= y < h,
            1 <= b,
    ;
}

/// Distinct visible pixels occupy disjoint byte ranges.
pub proof fn lemma_pixel_ranges_disjoint(info: FramebufferInfo, x1: int, y1: int, x2: int, y2: int)
    requires
        info.wf(),
        0 <= x1 < info.stride,
        0 <= y1 < info.height,
        0 <= x2 < info.stride,
        0 <= y2 < info.height,
        (x1, y1) != (x2, y2),
    ensures
        pixel_start(info, x1, y1) + info.bytes_per_pixel <= pixel_start(info, x2, y2)
            || pixel_start(info, x2, y2) + info.bytes_per_pixel <= pixel_start(info, x1, y1),
{
    let s = info.stride as int;
    let b = info.bytes_per_pixel as int;
    assert((y1 * s + x1 + 1) * b <= (y2 * s + x2) * b || (y2 * s + x2 + 1) * b <= (y1 * s + x1)
        * b) by (nonlinear_arith)
        requires
            0 <= x1 < s,
            0 <= x2 < s,
            1 <= b,
            !(x1 == x2 && y1 == y2),
    ;
    assert((y1 * s + x1 + 1) * b == (y1 * s + x1) * b + b) by (nonlinear_arith);
    assert((y2 * s + x2 + 1) * b == (y2 * s + x2) * b + b) by (nonlinear_arith);
}

/// The framebuffer bound into the graphics context: its geometry and its
/// bytes.
pub struct Framebuffer {
    info: FramebufferInfo,
    data: Vec<u8>,
}

/// Renders pixels, glyphs and text grids into a bound framebuffer. Before
/// one is bound, rendering operations must not be called.
pub struct GraphicsContext {
    fb: Option<Framebuffer>,
}

impl GraphicsContext {
    pub closed spec fn has_framebuffer(&self) -> bool {
        self.fb is Some
    }

    pub closed spec fn spec_info(&self) -> FramebufferInfo {
        self.fb->Some_0.info
    }

    pub closed spec fn spec_buf(&self) -> Seq<u8> {
        self.fb->Some_0.data@
    }

    /// A bound framebuffer is well-formed and its byte count matches its
    /// geometry.
    pub open spec fn wf(&self) -> bool {
        self.has_framebuffer() ==> {
            &&& self.spec_info().wf()
            &&& self.spec_buf().len() == self.spec_info().buffer_len()
        }
    }

    /// A context with no framebuffer bound yet.
    pub fn new() -> (r: GraphicsContext)
        ensures
            r.wf(),
            !r.has_framebuffer(),
    {
        GraphicsContext { fb: None }
    }

    /// Bind a framebuffer: its geometry and the byte buffer to render into.
    pub fn set_framebuffer(&mut self, info: FramebufferInfo, data: Vec<u8>)
        requires
            info.wf(),
            data@.len() == info.buffer_len(),
        ensures
            final(self).wf(),
            final(self).has_framebuffer(),
            final(self).spec_info() == info,
            final(self).spec_buf() == data@,
    {
        self.fb = Some(Framebuffer { info, data });
    }

    /// Whether a framebuffer has been bound yet.
    pub fn is_bound(&self) -> (r: bool)
        ensures
            r == self.has_framebuffer(),
    {
        match &self.fb {
            Some(_) => true,
            None => false,
        }
    }

    pub fn width(&self) -> (r: usize)
        requires
            self.has_framebuffer(),
        ensures
            r == self.spec_info().width,
    {
        match &self.fb {
            Some(fb) => fb.info.width,
            None => 0,
        }
    }

    pub fn height(&self) -> (r: usize)
        requires
            self.has_framebuffer(),
        ensures
            r == self.spec_info().height,
    {
        match &self.fb {
            Some(fb) => fb.info.height,
            None => 0,
        }
    }

    /// The bytes of pixel `(x, y)` as currently stored.
    pub fn pixel(&self, x: usize, y: usize) -> (r: Vec<u8>)
        requires
            self.wf(),
            self.has_framebuffer(),
            visible(self.spec_info(), x as int, y as int),
        ensures
            r@ == pixel_at(self.spec_buf(), self.spec_info(), x as int, y as int),
    {
        let fb = match &self.fb {
            Some(fb) => fb,
            None => unreached(),
        };
        proof {
            lemma_pixel_start_bounds(fb.info, x as int, y as int);
        }
        let start = (y * fb.info.stride + x) * fb.info.bytes_per_pixel;
        let mut r: Vec<u8> = Vec::new();
        let mut k: usize = 0;
        while k < fb.info.bytes_per_pixel
            invariant
                self.wf(),
                self.has_framebuffer(),
                fb == self.fb->Some_0,
                visible(self.spec_info(), x as int, y as int),
                start == pixel_start(self.spec_info(), x as int, y as int),
                start + self.spec_info().bytes_per_pixel <= self.spec_buf().len(),
                k <= self.spec_info().bytes_per_pixel,
                r@ == self.spec_buf().subrange(start as int, start + k),
            decreases fb.info.bytes_per_pixel - k,
        {
            let b = fb.data[start + k];
            r.push(b);
            proof {
                assert(r@ =~= self.spec_buf().subrange(start as int, start + k + 1));
            }
            k = k + 1;
        }
        proof {
            assert(r@ =~= pixel_at(self.spec_buf(), self.spec_info(), x as int, y as int));
        }
        r
    }

    /// The component byte `k` of `color` in format `format`.
    fn component(format: PixelFormat, color: Color, k: usize) -> (r: u8)
        requires
            k < 4,
        ensures
            r == color_bytes(format, color)[k as int],
    {
        match format {
            PixelFormat::Rgb => {
                if k == 0 {
                    color.red
                } else if k == 1 {
                    color.green
                } else if k == 2 {
                    color.blue
                } else {
                    0
                }
            },
            PixelFormat::U8 => {
                if k == 0 {
                    color.red
                } else {
                    0
                }
            },
            PixelFormat::Bgr => {
                if k == 0 {
                    color.blue
                } else if k == 1 {
                    color.green
                } else if k == 2 {
                    color.red
                } else {
                    0
                }
            },
        }
    }

    /// Write `color` into pixel `(x, y)`; a coordinate outside the visible
    /// resolution is ignored. No other byte of the framebuffer changes.
    pub fn set_pixel(&mut self, x: usize, y: usize, color: Color)
        requires
            old(self).wf(),
            old(self).has_framebuffer(),
        ensures
            final(self).wf(),
            final(self).has_framebuffer(),
            final(self).spec_info() == old(self).spec_info(),
            final(self).spec_buf().len() == old(self).spec_buf().len(),
            visible(old(self).spec_info(), x as int, y as int) ==> pixel_written(
                old(self).spec_buf(),
                final(self).spec_buf(),
                old(self).spec_info(),
                x as int,
                y as int,
                color,
            ),
            !visible(old(self).spec_info(), x as int, y as int) ==> final(self).spec_buf() == old(
                self,
            ).spec_buf(),
    {
        let ghost info = self.spec_info();
        let ghost buf0 = self.spec_buf();
        let fb = match &mut self.fb {
            Some(fb) => fb,
            None => unreached(),
        };
        if x >= fb.info.width || y >= fb.info.height {
            return ;
        }
        proof {
            lemma_pixel_start_bounds(fb.info, x as int, y as int);
        }
        let bpp = fb.info.bytes_per_pixel;
        let start = (y * fb.info.stride + x) * bpp;
        let format = fb.info.pixel_format;
        let mut k: usize = 0;
        while k < bpp
            invariant
                fb.info == info,
                fb.data@.len() == buf0.len(),
                info.wf(),
                buf0.len() == info.buffer_len(),
                visible(info, x as int, y as int),
                bpp == info.bytes_per_pixel,
                format == info.pixel_format,
                start == pixel_start(info, x as int, y as int),
                start + bpp <= buf0.len(),
                k <= bpp,
                forall|j: int|
                    start <= j < start + k ==> fb.data@[j] == color_bytes(format, color)[j - start],
                forall|j: int|
                    0 <= j < buf0.len() && !(start <= j < start + k) ==> fb.data@[j] == buf0[j],
            decreases bpp - k,
        {
            let b = GraphicsContext::component(format, color, k);
            fb.data[start + k] = b;
            k = k + 1;
        }
        proof {
            lemma_pixel_writes_are_pixel_written(buf0, fb.data@, info, x as int, y as int, color);
        }
    }

    /// Fill every visible pixel with `color`; stride padding is untouched.
    pub fn clear(&mut self, color: Color)
        requires
            old(self).wf(),
            old(self).has_framebuffer(),
        ensures
            final(self).wf(),
            final(self).has_framebuffer(),
            final(self).spec_info() == old(self).spec_info(),
            final(self).spec_buf().len() == old(self).spec_buf().len(),
            forall|px: int, py: int|
                #![trigger pixel_at(final(self).spec_buf(), old(self).spec_info(), px, py)]
                visible(old(self).spec_info(), px, py) ==> pixel_at(
                    final(self).spec_buf(),
                    old(self).spec_info(),
                    px,
                    py,
                ) == packed_color(old(self).spec_info(), color),
            forall|i: int|
                0 <= i < old(self).spec_buf().len() && !visible_byte(old(self).spec_info(), i)
                    ==> final(self).spec_buf()[i] == old(self).spec_buf()[i],
    {
        let ghost info = self.spec_info();
        let ghost buf0 = self.spec_buf();
        let height = self.height();
        let width = self.width();
        let mut y: usize = 0;
        while y < height
            invariant
                self.wf(),
                self.has_framebuffer(),
                self.spec_info() == info,
                self.spec_buf().len() == buf0.len(),
                width == info.width,
                height == info.height,
                y <= height,
                forall|px: int, py: int|
                    #![trigger pixel_at(self.spec_buf(), info, px, py)]
                    visible(info, px, py) && py < y ==> pixel_at(self.spec_buf(), info, px, py)
                        == packed_color(info, color),
                forall|px: int, py: int|
                    #![trigger pixel_at(self.spec_buf(), info, px, py)]
                    visible(info, px, py) && py >= y ==> pixel_at(self.spec_buf(), info, px, py)
                        == pixel_at(buf0, info, px, py),
                forall|i: int|
                    0 <= i < buf0.len() && !visible_byte(info, i) ==> self.spec_buf()[i] == buf0[i],
            decreases height - y,
        {
            let mut x: usize = 0;
            while x < width
                invariant
                    self.wf(),
                    self.has_framebuffer(),
                    self.spec_info() == info,
                    self.spec_buf().len() == buf0.len(),
                    width == info.width,
                    height == info.height,
                    y < height,
                    x <= width,
                    forall|px: int, py: int|
                        #![trigger pixel_at(self.spec_buf(), info, px, py)]
                        visible(info, px, py) && (py < y || (py == y && px < x)) ==> pixel_at(
                            self.spec_buf(),
                            info,
                            px,
                            py,
                        ) == packed_color(info, color),
                    forall|px: int, py: int|
                        #![trigger pixel_at(self.spec_buf(), info, px, py)]
                        visible(info, px, py) && (py > y || (py == y && px >= x)) ==> pixel_at(
                            self.spec_buf(),
                            info,
                            px,
                            py,
                        ) == pixel_at(buf0, info, px, py),
                    forall|i: int|
                        0 <= i < buf0.len() && !visible_byte(info, i) ==> self.spec_buf()[i]
                            == buf0[i],
                decreases width - x,
            {
                let ghost buf_pre = self.spec_buf();
                self.set_pixel(x, y, color);
                proof {
                    lemma_pixel_written_frame(buf_pre, self.spec_buf(), info, x as int, y as int,
                        color);
                }
                x = x + 1;
            }
            y = y + 1;
        }
    }

    /// Paint the glyph of `c` in the 8 by 8 box whose top-left corner is
    /// `(x, y)`: lit bits in the foreground color, clear bits in the
    /// background color. A character without a glyph paints nothing.
    pub fn char(&mut self, c: char, x: usize, y: usize, fg: Color, bg: Color)
        requires
            old(self).wf(),
            old(self).has_framebuffer(),
            x + 8 <= usize::MAX,
            y + 8 <= usize::MAX,
        ensures
            final(self).wf(),
            final(self).has_framebuffer(),
            final(self).spec_info() == old(self).spec_info(),
            final(self).spec_buf().len() == old(self).spec_buf().len(),
            char_drawn(
                old(self).spec_buf(),
                final(self).spec_buf(),
                old(self).spec_info(),
                c,
                x as int,
                y as int,
                fg,
                bg,
            ),
    {
        let ghost info = self.spec_info();
        let ghost buf0 = self.spec_buf();
        let glyph = match crate::font::basic_glyph_lookup(c) {
            Some(glyph) => glyph,
            None => {
                return ;
            },
        };
        let mut dy: usize = 0;
        while dy < 8
            invariant
                self.wf(),
                self.has_framebuffer(),
                self.spec_info() == info,
                self.spec_buf().len() == buf0.len(),
                info.wf(),
                buf0.len() == info.buffer_len(),
                x + 8 <= usize::MAX,
                y + 8 <= usize::MAX,
                glyph@.len() == 8,
                crate::font::basic_glyph(c) == Some(glyph@),
                dy <= 8,
                forall|px: int, py: int|
                    #![trigger pixel_at(self.spec_buf(), info, px, py)]
                    visible(info, px, py) && in_glyph_box(x as int, y as int, px, py) && py - y
                        < dy ==> pixel_at(self.spec_buf(), info, px, py) == packed_color(
                        info,
                        glyph_color(glyph@, px - x, py - y, fg, bg),
                    ),
                forall|px: int, py: int|
                    #![trigger pixel_at(self.spec_buf(), info, px, py)]
                    visible(info, px, py) && !(in_glyph_box(x as int, y as int, px, py) && py - y
                        < dy) ==> pixel_at(self.spec_buf(), info, px, py) == pixel_at(
                        buf0,
                        info,
                        px,
                        py,
                    ),
                forall|i: int|
                    0 <= i < buf0.len() && !visible_byte(info, i) ==> self.spec_buf()[i] == buf0[i],
            decreases 8 - dy,
        {
            let row = glyph[dy];
            let mut dx: usize = 0;
            while dx < 8
                invariant
                    self.wf(),
                    self.has_framebuffer(),
                    self.spec_info() == info,
                    self.spec_buf().len() == buf0.len(),
                    info.wf(),
                    buf0.len() == info.buffer_len(),
                    x + 8 <= usize::MAX,
                    y + 8 <= usize::MAX,
                    glyph@.len() == 8,
                    crate::font::basic_glyph(c) == Some(glyph@),
                    dy < 8,
                    dx <= 8,
                    row == glyph@[dy as int],
                    forall|px: int, py: int|
                        #![trigger pixel_at(self.spec_buf(), info, px, py)]
                        visible(info, px, py) && in_glyph_box(x as int, y as int, px, py) && (py - y
                            < dy || (py - y == dy && px - x < dx)) ==> pixel_at(
                            self.spec_buf(),
                            info,
                            px,
                            py,
                        ) == packed_color(info, glyph_color(glyph@, px - x, py - y, fg, bg)),
                    forall|px: int, py: int|
                        #![trigger pixel_at(self.spec_buf(), info, px, py)]
                        visible(info, px, py) && !(in_glyph_box(x as int, y as int, px, py) && (py
                            - y < dy || (py - y == dy && px - x < dx))) ==> pixel_at(
                            self.spec_buf(),
                            info,
                            px,
                            py,
                        ) == pixel_at(buf0, info, px, py),
                    forall|i: int|
                        0 <= i < buf0.len() && !visible_byte(info, i) ==> self.spec_buf()[i]
                            == buf0[i],
                decreases 8 - dx,
            {
                let colour = if row & (1u8 << dx) != 0 {
                    fg
                } else {
                    bg
                };
                proof {
                    assert(1u8 << dx == 1u8 << (dx as u8)) by (bit_vector)
                        requires
                            dx < 8,
                    ;
                }
                let ghost pre = self.spec_buf();
                self.set_pixel(x + dx, y + dy, colour);
                proof {
                    if visible(info, x + dx, y + dy) {
                        lemma_pixel_written_frame(
                            pre,
                            self.spec_buf(),
                            info,
                            (x + dx) as int,
                            (y + dy) as int,
                            colour,
                        );
                    }
                }
                dx = dx + 1;
            }
            dy = dy + 1;
        }
    }

    /// Paint the characters of `s` left to right, eight pixels apart,
    /// starting at `(x, y)`.
    pub fn text(&mut self, s: &str, x: usize, y: usize, fg: Color, bg: Color)
        requires
            old(self).wf(),
            old(self).has_framebuffer(),
            x + 8 * s@.len() + 8 <= usize::MAX,
            y + 8 <= usize::MAX,
        ensures
            final(self).wf(),
            final(self).has_framebuffer(),
            final(self).spec_info() == old(self).spec_info(),
            final(self).spec_buf().len() == old(self).spec_buf().len(),
            text_drawn(
                old(self).spec_buf(),
                final(self).spec_buf(),
                old(self).spec_info(),
                s@,
                x as int,
                y as int,
                fg,
                bg,
            ),
    {
        let ghost info = self.spec_info();
        let ghost buf0 = self.spec_buf();
        let len = s.unicode_len();
        let mut j: usize = 0;
        while j < len
            invariant
                self.wf(),
                self.has_framebuffer(),
                self.spec_info() == info,
                self.spec_buf().len() == buf0.len(),
                info.wf(),
                buf0.len() == info.buffer_len(),
                len == s@.len(),
                x + 8 * len + 8 <= usize::MAX,
                y + 8 <= usize::MAX,
                j <= len,
                text_drawn(
                    buf0,
                    self.spec_buf(),
                    info,
                    s@.take(j as int),
                    x as int,
                    y as int,
                    fg,
                    bg,
                ),
            decreases len - j,
        {
            let ghost pre = self.spec_buf();
            let c = s.get_char(j);
            self.char(c, x + 8 * j, y, fg, bg);
            proof {
                lemma_text_step(
                    buf0,
                    pre,
                    self.spec_buf(),
                    info,
                    s@,
                    x as int,
                    y as int,
                    j as int,
                    fg,
                    bg,
                );
            }
            j = j + 1;
        }
        proof {
            assert(s@.take(len as int) =~= s@);
        }
    }

    /// Repaint exactly the dirty cells of the shell grid, each in its glyph
    /// box at `(padding + 8 col, padding + (8 + line_spacing) row)`, then
    /// mark every cell clean. Afterwards the grid has no dirty cell and the
    /// framebuffer shows every cell that was dirty.
    pub fn text_buffer(
        &mut self,
        grid: &mut TextBuffer,
        padding: usize,
        line_spacing: usize,
        fg: Color,
        bg: Color,
    )
        requires
            old(self).wf(),
            old(self).has_framebuffer(),
            old(grid)@.wf(),
            padding + 8 * old(grid)@.width + 8 <= usize::MAX,
            line_spacing + 8 <= usize::MAX,
            padding + (8 + line_spacing) * old(grid)@.height + 8 <= usize::MAX,
        ensures
            final(self).wf(),
            final(self).has_framebuffer(),
            final(self).spec_info() == old(self).spec_info(),
            final(self).spec_buf().len() == old(self).spec_buf().len(),
            final(grid)@ == (crate::text_buffer::Grid {
                dirty: Seq::new(old(grid)@.dirty.len(), |i: int| false),
                ..old(grid)@
            }),
            grid_drawn(
                old(self).spec_buf(),
                final(self).spec_buf(),
                old(self).spec_info(),
                old(grid)@,
                padding as int,
                line_spacing as int,
                fg,
                bg,
            ),
    {
        let ghost info = self.spec_info();
        let ghost buf0 = self.spec_buf();
        let ghost g0 = grid@;
        let width = grid.width();
        let capacity = grid.capacity();
        let mut k: usize = 0;
        while k < capacity
            invariant
                self.wf(),
                self.has_framebuffer(),
                self.spec_info() == info,
                self.spec_buf().len() == buf0.len(),
                info.wf(),
                buf0.len() == info.buffer_len(),
                grid@ == g0,
                g0.wf(),
                width == g0.width,
                capacity == g0.capacity(),
                padding + 8 * g0.width + 8 <= usize::MAX,
                line_spacing + 8 <= usize::MAX,
                padding + (8 + line_spacing) * g0.height + 8 <= usize::MAX,
                k <= capacity,
                grid_drawn_upto(
                    buf0,
                    self.spec_buf(),
                    info,
                    g0,
                    padding as int,
                    line_spacing as int,
                    k as int,
                    fg,
                    bg,
                ),
            decreases capacity - k,
        {
            if grid.dirty_at(k) {
                proof {
                    lemma_cell_coords(g0, k as int);
                }
                let col = k % width;
                let row = k / width;
                let c = grid.at(k);
                proof {
                    assert(8 * col + 8 <= 8 * g0.width) by (nonlinear_arith)
                        requires
                            col < g0.width,
                    ;
                    assert((8 + line_spacing) * row + (8 + line_spacing) <= (8 + line_spacing)
                        * g0.height) by (nonlinear_arith)
                        requires
                            row < g0.height,
                            line_spacing >= 0,
                    ;
                }
                let cx = padding + 8 * col;
                let cy = padding + (8 + line_spacing) * row;
                let ghost pre = self.spec_buf();
                self.char(c, cx, cy, fg, bg);
                proof {
                    lemma_grid_step_drawn(
                        buf0,
                        pre,
                        self.spec_buf(),
                        info,
                        g0,
                        padding as int,
                        line_spacing as int,
                        k as int,
                        fg,
                        bg,
                    );
                }
            } else {
                proof {
                    assert forall|px: int, py: int| visible(info, px, py) implies !(pixel_in_grid(
                        g0,
                        padding as int,
                        line_spacing as int,
                        px,
                        py,
                    ) && pixel_cell(g0, padding as int, line_spacing as int, px, py) == k
                        && g0.dirty[pixel_cell(
                        g0,
                        padding as int,
                        line_spacing as int,
                        px,
                        py,
                    )]) by {}
                }
            }
            k = k + 1;
        }
        proof {
            lemma_grid_drawn_complete(
                buf0,
                self.spec_buf(),
                info,
                g0,
                padding as int,
                line_spacing as int,
                fg,
                bg,
            );
        }
        grid.mark_all_clean();
    }
}

/// A repaint pass that went through every cell index is a full repaint: a
/// pixel's cell index is always below the capacity.
proof fn lemma_grid_drawn_complete(
    before: Seq<u8>,
    after: Seq<u8>,
    info: FramebufferInfo,
    g: crate::text_buffer::Grid,
    padding: int,
    spacing: int,
    fg: Color,
    bg: Color,
)
    requires
        g.wf(),
        padding >= 0,
        spacing >= 0,
        grid_drawn_upto(before, after, info, g, padding, spacing, g.capacity(), fg, bg),
    ensures
        grid_drawn(before, after, info, g, padding, spacing, fg, bg),
{
}

impl Default for GraphicsContext {
    /// Same as `new`: a context with no framebuffer bound.
    fn default() -> (r: GraphicsContext)
        ensures
            r.wf(),
            !r.has_framebuffer(),
    {
        GraphicsContext::new()
    }
}

/// How many columns and rows of glyph cells fit on a screen of the given
/// resolution, with `padding` pixels kept free on every edge and `spacing`
/// extra pixels between lines.
pub fn calculate_text_buffer_size(
    width: usize,
    height: usize,
    padding: usize,
    spacing: usize,
) -> (r: (usize, usize))
    requires
        2 * padding <= width,
        2 * padding <= height,
        spacing + 8 <= usize::MAX,
    ensures
        r.0 == (width - 2 * padding) as int / 8,
        r.1 == (height - 2 * padding) as int / (8 + spacing),
{
    let xspace = (width - padding * 2) / 8;
    let yspace = (height - padding * 2) / (8 + spacing);
    (xspace, yspace)
}

/// Pixel `(px, py)` lies inside some glyph box of the shell grid laid out
/// from `(padding, padding)`: boxes are eight pixels wide, eight tall, and
/// sit `8 + spacing` pixels apart vertically.
pub open spec fn pixel_in_grid(g: crate::text_buffer::Grid, padding: int, spacing: int, px: int, py: int) -> bool
    recommends
        spacing >= 0,
{
    &&& px >= padding
    &&& py >= padding
    &&& (px - padding) / 8 < g.width
    &&& (py - padding) / (8 + spacing) < g.height
    &&& (py - padding) % (8 + spacing) < 8
}

/// The row-major index of the cell whose glyph box holds pixel `(px, py)`.
pub open spec fn pixel_cell(g: crate::text_buffer::Grid, padding: int, spacing: int, px: int, py: int) -> int {
    ((py - padding) / (8 + spacing)) * g.width + (px - padding) / 8
}

/// `after` is `before` with every cell of `g` whose index is dirty and
/// below `bound` repainted: each such cell's glyph box shows its glyph, and
/// every other byte is untouched.
pub open spec fn grid_drawn_upto(
    before: Seq<u8>,
    after: Seq<u8>,
    info: FramebufferInfo,
    g: crate::text_buffer::Grid,
    padding: int,
    spacing: int,
    bound: int,
    fg: Color,
    bg: Color,
) -> bool {
    &&& after.len() == before.len()
    &&& forall|px: int, py: int|
        #![trigger pixel_at(after, info, px, py)]
        visible(info, px, py) ==> {
            if pixel_in_grid(g, padding, spacing, px, py) && pixel_cell(g, padding, spacing, px, py)
                < bound && g.dirty[pixel_cell(g, padding, spacing, px, py)] {
                match crate::font::basic_glyph(g.chars[pixel_cell(g, padding, spacing, px, py)]) {
                    Some(gl) => pixel_at(after, info, px, py) == packed_color(
                        info,
                        glyph_color(
                            gl,
                            px - padding - 8 * ((px - padding) / 8),
                            py - padding - (8 + spacing) * ((py - padding) / (8 + spacing)),
                            fg,
                            bg,
                        ),
                    ),
                    None => pixel_at(after, info, px, py) == pixel_at(before, info, px, py),
                }
            } else {
                pixel_at(after, info, px, py) == pixel_at(before, info, px, py)
            }
        }
    &&& forall|i: int| 0 <= i < before.len() && !visible_byte(info, i) ==> after[i] == before[i]
}

/// `after` shows every dirty cell of `g` repainted and everything else
/// untouched: what one repaint pass over the whole grid does.
pub open spec fn grid_drawn(
    before: Seq<u8>,
    after: Seq<u8>,
    info: FramebufferInfo,
    g: crate::text_buffer::Grid,
    padding: int,
    spacing: int,
    fg: Color,
    bg: Color,
) -> bool {
    grid_drawn_upto(before, after, info, g, padding, spacing, g.capacity(), fg, bg)
}

/// A cell index below the capacity splits into a row below the height and a
/// column below the width, and its glyph box stays inside the laid-out
/// grid.
proof fn lemma_cell_coords(g: crate::text_buffer::Grid, k: int)
    requires
        g.wf(),
        0 <= k < g.capacity(),
    ensures
        g.width >= 1,
        0 <= k % g.width < g.width,
        0 <= k / g.width < g.height,
        k == (k / g.width) * g.width + k % g.width,
{
    let w = g.width;
    let h = g.height;
    assert(w >= 1) by (nonlinear_arith)
        requires
            0 <= w && 0 <= h && 0 < w * h,
    ;
    vstd::arithmetic::div_mod::lemma_fundamental_div_mod(k, w);
    vstd::arithmetic::div_mod::lemma_mod_bound(k, w);
    assert(k == w * (k / w) + k % w);
    assert((k / w) * w == w * (k / w)) by (nonlinear_arith);
    assert(0 <= k / w < h) by (nonlinear_arith)
        requires
            k == w * (k / w) + k % w,
            0 <= k % w < w,
            0 <= k < w * h,
            w >= 1,
    ;
}

/// Repainting one more dirty cell extends a partial repaint pass by one
/// cell; skipping a clean cell extends it for free.
proof fn lemma_grid_step_drawn(
    buf0: Seq<u8>,
    pre: Seq<u8>,
    cur: Seq<u8>,
    info: FramebufferInfo,
    g: crate::text_buffer::Grid,
    padding: int,
    spacing: int,
    k: int,
    fg: Color,
    bg: Color,
)
    requires
        info.wf(),
        buf0.len() == info.buffer_len(),
        pre.len() == buf0.len(),
        cur.len() == buf0.len(),
        g.wf(),
        padding >= 0,
        spacing >= 0,
        0 <= k < g.capacity(),
        g.dirty[k],
        grid_drawn_upto(buf0, pre, info, g, padding, spacing, k, fg, bg),
        char_drawn(
            pre,
            cur,
            info,
            g.chars[k],
            padding + 8 * (k % g.width),
            padding + (8 + spacing) * (k / g.width),
            fg,
            bg,
        ),
    ensures
        grid_drawn_upto(buf0, cur, info, g, padding, spacing, k + 1, fg, bg),
{
    let w = g.width;
    let col = k % w;
    let row = k / w;
    let bx = padding + 8 * col;
    let by = padding + (8 + spacing) * row;
    let c = g.chars[k];
    lemma_cell_coords(g, k);
    assert forall|px: int, py: int| visible(info, px, py) implies {
        if pixel_in_grid(g, padding, spacing, px, py) && pixel_cell(g, padding, spacing, px, py) < k
            + 1 && g.dirty[pixel_cell(g, padding, spacing, px, py)] {
            match crate::font::basic_glyph(g.chars[pixel_cell(g, padding, spacing, px, py)]) {
                Some(gl) => pixel_at(cur, info, px, py) == packed_color(
                    info,
                    glyph_color(
                        gl,
                        px - padding - 8 * ((px - padding) / 8),
                        py - padding - (8 + spacing) * ((py - padding) / (8 + spacing)),
                        fg,
                        bg,
                    ),
                ),
                None => pixel_at(cur, info, px, py) == pixel_at(buf0, info, px, py),
            }
        } else {
            #[trigger] pixel_at(cur, info, px, py) == pixel_at(buf0, info, px, py)
        }
    } by {
        assert(pixel_at(pre, info, px, py) == pixel_at(pre, info, px, py));
        if in_glyph_box(bx, by, px, py) {
            // inside the freshly painted box: recover the cell index
            lemma_box_recover(padding, 8, col, px);
            lemma_box_recover(padding, 8 + spacing, row, py);
            assert((px - padding) / 8 == col && (py - padding) / (8 + spacing) == row);
            assert(pixel_in_grid(g, padding, spacing, px, py));
            assert(pixel_cell(g, padding, spacing, px, py) == row * w + col == k);
            if crate::font::basic_glyph(c) is Some {
                assert(pixel_at(cur, info, px, py) == packed_color(
                    info,
                    glyph_color(
                        crate::font::basic_glyph(c)->Some_0,
                        px - bx,
                        py - by,
                        fg,
                        bg,
                    ),
                ));
            } else {
                assert(cur == pre);
                assert(pixel_at(pre, info, px, py) == pixel_at(buf0, info, px, py));
            }
        } else {
            // untouched by this repaint: the partial pass already says it all
            assert(pixel_at(cur, info, px, py) == pixel_at(pre, info, px, py)) by {
                if crate::font::basic_glyph(c) is None {
                    assert(cur == pre);
                }
            }
            if pixel_in_grid(g, padding, spacing, px, py) && pixel_cell(
                g,
                padding,
                spacing,
                px,
                py,
            ) == k {
                // a pixel of cell k necessarily lies in the painted box
                vstd::arithmetic::div_mod::lemma_fundamental_div_mod(px - padding, 8);
                vstd::arithmetic::div_mod::lemma_mod_bound(px - padding, 8);
                vstd::arithmetic::div_mod::lemma_fundamental_div_mod(py - padding, 8 + spacing);
                vstd::arithmetic::div_mod::lemma_mod_bound(py - padding, 8 + spacing);
                let colp = (px - padding) / 8;
                let rowp = (py - padding) / (8 + spacing);
                assert(0 <= colp && 0 <= rowp) by (nonlinear_arith)
                    requires
                        0 <= px - padding,
                        0 <= py - padding,
                        px - padding == 8 * colp + (px - padding) % 8,
                        0 <= (px - padding) % 8 < 8,
                        py - padding == (8 + spacing) * rowp + (py - padding) % (8 + spacing),
                        0 <= (py - padding) % (8 + spacing) < 8 + spacing,
                        spacing >= 0,
                ;
                assert(colp == col && rowp == row) by (nonlinear_arith)
                    requires
                        rowp * w + colp == k,
                        row * w + col == k,
                        0 <= colp < w,
                        0 <= col < w,
                        0 <= rowp,
                        0 <= row,
                        w >= 1,
                ;
                assert(px - padding == 8 * colp + (px - padding) % 8);
                assert(py - padding == (8 + spacing) * rowp + (py - padding) % (8 + spacing));
                assert(in_glyph_box(bx, by, px, py));
            }
        }
    }
    assert forall|i: int|
        0 <= i < buf0.len() && !visible_byte(info, i) implies cur[i] == buf0[i] by {
        if crate::font::basic_glyph(c) is None {
            assert(cur == pre);
        }
    }
}

/// Painting one more character at the end of a partially painted text run
/// extends the run by one.
proof fn lemma_text_step(
    buf0: Seq<u8>,
    pre: Seq<u8>,
    cur: Seq<u8>,
    info: FramebufferInfo,
    s: Seq<char>,
    x: int,
    y: int,
    j: int,
    fg: Color,
    bg: Color,
)
    requires
        info.wf(),
        buf0.len() == info.buffer_len(),
        pre.len() == buf0.len(),
        cur.len() == buf0.len(),
        0 <= j < s.len(),
        text_drawn(buf0, pre, info, s.take(j), x, y, fg, bg),
        char_drawn(pre, cur, info, s[j], x + 8 * j, y, fg, bg),
    ensures
        text_drawn(buf0, cur, info, s.take(j + 1), x, y, fg, bg),
{
    let sj = s.take(j);
    let sj1 = s.take(j + 1);
    assert(sj.len() == j && sj1.len() == j + 1);
    assert forall|px: int, py: int| visible(info, px, py) implies {
        if y <= py < y + 8 && x <= px < x + 8 * sj1.len() {
            match crate::font::basic_glyph(sj1[(px - x) / 8]) {
                Some(g) => pixel_at(cur, info, px, py) == packed_color(
                    info,
                    glyph_color(g, px - x - 8 * ((px - x) / 8), py - y, fg, bg),
                ),
                None => pixel_at(cur, info, px, py) == pixel_at(buf0, info, px, py),
            }
        } else {
            #[trigger] pixel_at(cur, info, px, py) == pixel_at(buf0, info, px, py)
        }
    } by {
        assert(pixel_at(pre, info, px, py) == pixel_at(pre, info, px, py));
        let a = px - x;
        if y <= py < y + 8 && x <= px < x + 8 * (j + 1) {
            if px < x + 8 * j {
                let jj = a / 8;
                assert(0 <= jj < j) by {
                    vstd::arithmetic::div_mod::lemma_fundamental_div_mod(a, 8);
                    vstd::arithmetic::div_mod::lemma_mod_bound(a, 8);
                    assert(0 <= jj && jj < j) by (nonlinear_arith)
                        requires
                            a == 8 * jj + a % 8,
                            0 <= a % 8 < 8,
                            0 <= a < 8 * j,
                    ;
                }
                assert(!in_glyph_box(x + 8 * j, y, px, py));
                assert(pixel_at(cur, info, px, py) == pixel_at(pre, info, px, py)) by {
                    if crate::font::basic_glyph(s[j]) is None {
                        assert(cur == pre);
                    }
                }
                assert(sj[jj] == s[jj] && sj1[jj] == s[jj]);
            } else {
                assert(in_glyph_box(x + 8 * j, y, px, py));
                lemma_box_recover(x, 8, j, px);
                assert(a / 8 == j);
                assert(sj1[j] == s[j]);
                if crate::font::basic_glyph(s[j]) is Some {
                    assert(pixel_at(cur, info, px, py) == packed_color(
                        info,
                        glyph_color(
                            crate::font::basic_glyph(s[j])->Some_0,
                            px - (x + 8 * j),
                            py - y,
                            fg,
                            bg,
                        ),
                    ));
                } else {
                    assert(cur == pre);
                    assert(pixel_at(pre, info, px, py) == pixel_at(buf0, info, px, py));
                }
            }
        } else {
            assert(!in_glyph_box(x + 8 * j, y, px, py));
            assert(pixel_at(cur, info, px, py) == pixel_at(pre, info, px, py)) by {
                if crate::font::basic_glyph(s[j]) is None {
                    assert(cur == pre);
                }
            }
            assert(pixel_at(pre, info, px, py) == pixel_at(buf0, info, px, py));
        }
    }
    assert forall|i: int|
        0 <= i < buf0.len() && !visible_byte(info, i) implies cur[i] == buf0[i] by {
        if crate::font::basic_glyph(s[j]) is None {
            assert(cur == pre);
        }
    }
}

/// Whether bit `k` of a glyph row bitmap is lit.
pub open spec fn glyph_bit(row: u8, k: u8) -> bool
    recommends
        k < 8,
{
    row & (1u8 << k) != 0
}

/// The color of glyph pixel `(dx, dy)`: the foreground where the bitmap bit
/// is set, the background elsewhere.
pub open spec fn glyph_color(g: Seq<u8>, dx: int, dy: int, fg: Color, bg: Color) -> Color
    recommends
        0 <= dx < 8,
        0 <= dy < 8 <= g.len(),
{
    if glyph_bit(g[dy], dx as u8) {
        fg
    } else {
        bg
    }
}

/// `(px, py)` lies inside the 8 by 8 box whose top-left corner is `(x, y)`.
pub open spec fn in_glyph_box(x: int, y: int, px: int, py: int) -> bool {
    x <= px < x + 8 && y <= py < y + 8
}

/// `after` is `before` with the glyph of `c` (if the font defines one)
/// painted in the box at `(x, y)`: lit bits in the foreground color, clear
/// bits in the background color, everything else untouched.
pub open spec fn char_drawn(
    before: Seq<u8>,
    after: Seq<u8>,
    info: FramebufferInfo,
    c: char,
    x: int,
    y: int,
    fg: Color,
    bg: Color,
) -> bool {
    &&& after.len() == before.len()
    &&& match crate::font::basic_glyph(c) {
        Some(g) => {
            &&& forall|px: int, py: int|
                #![trigger pixel_at(after, info, px, py)]
                visible(info, px, py) && in_glyph_box(x, y, px, py) ==> pixel_at(
                    after,
                    info,
                    px,
                    py,
                ) == packed_color(info, glyph_color(g, px - x, py - y, fg, bg))
            &&& forall|px: int, py: int|
                #![trigger pixel_at(after, info, px, py)]
                visible(info, px, py) && !in_glyph_box(x, y, px, py) ==> pixel_at(
                    after,
                    info,
                    px,
                    py,
                ) == pixel_at(before, info, px, py)
            &&& forall|i: int|
                0 <= i < before.len() && !visible_byte(info, i) ==> after[i] == before[i]
        },
        None => after == before,
    }
}

/// `after` is `before` with the characters of `s` painted left to right,
/// eight pixels apart, from `(x, y)`: the pixel column determines which
/// character's glyph it shows.
pub open spec fn text_drawn(
    before: Seq<u8>,
    after: Seq<u8>,
    info: FramebufferInfo,
    s: Seq<char>,
    x: int,
    y: int,
    fg: Color,
    bg: Color,
) -> bool {
    &&& after.len() == before.len()
    &&& forall|px: int, py: int|
        #![trigger pixel_at(after, info, px, py)]
        visible(info, px, py) ==> if y <= py < y + 8 && x <= px < x + 8 * s.len() {
            match crate::font::basic_glyph(s[(px - x) / 8]) {
                Some(g) => pixel_at(after, info, px, py) == packed_color(
                    info,
                    glyph_color(g, px - x - 8 * ((px - x) / 8), py - y, fg, bg),
                ),
                None => pixel_at(after, info, px, py) == pixel_at(before, info, px, py),
            }
        } else {
            pixel_at(after, info, px, py) == pixel_at(before, info, px, py)
        }
    &&& forall|i: int| 0 <= i < before.len() && !visible_byte(info, i) ==> after[i] == before[i]
}

/// A position `a` that lies `j` boxes of width `size` past `base`, within
/// the box, divides back to `j`.
proof fn lemma_box_recover(base: int, size: int, j: int, a: int)
    requires
        size > 0,
        0 <= j,
        size * j <= a - base < size * j + size,
    ensures
        (a - base) / size == j,
        (a - base) % size == a - base - size * j,
{
    vstd::arithmetic::div_mod::lemma_div_multiples_vanish_fancy(j, a - base - size * j, size);
    assert(size * j + (a - base - size * j) == a - base);
    vstd::arithmetic::div_mod::lemma_fundamental_div_mod(a - base, size);
}

/// The first `bytes_per_pixel` component bytes of `color`: what one painted
/// pixel holds.
pub open spec fn packed_color(info: FramebufferInfo, color: Color) -> Seq<u8> {
    color_bytes(info.pixel_format, color).take(info.bytes_per_pixel as int)
}

/// `after` is `before` with exactly pixel `(x, y)` repainted to `color`:
/// that pixel holds the packed color, every other visible pixel is
/// unchanged, and so is every padding byte.
pub open spec fn pixel_written(
    before: Seq<u8>,
    after: Seq<u8>,
    info: FramebufferInfo,
    x: int,
    y: int,
    color: Color,
) -> bool {
    &&& after.len() == before.len()
    &&& pixel_at(after, info, x, y) == packed_color(info, color)
    &&& forall|px: int, py: int|
        #![trigger pixel_at(after, info, px, py)]
        visible(info, px, py) && (px, py) != (x, y) ==> pixel_at(after, info, px, py) == pixel_at(
            before,
            info,
            px,
            py,
        )
    &&& forall|i: int|
        0 <= i < before.len() && !visible_byte(info, i) ==> after[i] == before[i]
}

/// Writing the packed color bytes of one visible pixel, and nothing else,
/// is `pixel_written`.
proof fn lemma_pixel_writes_are_pixel_written(
    before: Seq<u8>,
    after: Seq<u8>,
    info: FramebufferInfo,
    x: int,
    y: int,
    color: Color,
)
    requires
        info.wf(),
        before.len() == info.buffer_len(),
        after.len() == before.len(),
        visible(info, x, y),
        forall|j: int|
            pixel_start(info, x, y) <= j < pixel_start(info, x, y) + info.bytes_per_pixel
                ==> after[j] == color_bytes(info.pixel_format, color)[j - pixel_start(info, x, y)],
        forall|j: int|
            0 <= j < before.len() && !(pixel_start(info, x, y) <= j < pixel_start(info, x, y)
                + info.bytes_per_pixel) ==> after[j] == before[j],
    ensures
        pixel_written(before, after, info, x, y, color),
{
    lemma_pixel_start_bounds(info, x, y);
    assert(pixel_at(after, info, x, y) =~= packed_color(info, color));
    assert forall|px: int, py: int|
        visible(info, px, py) && (px, py) != (x, y) implies #[trigger] pixel_at(
        after,
        info,
        px,
        py,
    ) == pixel_at(before, info, px, py) by {
        lemma_pixel_start_bounds(info, px, py);
        lemma_pixel_ranges_disjoint(info, x, y, px, py);
        assert(pixel_at(after, info, px, py) =~= pixel_at(before, info, px, py));
    }
    assert forall|i: int|
        0 <= i < before.len() && !visible_byte(info, i) implies after[i] == before[i] by {
        if pixel_start(info, x, y) <= i < pixel_start(info, x, y) + info.bytes_per_pixel {
            assert(visible_byte(info, i));
        }
    }
}

/// What `pixel_written` preserves, spelled for the painting loops: pixels
/// other than the one painted keep their bytes, and padding stays.
proof fn lemma_pixel_written_frame(
    before: Seq<u8>,
    after: Seq<u8>,
    info: FramebufferInfo,
    x: int,
    y: int,
    color: Color,
)
    requires
        info.wf(),
        before.len() == info.buffer_len(),
        visible(info, x, y),
        pixel_written(before, after, info, x, y, color),
    ensures
        after.len() == before.len(),
        pixel_at(after, info, x, y) == packed_color(info, color),
        forall|px: int, py: int|
            #![trigger pixel_at(after, info, px, py)]
            visible(info, px, py) && (px != x || py != y) ==> pixel_at(after, info, px, py)
                == pixel_at(before, info, px, py),
        forall|i: int| 0 <= i < before.len() && !visible_byte(info, i) ==> after[i] == before[i],
{
    assert forall|px: int, py: int|
        visible(info, px, py) && (px != x || py != y) implies #[trigger] pixel_at(
        after,
        info,
        px,
        py,
    ) == pixel_at(before, info, px, py) by {
        assert((px, py) != (x, y));
    }
}

/// After `clear(c)` and then `set_pixel(x, y, c2)`, the pixel at `(x, y)`
/// reads back `c2` and every other visible pixel still reads `c`.
pub proof fn lemma_pixel_round_trip(
    buf0: Seq<u8>,
    buf1: Seq<u8>,
    buf2: Seq<u8>,
    info: FramebufferInfo,
    c: Color,
    c2: Color,
    x: int,
    y: int,
)
    requires
        info.wf(),
        buf0.len() == info.buffer_len(),
        buf1.len() == buf0.len(),
        visible(info, x, y),
        // what `clear(c)` guarantees of `buf1` relative to `buf0`
        forall|px: int, py: int|
            #![trigger pixel_at(buf1, info, px, py)]
            visible(info, px, py) ==> pixel_at(buf1, info, px, py) == packed_color(info, c),
        // what `set_pixel(x, y, c2)` guarantees of `buf2` relative to `buf1`
        pixel_written(buf1, buf2, info, x, y, c2),
    ensures
        pixel_at(buf2, info, x, y) == packed_color(info, c2),
        forall|px: int, py: int|
            #![trigger pixel_at(buf2, info, px, py)]
            visible(info, px, py) && (px, py) != (x, y) ==> pixel_at(buf2, info, px, py)
                == packed_color(info, c),
{
}

} // verus!
