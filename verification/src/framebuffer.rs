//! The pixel surface: a fixed-size buffer of packed RGB colours with a
//! background colour and a current draw colour.

use vstd::prelude::*;
use image::DynamicImage;
use crate::shading::{blue, channels, green, pack, pack_rgb, red};
use crate::textures::{
    height_of,
    image_height,
    image_pixel,
    image_width,
    pixel_of,
    rgba8_copy,
    rgba8_pixel,
    width_of,
};

verus! {

/// White, the colour a new surface draws with.
pub const WHITE: u32 = 0xFFFFFF;

/// The digit that a character shows, if it is one of `0` to `9`.
pub open spec fn digit_of(ch: char) -> Option<int> {
    if 48 <= ch as u32 <= 57 {
        Some(ch as u32 - 48)
    } else {
        None
    }
}

/// The 5x5 bitmaps of the digits 0 to 9: five rows of five bits each, top
/// row first, the leftmost pixel of a row in its highest bit.
pub const GLYPHS: [u32; 10] = [
    0b01110_10001_10001_10001_01110,
    0b00100_01100_00100_00100_01110,
    0b01110_10001_00110_01000_11111,
    0b11110_00101_01110_00101_11110,
    0b00100_01100_10100_11111_00100,
    0b11111_10000_11110_00001_11110,
    0b01110_10000_11110_10001_01110,
    0b11111_00001_00010_00100_01000,
    0b01110_10001_01110_10001_01110,
    0b01110_10001_01111_00001_01110,
];

/// The 5x5 bitmap of a digit.
pub open spec fn glyph(digit: int) -> u32 {
    GLYPHS[digit]
}

/// Whether the bitmap has the pixel in column `col` of row `row` set.
pub open spec fn glyph_bit(bitmap: u32, row: int, col: int) -> bool {
    (bitmap >> ((24 - (5 * row + col)) as u32)) & 1 == 1
}

/// Whether drawing `ch` paints the pixel `col` to the right of and `row`
/// below the place it is drawn at. Only digits paint anything.
pub open spec fn glyph_covers(ch: char, col: int, row: int) -> bool {
    &&& digit_of(ch).is_some()
    &&& 0 <= col < 5
    &&& 0 <= row < 5
    &&& glyph_bit(glyph(digit_of(ch).unwrap()), row, col)
}

/// Whether drawing the first `n` characters of `text`, six pixels apart,
/// paints the pixel `dx` to the right of and `dy` below the place the text
/// is drawn at.
pub open spec fn text_covers(text: Seq<char>, n: int, dx: int, dy: int) -> bool {
    0 <= dx && dx / 6 < n && glyph_covers(text[dx / 6], dx % 6, dy)
}

/// The bitmap of the digit that `ch` shows.
fn glyph_for(ch: char) -> (bitmap: Option<u32>)
    ensures
        bitmap.is_some() == digit_of(ch).is_some(),
        bitmap.is_some() ==> bitmap.unwrap() == glyph(digit_of(ch).unwrap()),
{
    let c: u32 = ch as u32;
    if c < 48 || c > 57 {
        None
    } else {
        Some(GLYPHS[(c - 48) as usize])
    }
}

/// One channel of an image pixel laid over a background: the image's
/// share is `alpha / 255`, the background's the rest.
pub open spec fn mix(under: int, over: int, alpha: int) -> int {
    (over * alpha + under * (255 - alpha)) / 255
}

/// The colour of a surface pixel that showed `under` after an image pixel
/// of red, green, blue and alpha is laid over it. A pixel with alpha 0
/// changes nothing.
pub open spec fn blend_over(under: u32, texel: (u8, u8, u8, u8)) -> u32 {
    if texel.3 == 0 {
        under
    } else {
        pack_rgb(
            mix(red(under) as int, texel.0 as int, texel.3 as int) as u32,
            mix(green(under) as int, texel.1 as int, texel.3 as int) as u32,
            mix(blue(under) as int, texel.2 as int, texel.3 as int) as u32,
        )
    }
}

/// One channel of an image pixel laid over a background.
fn mix_channel(under: u32, over: u8, alpha: u8) -> (mixed: u32)
    requires
        under <= 255,
    ensures
        mixed == mix(under as int, over as int, alpha as int),
        mixed <= 255,
{
    assert(0 <= over * alpha <= 255 * alpha && 0 <= under * (255 - alpha) <= 255 * (255 - alpha))
        by (nonlinear_arith)
        requires 0 <= over <= 255, 0 <= alpha <= 255, 0 <= under <= 255;
    (over as u32 * alpha as u32 + under * (255 - alpha as u32)) / 255
}

/// The colour of a surface pixel that showed `under` after an image pixel
/// is laid over it.
pub fn blend_pixel(under: u32, texel: (u8, u8, u8, u8)) -> (color: u32)
    ensures
        color == blend_over(under, texel),
{
    if texel.3 == 0 {
        under
    } else {
        let (ur, ug, ub) = channels(under);
        pack(
            mix_channel(ur, texel.0, texel.3),
            mix_channel(ug, texel.1, texel.3),
            mix_channel(ub, texel.2, texel.3),
        )
    }
}

/// A surface of `width` by `height` pixels.
pub struct Framebuffer {
    pub width: usize,
    pub height: usize,
    /// The colours of the pixels, row after row from the top, each row
    /// from the left.
    pub buffer: Vec<u32>,
    /// The colour that `clear` paints.
    pub background_color: u32,
    /// The colour that `point` and the drawing of digits paint.
    pub current_color: u32,
}

impl Framebuffer {
    /// The buffer holds exactly one colour per pixel, row after row.
    pub open spec fn wf(&self) -> bool {
        self.buffer@.len() == self.width * self.height
    }

    /// Whether `(x, y)` names a pixel of the surface.
    pub open spec fn contains(&self, x: int, y: int) -> bool {
        0 <= x < self.width && 0 <= y < self.height
    }

    /// The colour of the pixel in column `x` of row `y`.
    pub open spec fn pixel(&self, x: int, y: int) -> u32 {
        self.buffer@[y * self.width + x]
    }

    /// Same size, same background and draw colour.
    pub open spec fn same_frame(&self, other: &Framebuffer) -> bool {
        &&& self.width == other.width
        &&& self.height == other.height
        &&& self.background_color == other.background_color
        &&& self.current_color == other.current_color
    }

    /// Every pixel has a place in the buffer, from which its row and its
    /// column can be told.
    pub proof fn lemma_pixel_index(&self, x: int, y: int)
        requires
            self.wf(),
            self.contains(x, y),
        ensures
            0 <= y * self.width <= y * self.width + x < self.buffer@.len(),
            (y * self.width + x) / (self.width as int) == y,
            (y * self.width + x) % (self.width as int) == x,
    {
        let w = self.width as int;
        let h = self.height as int;
        assert(0 <= y * w) by (nonlinear_arith)
            requires 0 <= y, 0 <= w;
        assert(y * w + x < w * h) by (nonlinear_arith)
            requires 0 <= x < w, 0 <= y < h;
        assert((y * w + x) / w == y && (y * w + x) % w == x) by (nonlinear_arith)
            requires 0 <= x < w, 0 <= y;
    }

    /// A black surface that draws in white on a black background.
    pub fn new(width: usize, height: usize) -> (fb: Framebuffer)
        requires
            width * height <= usize::MAX,
        ensures
            fb.wf(),
            fb.width == width,
            fb.height == height,
            fb.background_color == 0,
            fb.current_color == WHITE,
            forall|i: int| 0 <= i < fb.buffer@.len() ==> fb.buffer@[i] == 0,
    {
        let len: usize = width * height;
        let mut buffer: Vec<u32> = Vec::new();
        let mut i: usize = 0;
        while i < len
            invariant
                i <= len,
                buffer@.len() == i,
                forall|j: int| 0 <= j < i ==> buffer@[j] == 0,
            decreases len - i,
        {
            buffer.push(0);
            i += 1;
        }
        Framebuffer { width, height, buffer, background_color: 0, current_color: WHITE }
    }

    /// Paints every pixel in the background colour.
    pub fn clear(&mut self)
        ensures
            final(self).same_frame(old(self)),
            final(self).buffer@.len() == old(self).buffer@.len(),
            forall|i: int| 0 <= i < final(self).buffer@.len() ==> final(self).buffer@[i] == old(self).background_color,
    {
        let n: usize = self.buffer.len();
        let mut i: usize = 0;
        while i < n
            invariant
                i <= n,
                n == self.buffer@.len(),
                self.same_frame(old(self)),
                forall|j: int| 0 <= j < i ==> self.buffer@[j] == self.background_color,
            decreases n - i,
        {
            self.buffer[i] = self.background_color;
            i += 1;
        }
    }

    /// Paints the pixel `(x, y)` in the current colour, or nothing where
    /// the surface has no such pixel.
    pub fn point(&mut self, x: usize, y: usize)
        requires
            old(self).wf(),
        ensures
            final(self).wf(),
            final(self).same_frame(old(self)),
            old(self).contains(x as int, y as int) ==> final(self).buffer@ == old(self).buffer@.update(
                y * old(self).width + x,
                old(self).current_color,
            ),
            !old(self).contains(x as int, y as int) ==> final(self).buffer@ == old(self).buffer@,
            forall|px: int, py: int| #![trigger final(self).pixel(px, py)]
                old(self).contains(px, py) ==> final(self).pixel(px, py) == if px == x && py == y {
                    old(self).current_color
                } else {
                    old(self).pixel(px, py)
                },
    {
        if x < self.width && y < self.height {
            let len: usize = self.buffer.len();
            proof {
                self.lemma_pixel_index(x as int, y as int);
            }
            let idx: usize = y * self.width + x;
            self.buffer[idx] = self.current_color;
            proof {
                assert forall|px: int, py: int| old(self).contains(px, py) implies (
                #[trigger] self.pixel(px, py)) == if px == x && py == y {
                    old(self).current_color
                } else {
                    old(self).pixel(px, py)
                } by {
                    old(self).lemma_pixel_index(px, py);
                    old(self).lemma_pixel_index(x as int, y as int);
                }
            }
        }
    }

    /// Sets the colour that `clear` paints.
    pub fn set_background_color(&mut self, color: u32)
        ensures
            final(self).background_color == color,
            final(self).current_color == old(self).current_color,
            final(self).width == old(self).width,
            final(self).height == old(self).height,
            final(self).buffer@ == old(self).buffer@,
            forall|px: int, py: int| #![trigger final(self).pixel(px, py)]
                final(self).pixel(px, py) == old(self).pixel(px, py),
    {
        self.background_color = color;
    }

    /// Sets the colour that `point` and the drawing of digits paint.
    pub fn set_current_color(&mut self, color: u32)
        ensures
            final(self).current_color == color,
            final(self).background_color == old(self).background_color,
            final(self).width == old(self).width,
            final(self).height == old(self).height,
            final(self).buffer@ == old(self).buffer@,
            forall|px: int, py: int| #![trigger final(self).pixel(px, py)]
                final(self).pixel(px, py) == old(self).pixel(px, py),
    {
        self.current_color = color;
    }

    /// Paints one pixel of the surface in the given colour.
    pub fn put(&mut self, x: usize, y: usize, color: u32)
        requires
            old(self).wf(),
            old(self).contains(x as int, y as int),
        ensures
            final(self).wf(),
            final(self).same_frame(old(self)),
            forall|px: int, py: int| #![trigger final(self).pixel(px, py)]
                old(self).contains(px, py) ==> final(self).pixel(px, py) == if px == x && py == y {
                    color
                } else {
                    old(self).pixel(px, py)
                },
    {
        let len: usize = self.buffer.len();
        proof {
            self.lemma_pixel_index(x as int, y as int);
        }
        let idx: usize = y * self.width + x;
        self.buffer[idx] = color;
        proof {
            assert forall|px: int, py: int| old(self).contains(px, py) implies (#[trigger] self.pixel(
                px,
                py,
            )) == if px == x && py == y {
                color
            } else {
                old(self).pixel(px, py)
            } by {
                old(self).lemma_pixel_index(px, py);
                old(self).lemma_pixel_index(x as int, y as int);
            }
        }
    }

    /// Paints the rows from `from` up to, not including, `to` in one colour.
    pub fn fill_rows(&mut self, from: usize, to: usize, color: u32)
        requires
            old(self).wf(),
            from <= to <= old(self).height,
        ensures
            final(self).wf(),
            final(self).same_frame(old(self)),
            forall|px: int, py: int| #![trigger final(self).pixel(px, py)]
                old(self).contains(px, py) ==> final(self).pixel(px, py) == if from <= py < to {
                    color
                } else {
                    old(self).pixel(px, py)
                },
    {
        let mut y: usize = from;
        while y < to
            invariant
                from <= y <= to <= self.height,
                self.wf(),
                self.same_frame(old(self)),
                forall|px: int, py: int| #![trigger self.pixel(px, py)]
                    old(self).contains(px, py) ==> self.pixel(px, py) == if from <= py < y {
                        color
                    } else {
                        old(self).pixel(px, py)
                    },
            decreases to - y,
        {
            let mut x: usize = 0;
            while x < self.width
                invariant
                    from <= y < to <= self.height,
                    x <= self.width,
                    self.wf(),
                    self.same_frame(old(self)),
                    forall|px: int, py: int| #![trigger self.pixel(px, py)]
                        old(self).contains(px, py) ==> self.pixel(px, py) == if from <= py < y || (py
                            == y && px < x) {
                            color
                        } else {
                            old(self).pixel(px, py)
                        },
                decreases self.width - x,
            {
                self.put(x, y, color);
                x += 1;
            }
            y += 1;
        }
    }

    /// Paints the upper half of the surface in `ceiling_color` and the rest
    /// in `floor_color`.
    pub fn draw_floor_and_ceiling(&mut self, ceiling_color: u32, floor_color: u32)
        requires
            old(self).wf(),
        ensures
            final(self).wf(),
            final(self).same_frame(old(self)),
            forall|px: int, py: int| #![trigger final(self).pixel(px, py)]
                old(self).contains(px, py) ==> final(self).pixel(px, py) == if py < old(self).height
                    / 2 {
                    ceiling_color
                } else {
                    floor_color
                },
    {
        let half: usize = self.height / 2;
        let height: usize = self.height;
        self.fill_rows(0, half, ceiling_color);
        self.fill_rows(half, height, floor_color);
    }

    /// Draws the digit `ch` in the current colour with its top left corner
    /// at `(x, y)`. Any other character draws nothing.
    pub fn draw_char(&mut self, x: usize, y: usize, ch: char)
        requires
            old(self).wf(),
        ensures
            final(self).wf(),
            final(self).same_frame(old(self)),
            forall|px: int, py: int| #![trigger final(self).pixel(px, py)]
                old(self).contains(px, py) ==> final(self).pixel(px, py) == if glyph_covers(
                    ch,
                    px - x,
                    py - y,
                ) {
                    old(self).current_color
                } else {
                    old(self).pixel(px, py)
                },
    {
        let bitmap: u32 = match glyph_for(ch) {
            None => {
                return ;
            },
            Some(b) => b,
        };
        let mut row: usize = 0;
        while row < 5
            invariant
                row <= 5,
                digit_of(ch).is_some(),
                bitmap == glyph(digit_of(ch).unwrap()),
                self.wf(),
                self.same_frame(old(self)),
                forall|px: int, py: int| #![trigger self.pixel(px, py)]
                    old(self).contains(px, py) ==> self.pixel(px, py) == if glyph_covers(
                        ch,
                        px - x,
                        py - y,
                    ) && py - y < row {
                        old(self).current_color
                    } else {
                        old(self).pixel(px, py)
                    },
            decreases 5 - row,
        {
            let mut col: usize = 0;
            while col < 5
                invariant
                    row < 5,
                    col <= 5,
                    digit_of(ch).is_some(),
                    bitmap == glyph(digit_of(ch).unwrap()),
                    self.wf(),
                    self.same_frame(old(self)),
                    forall|px: int, py: int| #![trigger self.pixel(px, py)]
                        old(self).contains(px, py) ==> self.pixel(px, py) == if glyph_covers(
                            ch,
                            px - x,
                            py - y,
                        ) && (py - y < row || (py - y == row && px - x < col)) {
                            old(self).current_color
                        } else {
                            old(self).pixel(px, py)
                        },
                decreases 5 - col,
            {
                let shift: u32 = (24 - (5 * row + col)) as u32;
                let set: bool = (bitmap >> shift) & 1 == 1;
                assert(set == glyph_bit(bitmap, row as int, col as int));
                if set && x <= usize::MAX - col && y <= usize::MAX - row {
                    self.point(x + col, y + row);
                }
                col += 1;
            }
            row += 1;
        }
    }

    /// Draws the digits among `glyphs` in the current colour, six pixels
    /// apart, the first with its top left corner at `(x, y)`. Characters
    /// that are not digits leave a gap.
    pub fn draw_glyphs(&mut self, x: usize, y: usize, glyphs: &Vec<char>)
        requires
            old(self).wf(),
        ensures
            final(self).wf(),
            final(self).same_frame(old(self)),
            forall|px: int, py: int| #![trigger final(self).pixel(px, py)]
                old(self).contains(px, py) ==> final(self).pixel(px, py) == if text_covers(
                    glyphs@,
                    glyphs@.len() as int,
                    px - x,
                    py - y,
                ) {
                    old(self).current_color
                } else {
                    old(self).pixel(px, py)
                },
    {
        let n: usize = glyphs.len();
        let mut i: usize = 0;
        while i < n
            invariant
                i <= n,
                n == glyphs@.len(),
                self.wf(),
                self.same_frame(old(self)),
                forall|px: int, py: int| #![trigger self.pixel(px, py)]
                    old(self).contains(px, py) ==> self.pixel(px, py) == if text_covers(
                        glyphs@,
                        i as int,
                        px - x,
                        py - y,
                    ) {
                        old(self).current_color
                    } else {
                        old(self).pixel(px, py)
                    },
            decreases n - i,
        {
            let ch: char = glyphs[i];
            let ghost before = *self;
            if i <= (usize::MAX - x) / 6 {
                self.draw_char(x + i * 6, y, ch);
            }
            proof {
                assert forall|px: int, py: int| old(self).contains(px, py) implies (
                #[trigger] self.pixel(px, py)) == if text_covers(glyphs@, i + 1, px - x, py - y) {
                    old(self).current_color
                } else {
                    old(self).pixel(px, py)
                } by {
                    let dx = px - x;
                    assert(before.pixel(px, py) == if text_covers(glyphs@, i as int, dx, py - y) {
                        old(self).current_color
                    } else {
                        old(self).pixel(px, py)
                    });
                    // The character drawn now covers the pixel exactly when the
                    // pixel lies in its six-pixel slot and on its bitmap.
                    assert((0 <= dx && dx / 6 == i && glyph_covers(ch, dx % 6, py - y))
                        == glyph_covers(ch, dx - i * 6, py - y));
                }
            }
            i += 1;
        }
    }

    /// Draws the digits of `text` in the current colour, six pixels apart,
    /// the first with its top left corner at `(x, y)`. Characters that are
    /// not digits leave a gap.
    pub fn draw_text(&mut self, x: usize, y: usize, text: &str)
        requires
            old(self).wf(),
        ensures
            final(self).wf(),
            final(self).same_frame(old(self)),
            forall|px: int, py: int| #![trigger final(self).pixel(px, py)]
                old(self).contains(px, py) ==> final(self).pixel(px, py) == if text_covers(
                    text@,
                    text@.len() as int,
                    px - x,
                    py - y,
                ) {
                    old(self).current_color
                } else {
                    old(self).pixel(px, py)
                },
    {
        let mut glyphs: Vec<char> = Vec::new();
        for ch in it: text.chars()
            invariant
                glyphs@ == it.seq().take(it.index() as int),
                it.seq() == text@,
        {
            glyphs.push(ch);
        }
        assert(glyphs@ == text@);
        self.draw_glyphs(x, y, &glyphs);
    }

    /// Lays an image, read as RGBA of 8 bits, over the surface with its top
    /// left corner at `(x_offset, y_offset)`, each pixel by its alpha; what
    /// falls outside the surface is dropped.
    pub fn draw_image(&mut self, img: &DynamicImage, x_offset: usize, y_offset: usize)
        requires
            old(self).wf(),
        ensures
            final(self).wf(),
            final(self).same_frame(old(self)),
            forall|px: int, py: int| #![trigger final(self).pixel(px, py)]
                old(self).contains(px, py) ==> final(self).pixel(px, py) == if x_offset <= px
                    < x_offset + image_width(*img) && y_offset <= py < y_offset + image_height(*img) {
                    blend_over(
                        old(self).pixel(px, py),
                        rgba8_pixel(*img, (px - x_offset) as u32, (py - y_offset) as u32),
                    )
                } else {
                    old(self).pixel(px, py)
                },
    {
        let img_width: u32 = width_of(img);
        let img_height: u32 = height_of(img);
        if x_offset >= self.width || y_offset >= self.height {
            return ;
        }
        let rgba: DynamicImage = rgba8_copy(img);
        let columns: u32 = if img_width as usize <= self.width - x_offset {
            img_width
        } else {
            (self.width - x_offset) as u32
        };
        let rows: u32 = if img_height as usize <= self.height - y_offset {
            img_height
        } else {
            (self.height - y_offset) as u32
        };
        let mut y: u32 = 0;
        while y < rows
            invariant
                y <= rows <= img_height,
                columns <= img_width,
                img_width == image_width(*img),
                img_height == image_height(*img),
                img_width == image_width(rgba),
                img_height == image_height(rgba),
                forall|x: u32, y: u32|
                    x < img_width && y < img_height ==> #[trigger] image_pixel(
                        rgba,
                        x,
                        y,
                    ) == rgba8_pixel(*img, x, y),
                x_offset + columns <= self.width,
                y_offset + rows <= self.height,
                columns == img_width || x_offset + columns == self.width,
                rows == img_height || y_offset + rows == self.height,
                self.wf(),
                self.same_frame(old(self)),
                forall|px: int, py: int| #![trigger self.pixel(px, py)]
                    old(self).contains(px, py) ==> self.pixel(px, py) == if x_offset <= px < x_offset
                        + img_width && y_offset <= py < y_offset + y {
                        blend_over(
                            old(self).pixel(px, py),
                            rgba8_pixel(*img, (px - x_offset) as u32, (py - y_offset) as u32),
                        )
                    } else {
                        old(self).pixel(px, py)
                    },
            decreases rows - y,
        {
            let mut x: u32 = 0;
            while x < columns
                invariant
                    y < rows <= img_height,
                    x <= columns <= img_width,
                    img_width == image_width(*img),
                    img_height == image_height(*img),
                    img_width == image_width(rgba),
                    img_height == image_height(rgba),
                    forall|x: u32, y: u32|
                        x < img_width && y < img_height ==> #[trigger] image_pixel(
                            rgba,
                            x,
                            y,
                        ) == rgba8_pixel(*img, x, y),
                    x_offset + columns <= self.width,
                    y_offset + rows <= self.height,
                    columns == img_width || x_offset + columns == self.width,
                    self.wf(),
                    self.same_frame(old(self)),
                    forall|px: int, py: int| #![trigger self.pixel(px, py)]
                        old(self).contains(px, py) ==> self.pixel(px, py) == if (x_offset <= px
                            < x_offset + img_width && y_offset <= py < y_offset + y) || (py
                            == y_offset + y && x_offset <= px < x_offset + x) {
                            blend_over(
                                old(self).pixel(px, py),
                                rgba8_pixel(*img, (px - x_offset) as u32, (py - y_offset) as u32),
                            )
                        } else {
                            old(self).pixel(px, py)
                        },
                decreases columns - x,
            {
                let texel: (u8, u8, u8, u8) = pixel_of(&rgba, x, y);
                let tx: usize = x_offset + x as usize;
                let ty: usize = y_offset + y as usize;
                if texel.3 > 0 {
                    let color: u32 = blend_pixel(self.get(tx, ty), texel);
                    self.put(tx, ty, color);
                }
                x += 1;
            }
            y += 1;
        }
    }

    /// The colour of one pixel of the surface.
    pub fn get(&self, x: usize, y: usize) -> (color: u32)
        requires
            self.wf(),
            self.contains(x as int, y as int),
        ensures
            color == self.pixel(x as int, y as int),
    {
        let len: usize = self.buffer.len();
        proof {
            self.lemma_pixel_index(x as int, y as int);
        }
        self.buffer[y * self.width + x]
    }
}

} // verus!
