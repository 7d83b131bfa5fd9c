//! The picture as it builds up: a square of samples that finished rows are merged into,
//! and its rendition as display bytes.
//!
//! The film does not look inside a sample. How two samples blend and how bright a sample
//! shows on screen are the caller's functions; the film decides where a row goes, whether
//! it is stored or blended, and which bytes of the display a pixel owns.

use vstd::prelude::*;

verus! {

/// Bytes that a pixel takes in the display buffer.
pub const BYTES_PER_PIXEL: usize = 4;

/// Bytes of a pixel that carry its level; the rest is padding.
pub const CHANNELS: usize = 3;

/// Where the byte of channel `channel` of pixel (`x`, `y`) lies in the display buffer of a
/// picture `width` pixels wide.
pub open spec fn byte_offset(width: int, x: int, y: int, channel: int) -> int {
    BYTES_PER_PIXEL * width * y + BYTES_PER_PIXEL * x + channel
}

/// Whether byte `i` of the display buffer is a level byte of row `y`.
pub open spec fn is_level_byte_of_row(width: int, y: int, i: int) -> bool {
    exists|x: int, channel: int|
        0 <= x < width && 0 <= channel < CHANNELS && i == #[trigger] byte_offset(
            width,
            x,
            y,
            channel,
        )
}

proof fn lemma_pixel_index(width: int, x: int, y: int)
    requires
        0 <= x < width,
        0 <= y < width,
    ensures
        0 <= y * width,
        y * width + width <= width * width,
{
    assert(0 <= y * width && y * width + width <= width * width) by (nonlinear_arith)
        requires
            0 <= y < width,
    ;
}

proof fn lemma_row_bytes(width: int, y: int)
    requires
        0 <= width,
        0 <= y,
    ensures
        0 <= BYTES_PER_PIXEL * width * y,
        BYTES_PER_PIXEL * width * (y + 1) == BYTES_PER_PIXEL * width * y + BYTES_PER_PIXEL
            * width,
        BYTES_PER_PIXEL * width * y == BYTES_PER_PIXEL * (width * y),
{
    assert(0 <= 4 * width * y && 4 * width * (y + 1) == 4 * width * y + 4 * width && 4 * width
        * y == 4 * (width * y)) by (nonlinear_arith)
        requires
            0 <= width,
            0 <= y,
    ;
}

/// A square picture of samples of type `T`, row by row.
#[derive(Debug)]
pub struct Film<T> {
    width: usize,
    stored: usize,
    pixels: Vec<T>,
}

impl<T> Film<T> {
    /// The number of pixels in a row, and of rows.
    pub closed spec fn spec_width(&self) -> usize {
        self.width
    }

    /// The number of rows merged so far, counted up to `width`: the first `width` rows
    /// that come in make up the first pass.
    pub closed spec fn spec_stored(&self) -> usize {
        self.stored
    }

    /// The sample at column `x` of row `y`.
    pub closed spec fn pixel(&self, x: int, y: int) -> T {
        self.pixels@[y * self.width + x]
    }

    /// The film holds `width` rows of `width` samples, and has counted no further than
    /// `width`.
    #[verifier::type_invariant]
    pub closed spec fn wf(&self) -> bool {
        &&& self.width * self.width <= usize::MAX
        &&& self.pixels@.len() == self.width * self.width
        &&& self.stored <= self.width
    }

    /// Whether the first pass is still coming in, so that the next row is stored as it is.
    pub open spec fn in_first_pass(&self) -> bool {
        self.spec_stored() < self.spec_width()
    }

    /// The number of pixels in a row, and of rows.
    #[verifier::when_used_as_spec(spec_width)]
    pub fn width(&self) -> (width: usize)
        ensures
            width == self.spec_width(),
    {
        self.width
    }

    /// The number of rows merged so far, counted up to `width`.
    #[verifier::when_used_as_spec(spec_stored)]
    pub fn stored(&self) -> (rows: usize)
        ensures
            rows == self.spec_stored(),
    {
        self.stored
    }
}

impl<T: Copy> Film<T> {
    /// A film of `width` by `width` samples, all `fill`, or `None` where that many samples
    /// cannot be counted.
    pub fn new(width: usize, fill: T) -> (film: Option<Film<T>>)
        ensures
            film is Some <==> width * width <= usize::MAX,
            film matches Some(f) ==> {
                &&& f.wf()
                &&& f.spec_width() == width
                &&& f.spec_stored() == 0
                &&& forall|x: int, y: int|
                    0 <= x < width && 0 <= y < width ==> #[trigger] f.pixel(x, y) == fill
            },
    {
        let count: usize = match width.checked_mul(width) {
            Some(count) => count,
            None => {
                return None;
            },
        };
        let mut pixels: Vec<T> = Vec::new();
        while pixels.len() < count
            invariant
                pixels@.len() <= count,
                forall|i: int| 0 <= i < pixels@.len() ==> pixels@[i] == fill,
            decreases count - pixels@.len(),
        {
            pixels.push(fill);
        }
        let film = Film { width, stored: 0, pixels };
        assert forall|x: int, y: int| 0 <= x < width && 0 <= y < width implies #[trigger] film.pixel(
            x,
            y,
        ) == fill by {
            lemma_pixel_index(width as int, x, y);
        }
        Some(film)
    }

    /// The sample at column `x` of row `y`.
    pub fn get(&self, x: usize, y: usize) -> (sample: T)
        requires
            x < self.spec_width(),
            y < self.spec_width(),
        ensures
            sample == self.pixel(x as int, y as int),
    {
        proof {
            use_type_invariant(self);
            lemma_pixel_index(self.width as int, x as int, y as int);
        }
        self.pixels[y * self.width + x]
    }

    /// Merges a finished row into row `y`. While the first pass is coming in, that is for
    /// the first `width` rows merged, the row is stored as it is; after that each sample
    /// becomes `blend` of the stored sample and the new one. Other rows stay as they are.
    pub fn merge_row<F: Fn(T, T) -> T>(&mut self, y: usize, row: &[T], blend: F)
        requires
            y < old(self).spec_width(),
            row@.len() == old(self).spec_width(),
            !old(self).in_first_pass() ==> forall|x: int|
                0 <= x < old(self).spec_width() ==> call_requires(
                    blend,
                    (#[trigger] old(self).pixel(x, y as int), row@[x]),
                ),
        ensures
            final(self).wf(),
            final(self).spec_width() == old(self).spec_width(),
            final(self).spec_stored() == if old(self).in_first_pass() {
                old(self).spec_stored() + 1
            } else {
                old(self).spec_stored() as int
            },
            forall|x: int, other: int|
                0 <= x < old(self).spec_width() && 0 <= other < old(self).spec_width() && other
                    != y ==> #[trigger] final(self).pixel(x, other) == old(self).pixel(x, other),
            old(self).in_first_pass() ==> forall|x: int|
                0 <= x < old(self).spec_width() ==> #[trigger] final(self).pixel(x, y as int)
                    == row@[x],
            !old(self).in_first_pass() ==> forall|x: int|
                0 <= x < old(self).spec_width() ==> call_ensures(
                    blend,
                    (old(self).pixel(x, y as int), row@[x]),
                    #[trigger] final(self).pixel(x, y as int),
                ),
    {
        let width: usize = self.width;
        let first_pass: bool = self.stored < width;
        proof {
            use_type_invariant(&*self);
            lemma_pixel_index(width as int, 0, y as int);
        }
        let base: usize = y * width;
        proof {
            if !first_pass {
                assert forall|i: int| 0 <= i < width implies call_requires(
                    blend,
                    (#[trigger] self.pixels@[base + i], row@[i]),
                ) by {
                    assert(self.pixel(i, y as int) == self.pixels@[base + i]);
                }
            }
        }
        let mut x: usize = 0;
        while x < width
            invariant
                x <= width,
                self.wf(),
                width == self.width,
                self.width == old(self).width,
                self.stored == old(self).stored,
                self.pixels@.len() == old(self).pixels@.len(),
                self.pixels@.len() == width * width,
                width * width <= usize::MAX,
                base == y * width,
                base + width <= width * width,
                row@.len() == width,
                first_pass == old(self).in_first_pass(),
                !first_pass ==> forall|i: int|
                    0 <= i < width ==> call_requires(
                        blend,
                        (#[trigger] old(self).pixels@[base + i], row@[i]),
                    ),
                forall|i: int|
                    0 <= i < self.pixels@.len() && !(base <= i < base + x) ==> self.pixels@[i]
                        == old(self).pixels@[i],
                first_pass ==> forall|i: int|
                    0 <= i < x ==> #[trigger] self.pixels@[base + i] == row@[i],
                !first_pass ==> forall|i: int|
                    0 <= i < x ==> call_ensures(
                        blend,
                        (old(self).pixels@[base + i], row@[i]),
                        #[trigger] self.pixels@[base + i],
                    ),
            decreases width - x,
        {
            let fresh: T = row[x];
            let sample: T = if first_pass {
                fresh
            } else {
                blend(self.pixels[base + x], fresh)
            };
            self.pixels[base + x] = sample;
            x = x + 1;
        }
        if first_pass {
            self.stored = self.stored + 1;
        }
        proof {
            assert forall|x: int, other: int|
                0 <= x < width && 0 <= other < width && other != y implies #[trigger] self.pixel(
                x,
                other,
            ) == old(self).pixel(x, other) by {
                lemma_pixel_index(width as int, x, other);
                assert(other * width + x < base || other * width + x >= base + width)
                    by (nonlinear_arith)
                    requires
                        0 <= x < width,
                        0 <= other,
                        other != y,
                        base == y * width,
                ;
            }
        }
    }

    /// Writes row `y` to the display buffer: each pixel's level, which is `tone` of its
    /// sample, goes to the pixel's three level bytes. Padding bytes and other rows keep
    /// what they hold.
    pub fn present_row<F: Fn(T) -> u8>(&self, y: usize, colors: &mut [u8], tone: F)
        requires
            y < self.spec_width(),
            old(colors)@.len() >= BYTES_PER_PIXEL * self.spec_width() * (y + 1),
            forall|x: int|
                0 <= x < self.spec_width() ==> call_requires(
                    tone,
                    (#[trigger] self.pixel(x, y as int),),
                ),
        ensures
            final(colors)@.len() == old(colors)@.len(),
            forall|x: int|
                0 <= x < self.spec_width() ==> {
                    let level = #[trigger] final(colors)@[byte_offset(
                        self.spec_width() as int,
                        x,
                        y as int,
                        0,
                    )];
                    &&& call_ensures(tone, (self.pixel(x, y as int),), level)
                    &&& final(colors)@[byte_offset(self.spec_width() as int, x, y as int, 1)]
                        == level
                    &&& final(colors)@[byte_offset(self.spec_width() as int, x, y as int, 2)]
                        == level
                },
            forall|i: int|
                0 <= i < old(colors)@.len() && !is_level_byte_of_row(
                    self.spec_width() as int,
                    y as int,
                    i,
                ) ==> #[trigger] final(colors)@[i] == old(colors)@[i],
    {
        let width: usize = self.width;
        proof {
            use_type_invariant(self);
            lemma_pixel_index(width as int, 0, y as int);
            lemma_row_bytes(width as int, y as int);
            vstd::slice::axiom_spec_len(colors);
        }
        let base: usize = y * width;
        let start: usize = BYTES_PER_PIXEL * base;
        proof {
            assert forall|i: int| 0 <= i < width implies call_requires(
                tone,
                (#[trigger] self.pixels@[base + i],),
            ) by {
                assert(self.pixel(i, y as int) == self.pixels@[base + i]);
            }
        }
        let mut x: usize = 0;
        while x < width
            invariant
                x <= width,
                width == self.width,
                self.wf(),
                y < width,
                base == y * width,
                base + width <= width * width,
                start == BYTES_PER_PIXEL * width * y,
                start + BYTES_PER_PIXEL * width <= colors@.len(),
                colors@.len() == old(colors)@.len(),
                colors@.len() <= usize::MAX,
                forall|i: int|
                    0 <= i < width ==> call_requires(tone, (#[trigger] self.pixels@[base + i],)),
                forall|i: int|
                    0 <= i < x ==> {
                        let level = #[trigger] colors@[byte_offset(width as int, i, y as int, 0)];
                        &&& call_ensures(tone, (self.pixel(i, y as int),), level)
                        &&& colors@[byte_offset(width as int, i, y as int, 1)] == level
                        &&& colors@[byte_offset(width as int, i, y as int, 2)] == level
                    },
                forall|i: int|
                    0 <= i < colors@.len() && !is_level_byte_of_row(width as int, y as int, i)
                        ==> #[trigger] colors@[i] == old(colors)@[i],
            decreases width - x,
        {
            let level: u8 = tone(self.pixels[base + x]);
            let at: usize = start + BYTES_PER_PIXEL * x;
            proof {
                assert(is_level_byte_of_row(width as int, y as int, at as int)) by {
                    assert(at == byte_offset(width as int, x as int, y as int, 0));
                }
                assert(is_level_byte_of_row(width as int, y as int, at + 1)) by {
                    assert(at + 1 == byte_offset(width as int, x as int, y as int, 1));
                }
                assert(is_level_byte_of_row(width as int, y as int, at + 2)) by {
                    assert(at + 2 == byte_offset(width as int, x as int, y as int, 2));
                }
            }
            colors[at] = level;
            colors[at + 1] = level;
            colors[at + 2] = level;
            x = x + 1;
        }
    }
}

} // verus!
