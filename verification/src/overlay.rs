//! The sparse raster layer: per-pixel optional colour, a uniform opacity and
//! an optional blend-mode tag.

use vstd::prelude::*;
use crate::canvas::Canvas;
use crate::canvas::canvas_dimensions;
use crate::canvas::canvas_get;
use crate::canvas::canvas_new;
use crate::canvas::rgb;
use crate::compose::Alter;
use crate::compose::SCALE_ONE;
use crate::compose::lemma_unit_scale;

verus! {

/// How a source footprint becomes one destination colour where the target
/// footprint differs in size from the source.
#[derive(Clone, Copy, Debug, PartialEq, Eq, Structural)]
pub enum BlendType {
    Linear,
    Log,
    Cubic,
}

/// The opacity of a fully opaque overlay: opacities are millionths.
pub const OPACITY_FULL: u32 = 1_000_000;

/// The error value of a pixel write outside the overlay.
pub const OUT_OF_BOUNDS: i8 = -1;

/// A sparse raster buffer. `pixels` is row-major; an entry is `None` where the
/// overlay is transparent.
#[derive(Clone, Debug)]
pub struct Overlay {
    pub pixels: Vec<Option<[u8; 3]>>,
    pub width: usize,
    pub height: usize,
    /// Between 0 and `OPACITY_FULL` inclusive, in millionths.
    pub opacity: u32,
    pub blend: Option<BlendType>,
}

/// `value` clamped to the range of opacities.
pub open spec fn clamp_opacity(value: i64) -> u32 {
    if value < 0 {
        0u32
    } else if value > OPACITY_FULL {
        OPACITY_FULL
    } else {
        value as u32
    }
}

/// Row-major indices are within the buffer and differ for different cells.
pub proof fn lemma_cell_index(width: int, height: int, x: int, y: int)
    requires
        0 <= x < width,
        0 <= y < height,
    ensures
        0 <= y * width + x < width * height,
        (y * width + x) / width == y,
        (y * width + x) % width == x,
        (width * height) / height == width,
        width * y == y * width,
{
    assert(y * width + x < width * height) by (nonlinear_arith)
        requires
            0 <= x < width,
            0 <= y < height,
    {
        assert((y + 1) * width <= height * width);
    }
    assert(0 <= y * width) by (nonlinear_arith)
        requires
            0 <= y,
            0 <= width,
    ;
    vstd::arithmetic::div_mod::lemma_fundamental_div_mod_converse(y * width + x, width, y, x);
    vstd::arithmetic::div_mod::lemma_div_multiples_vanish(width, height);
    assert(width * height == height * width) by (nonlinear_arith);
    assert(width * y == y * width) by (nonlinear_arith);
}

/// In row-major order, a cell of an earlier row, or an earlier cell of the
/// same row, has a smaller index.
pub proof fn lemma_row_major_order(width: int, a: int, b: int, x: int, y: int)
    requires
        0 <= a < width,
        0 <= x <= width,
        0 <= b,
        b < y || (b == y && a < x),
    ensures
        0 <= b * width + a < y * width + x,
{
    assert(0 <= b * width) by (nonlinear_arith)
        requires
            0 <= b,
            0 <= width,
    ;
    if b < y {
        assert((b + 1) * width <= y * width) by (nonlinear_arith)
            requires
                b + 1 <= y,
                0 <= width,
        ;
        assert((b + 1) * width == b * width + width) by (nonlinear_arith);
    }
}

/// Writing a cell and then reading it gives the colour written, and every
/// other cell reads as before.
pub proof fn lemma_write_then_read(before: Overlay, after: Overlay, x: int, y: int, color: [u8; 3])
    requires
        before.wf(),
        before.in_bounds(x, y),
        after.width == before.width,
        after.height == before.height,
        after.pixels@ == before.pixels@.update(y * before.width + x, Some(color)),
    ensures
        after.cell(x, y) == Some(color),
        forall|a: int, b: int|
            before.in_bounds(a, b) && (a, b) != (x, y) ==> #[trigger] after.cell(a, b)
                == before.cell(a, b),
{
    let w = before.width as int;
    let h = before.height as int;
    lemma_cell_index(w, h, x, y);
    assert forall|a: int, b: int| before.in_bounds(a, b) && (a, b) != (x, y) implies #[trigger]
        after.cell(a, b) == before.cell(a, b) by {
        lemma_cell_index(w, h, a, b);
    }
}

/// The colour of every pixel of `image`, row by row, none absent.
fn dense_pixels(image: &Canvas) -> (result: Vec<Option<[u8; 3]>>)
    ensures
        image.wf(),
        result@.len() == image.size().0 * image.size().1,
        forall|x: int, y: int|
            image.has(x, y) ==> result@[y * image.size().0 + x] == Some(
                #[trigger] image.cells()[(x, y)],
            ),
{
    let (width, height) = canvas_dimensions(image);
    let mut pixels: Vec<Option<[u8; 3]>> = Vec::new();
    let mut y: u32 = 0;
    while y < height
        invariant
            image.wf(),
            image.size() == (width as nat, height as nat),
            y <= height,
            pixels@.len() == y * width,
            forall|a: int, b: int|
                0 <= a < width && 0 <= b < y ==> pixels@[b * width + a] == Some(
                    #[trigger] image.cells()[(a, b)],
                ),
        decreases height - y,
    {
        let mut x: u32 = 0;
        while x < width
            invariant
                image.wf(),
                image.size() == (width as nat, height as nat),
                y < height,
                x <= width,
                pixels@.len() == y * width + x,
                forall|a: int, b: int|
                    0 <= a < width && (0 <= b < y || (b == y && a < x)) ==> pixels@[b * width + a]
                        == Some(#[trigger] image.cells()[(a, b)]),
            decreases width - x,
        {
            let ghost earlier = pixels@;
            pixels.push(Some(canvas_get(image, x, y)));
            proof {
                assert forall|a: int, b: int|
                    0 <= a < width && (0 <= b < y || (b == y && a < x + 1)) implies pixels@[b
                    * width + a] == Some(#[trigger] image.cells()[(a, b)]) by {
                    if b < y || a < x {
                        lemma_row_major_order(width as int, a, b, x as int, y as int);
                        assert(pixels@[b * width + a] == earlier[b * width + a]);
                    }
                }
            }
            x += 1;
        }
        proof {
            assert((y + 1) * width == y * width + width) by (nonlinear_arith);
        }
        y += 1;
    }
    proof {
        assert(height * width == width * height) by (nonlinear_arith);
    }
    pixels
}

impl Overlay {
    /// The buffer holds exactly one entry per cell and the opacity is in range.
    pub open spec fn wf(&self) -> bool {
        &&& self.pixels@.len() == self.width * self.height
        &&& self.opacity <= OPACITY_FULL
    }

    /// Whether `(x, y)` is a cell of the overlay.
    pub open spec fn in_bounds(&self, x: int, y: int) -> bool {
        0 <= x < self.width && 0 <= y < self.height
    }

    /// The entry of cell `(x, y)`.
    pub open spec fn cell(&self, x: int, y: int) -> Option<[u8; 3]> {
        self.pixels@[y * self.width + x]
    }

    /// An overlay of the given dimensions with every cell absent, at full
    /// opacity and without a blend tag.
    pub fn new(width: usize, height: usize) -> (result: Overlay)
        requires
            width * height <= usize::MAX,
        ensures
            result.wf(),
            result.width == width,
            result.height == height,
            result.opacity == OPACITY_FULL,
            result.blend is None,
            forall|i: int| 0 <= i < result.pixels@.len() ==> result.pixels@[i] is None,
    {
        let count: usize = width * height;
        let mut data: Vec<Option<[u8; 3]>> = Vec::with_capacity(count);
        let mut i: usize = 0;
        while i < count
            invariant
                i <= count,
                data@.len() == i,
                forall|k: int| 0 <= k < i ==> data@[k] is None,
            decreases count - i,
        {
            data.push(None);
            i += 1;
        }
        Overlay { pixels: data, width, height, opacity: OPACITY_FULL, blend: None }
    }

    /// The entry of cell `(x, y)`, which must be a cell of the overlay.
    pub fn get_pixel(&self, x: usize, y: usize) -> (result: Option<[u8; 3]>)
        requires
            self.wf(),
            self.in_bounds(x as int, y as int),
        ensures
            result == self.cell(x as int, y as int),
    {
        let len: usize = self.pixels.len();
        proof {
            lemma_cell_index(self.width as int, self.height as int, x as int, y as int);
        }
        self.pixels[((len / self.height) * y) + x]
    }

    /// Stores `rgb` in cell `(x, y)`, or fails without any change where
    /// `(x, y)` is no cell of the overlay.
    pub fn set_pixel(&mut self, x: usize, y: usize, rgb: &[u8; 3]) -> (result: Result<(), i8>)
        requires
            old(self).wf(),
        ensures
            final(self).wf(),
            final(self).width == old(self).width,
            final(self).height == old(self).height,
            final(self).opacity == old(self).opacity,
            final(self).blend == old(self).blend,
            result is Ok <==> old(self).in_bounds(x as int, y as int),
            result is Ok ==> final(self).pixels@ == old(self).pixels@.update(
                y * old(self).width + x,
                Some(*rgb),
            ),
            result is Ok ==> final(self).cell(x as int, y as int) == Some(*rgb),
            result is Ok ==> forall|a: int, b: int|
                old(self).in_bounds(a, b) && (a, b) != (x as int, y as int) ==> #[trigger] final(self).cell(a, b) == old(self).cell(a, b),
            result is Err ==> result == Err::<(), i8>(OUT_OF_BOUNDS) && final(self).pixels@ == old(self).pixels@,
    {
        let len: usize = self.pixels.len();
        if x < self.width && y < self.height {
            proof {
                lemma_cell_index(self.width as int, self.height as int, x as int, y as int);
            }
            let index: usize = ((len / self.height) * y) + x;
            self.pixels.set(index, Some(*rgb));
            proof {
                lemma_write_then_read(*old(self), *self, x as int, y as int, *rgb);
            }
        } else {
            return Err(OUT_OF_BOUNDS);
        }
        Ok(())
    }

    /// The overlay as a dense raster: each present cell with its colour, each
    /// absent cell black.
    pub fn as_image(&self) -> (result: Canvas)
        requires
            self.wf(),
            self.width <= u32::MAX,
            self.height <= u32::MAX,
            Canvas::fits(self.width as u32, self.height as u32),
        ensures
            result.wf(),
            result.size() == (self.width as nat, self.height as nat),
            forall|x: int, y: int|
                self.in_bounds(x, y) ==> #[trigger] result.cells()[(x, y)] == (match self.cell(
                    x,
                    y,
                ) {
                    Some(color) => color,
                    None => rgb(0, 0, 0),
                }),
    {
        let mut image = canvas_new(self.width as u32, self.height as u32);
        proof {
            lemma_unit_scale(self.width as nat);
            lemma_unit_scale(self.height as nat);
        }
        let ghost blank = image;
        image.overlay(0, 0, SCALE_ONE, SCALE_ONE, self);
        proof {
            assert forall|x: int, y: int| self.in_bounds(x, y) implies #[trigger] image.cells()[(
                x,
                y,
            )] == (match self.cell(x, y) {
                Some(color) => color,
                None => rgb(0, 0, 0),
            }) by {
                assert(blank.has(x, y));
                assert(blank.cells()[(x, y)] == rgb(0, 0, 0));
            }
        }
        image
    }

    /// Replaces the cells, and the dimensions with them, by those of a dense
    /// raster: every pixel is present.
    pub fn is_image(&mut self, image: Canvas)
        ensures
            final(self).width == image.size().0,
            final(self).height == image.size().1,
            final(self).opacity == old(self).opacity,
            final(self).blend == old(self).blend,
            final(self).pixels@.len() == final(self).width * final(self).height,
            old(self).wf() ==> final(self).wf(),
            forall|x: int, y: int|
                image.has(x, y) ==> final(self).cell(x, y) == Some(#[trigger] image.cells()[(x, y)]),
    {
        let (width, height) = canvas_dimensions(&image);
        self.pixels = dense_pixels(&image);
        self.width = width as usize;
        self.height = height as usize;
    }

    /// A fully opaque overlay without a blend tag that holds every pixel of
    /// a dense raster as present.
    pub fn from_rgb_image(image: Canvas) -> (result: Overlay)
        ensures
            result.wf(),
            result.width == image.size().0,
            result.height == image.size().1,
            result.opacity == OPACITY_FULL,
            result.blend is None,
            forall|x: int, y: int|
                image.has(x, y) ==> result.cell(x, y) == Some(#[trigger] image.cells()[(x, y)]),
    {
        let (width, height) = canvas_dimensions(&image);
        let pixels = dense_pixels(&image);
        Overlay {
            pixels,
            width: width as usize,
            height: height as usize,
            opacity: OPACITY_FULL,
            blend: None,
        }
    }

    /// Sets the opacity to `opacity` clamped to the range of opacities, and
    /// hands the overlay back for the next call.
    pub fn set_opacity(&mut self, opacity: i64) -> (result: &mut Self)
        ensures
            *result == (Overlay { opacity: clamp_opacity(opacity), ..*old(self) }),
            result.opacity <= OPACITY_FULL,
            old(self).wf() ==> result.wf(),
            *final(self) == *final(result),
    {
        self.opacity = if opacity < 0 {
            0
        } else if opacity > 1_000_000 {
            OPACITY_FULL
        } else {
            opacity as u32
        };
        self
    }

    /// Tags the overlay with `blend`.
    pub fn set_blend(&mut self, blend: BlendType) -> (result: &mut Self)
        ensures
            *result == (Overlay { blend: Some(blend), ..*old(self) }),
            old(self).wf() ==> result.wf(),
            *final(self) == *final(result),
    {
        self.blend = Some(blend);
        self
    }

    /// Tags the overlay for linear blending.
    pub fn set_linear(&mut self) -> (result: &mut Self)
        ensures
            *result == (Overlay { blend: Some(BlendType::Linear), ..*old(self) }),
            old(self).wf() ==> result.wf(),
            *final(self) == *final(result),
    {
        self.blend = Some(BlendType::Linear);
        self
    }

    /// Tags the overlay for logarithmic blending.
    pub fn set_log(&mut self) -> (result: &mut Self)
        ensures
            *result == (Overlay { blend: Some(BlendType::Log), ..*old(self) }),
            old(self).wf() ==> result.wf(),
            *final(self) == *final(result),
    {
        self.blend = Some(BlendType::Log);
        self
    }

    /// Removes the blend tag.
    pub fn no_blend(&mut self) -> (result: &mut Self)
        ensures
            *result == (Overlay { blend: None, ..*old(self) }),
            old(self).wf() ==> result.wf(),
            *final(self) == *final(result),
    {
        self.blend = None;
        self
    }
}

} // verus!
