//! The compositor: blits an overlay onto a canvas at an offset and a scale.
//!
//! Scale factors are thousandths. Sampling is nearest-neighbour at equal
//! density: target pixel `(left + ox, top + oy)` takes overlay cell
//! `(ox, oy)`. The overlay's opacity and blend tag do not enter the result.

use vstd::prelude::*;
use crate::canvas::Canvas;
use crate::canvas::on_canvas;
use crate::overlay::Overlay;

verus! {

/// The scale factor that leaves a length as it is.
pub const SCALE_ONE: u32 = 1000;

/// `length` scaled by `scale` thousandths, rounded to the nearest integer
/// (halves upwards).
pub open spec fn footprint(length: nat, scale: u32) -> nat {
    ((length * scale + 500) / 1000) as nat
}

/// The part of the scaled footprint for which the overlay has cells.
pub open spec fn span(length: nat, scale: u32) -> nat {
    if footprint(length, scale) < length {
        footprint(length, scale)
    } else {
        length
    }
}

/// Whether overlay cell `(ox, oy)` is sampled and holds a colour.
pub open spec fn sampled(width: u32, height: u32, overlay: Overlay, ox: int, oy: int) -> bool {
    &&& 0 <= ox < span(overlay.width as nat, width)
    &&& 0 <= oy < span(overlay.height as nat, height)
    &&& overlay.cell(ox, oy) is Some
}

/// The colour of target pixel `(x, y)` after compositing, given its colour
/// before.
pub open spec fn composite_cell(
    before: [u8; 3],
    top: usize,
    left: usize,
    width: u32,
    height: u32,
    overlay: Overlay,
    x: int,
    y: int,
) -> [u8; 3] {
    if sampled(width, height, overlay, x - left, y - top) {
        overlay.cell(x - left, y - top)->Some_0
    } else {
        before
    }
}

/// `after` is `before` with the overlay composited onto it.
pub open spec fn composited(
    before: Canvas,
    after: Canvas,
    top: usize,
    left: usize,
    width: u32,
    height: u32,
    overlay: Overlay,
) -> bool {
    &&& after.wf()
    &&& after.size() == before.size()
    &&& forall|x: int, y: int|
        before.has(x, y) ==> #[trigger] after.cells()[(x, y)] == composite_cell(
            before.cells()[(x, y)],
            top,
            left,
            width,
            height,
            overlay,
            x,
            y,
        )
}

/// Whether overlay cell `(ox, oy)` is sampled and holds a colour, but its
/// target lies outside a canvas of the given size.
pub open spec fn clipped_at(
    size: (nat, nat),
    top: usize,
    left: usize,
    width: u32,
    height: u32,
    overlay: Overlay,
    ox: int,
    oy: int,
) -> bool {
    sampled(width, height, overlay, ox, oy) && !on_canvas(size, left + ox, top + oy)
}

/// Whether any colour of the overlay was kept off a canvas of the given size.
pub open spec fn clips(
    size: (nat, nat),
    top: usize,
    left: usize,
    width: u32,
    height: u32,
    overlay: Overlay,
) -> bool {
    exists|ox: int, oy: int| #[trigger] clipped_at(size, top, left, width, height, overlay, ox, oy)
}

/// Whether a colour was kept off the canvas among the cells that come before
/// `(ox, oy)`, column by column.
pub open spec fn clips_before(
    size: (nat, nat),
    top: usize,
    left: usize,
    width: u32,
    height: u32,
    overlay: Overlay,
    ox: int,
    oy: int,
) -> bool {
    exists|a: int, b: int|
        #[trigger] clipped_at(size, top, left, width, height, overlay, a, b) && (a < ox || (a == ox
            && b < oy))
}

/// Whether `(a, b)` comes before `(ox, oy)`, column by column.
pub open spec fn visited(a: int, b: int, ox: int, oy: int) -> bool {
    a < ox || (a == ox && b < oy)
}

/// The number of overlay columns (or rows) that a scale samples.
pub fn span_of(length: usize, scale: u32) -> (result: usize)
    ensures
        result == span(length as nat, scale),
{
    assert(length * scale <= 0xFFFF_FFFF_FFFF_FFFF * 0xFFFF_FFFF) by (nonlinear_arith)
        requires
            0 <= length <= 0xFFFF_FFFF_FFFF_FFFF,
            0 <= scale <= 0xFFFF_FFFF,
    ;
    let scaled: u128 = ((length as u128) * (scale as u128) + 500) / 1000;
    if scaled < length as u128 {
        scaled as usize
    } else {
        length
    }
}

/// At the unit scale the footprint of a length is that length.
pub proof fn lemma_unit_scale(length: nat)
    ensures
        footprint(length, SCALE_ONE) == length,
        span(length, SCALE_ONE) == length,
{
    assert((length * 1000 + 500) / 1000 == length) by (nonlinear_arith);
}

/// Something that an overlay can be composited onto.
pub trait Alter {
    /// Composites `overlay` with its top-left cell at `(left, top)`, scaled
    /// by `width` and `height` thousandths, and says whether any colour of
    /// it fell outside.
    fn overlay(&mut self, top: usize, left: usize, width: u32, height: u32, overlay: &Overlay) -> bool
        requires
            overlay.wf(),
    ;
}

impl Alter for Canvas {
    /// Every pixel of the canvas under a sampled, present overlay cell takes
    /// that cell's colour; every other pixel keeps its own. Colours whose
    /// target lies outside the canvas are dropped, and the result says
    /// whether there was one.
    fn overlay(&mut self, top: usize, left: usize, width: u32, height: u32, overlay: &Overlay) -> (clipped: bool)
        ensures
            composited(*old(self), *final(self), top, left, width, height, *overlay),
            clipped == clips(old(self).size(), top, left, width, height, *overlay),
    {
        let ghost before = *self;
        let (w, h) = self.dimensions();
        let columns: usize = span_of(overlay.width, width);
        let rows: usize = span_of(overlay.height, height);
        let mut clipped = false;
        let mut ox: usize = 0;
        while ox < columns
            invariant
                overlay.wf(),
                before.wf(),
                self.wf(),
                before.size() == (w as nat, h as nat),
                self.size() == before.size(),
                columns == span(overlay.width as nat, width),
                rows == span(overlay.height as nat, height),
                ox <= columns,
                clipped == clips_before(before.size(), top, left, width, height, *overlay, ox as int, 0),
                forall|x: int, y: int|
                    before.has(x, y) ==> #[trigger] self.cells()[(x, y)] == (if visited(
                        x - left,
                        y - top,
                        ox as int,
                        0,
                    ) {
                        composite_cell(before.cells()[(x, y)], top, left, width, height, *overlay, x, y)
                    } else {
                        before.cells()[(x, y)]
                    }),
            decreases columns - ox,
        {
            let mut oy: usize = 0;
            while oy < rows
                invariant
                    overlay.wf(),
                    before.wf(),
                    self.wf(),
                    before.size() == (w as nat, h as nat),
                    self.size() == before.size(),
                    columns == span(overlay.width as nat, width),
                    rows == span(overlay.height as nat, height),
                    ox < columns,
                    oy <= rows,
                    clipped == clips_before(
                        before.size(),
                        top,
                        left,
                        width,
                        height,
                        *overlay,
                        ox as int,
                        oy as int,
                    ),
                    forall|x: int, y: int|
                        before.has(x, y) ==> #[trigger] self.cells()[(x, y)] == (if visited(
                            x - left,
                            y - top,
                            ox as int,
                            oy as int,
                        ) {
                            composite_cell(
                                before.cells()[(x, y)],
                                top,
                                left,
                                width,
                                height,
                                *overlay,
                                x,
                                y,
                            )
                        } else {
                            before.cells()[(x, y)]
                        }),
                decreases rows - oy,
            {
                let ghost here = *self;
                let ghost was_clipped = clipped;
                if let Some(pixel) = overlay.get_pixel(ox, oy) {
                    if left < w as usize && ox < w as usize - left && top < h as usize && oy
                        < h as usize - top {
                        let x: u32 = (left + ox) as u32;
                        let y: u32 = (top + oy) as u32;
                        self.put_pixel(x, y, pixel);
                    } else {
                        clipped = true;
                    }
                }
                proof {
                    let size = before.size();
                    assert(clipped_at(size, top, left, width, height, *overlay, ox as int, oy as int)
                        == (clipped && !was_clipped || (was_clipped && clipped_at(
                        size,
                        top,
                        left,
                        width,
                        height,
                        *overlay,
                        ox as int,
                        oy as int,
                    ))));
                    assert(clips_before(size, top, left, width, height, *overlay, ox as int, oy + 1)
                        == (clips_before(size, top, left, width, height, *overlay, ox as int, oy as int)
                        || clipped_at(size, top, left, width, height, *overlay, ox as int, oy as int)));
                }
                oy += 1;
            }
            proof {
                let size = before.size();
                assert(clips_before(size, top, left, width, height, *overlay, ox as int, rows as int)
                    == clips_before(size, top, left, width, height, *overlay, ox + 1, 0));
            }
            ox += 1;
        }
        proof {
            let size = before.size();
            assert(clips_before(size, top, left, width, height, *overlay, columns as int, 0) == clips(
                size,
                top,
                left,
                width,
                height,
                *overlay,
            ));
        }
        clipped
    }
}


/// Composited at the unit scale with no offset onto a canvas that it fits
/// in, an overlay shows each of its present cells at the same coordinates,
/// leaves every other pixel as it was, and drops nothing.
pub proof fn lemma_unit_composite(before: Canvas, after: Canvas, overlay: Overlay)
    requires
        before.wf(),
        overlay.wf(),
        overlay.width <= before.size().0,
        overlay.height <= before.size().1,
        composited(before, after, 0, 0, SCALE_ONE, SCALE_ONE, overlay),
    ensures
        after.size() == before.size(),
        forall|x: int, y: int|
            overlay.in_bounds(x, y) && overlay.cell(x, y) is Some ==> #[trigger] after.cells()[(
                x,
                y,
            )] == overlay.cell(x, y)->Some_0,
        forall|x: int, y: int|
            before.has(x, y) && !(overlay.in_bounds(x, y) && overlay.cell(x, y) is Some)
                ==> #[trigger] after.cells()[(x, y)] == before.cells()[(x, y)],
        !clips(before.size(), 0, 0, SCALE_ONE, SCALE_ONE, overlay),
{
    lemma_unit_scale(overlay.width as nat);
    lemma_unit_scale(overlay.height as nat);
    assert forall|x: int, y: int|
        overlay.in_bounds(x, y) && overlay.cell(x, y) is Some implies #[trigger] after.cells()[(
        x,
        y,
    )] == overlay.cell(x, y)->Some_0 by {
        assert(before.has(x, y));
    }
}

/// Compositing is a function of its inputs: the same overlay, composited
/// with the same offset and scale onto two canvases that agree pixel for
/// pixel, gives two canvases that agree pixel for pixel.
pub proof fn lemma_composite_deterministic(
    first_before: Canvas,
    first_after: Canvas,
    second_before: Canvas,
    second_after: Canvas,
    top: usize,
    left: usize,
    width: u32,
    height: u32,
    overlay: Overlay,
)
    requires
        first_before.wf(),
        second_before.wf(),
        first_before.size() == second_before.size(),
        first_before.cells() == second_before.cells(),
        composited(first_before, first_after, top, left, width, height, overlay),
        composited(second_before, second_after, top, left, width, height, overlay),
    ensures
        first_after.size() == second_after.size(),
        first_after.cells() == second_after.cells(),
{
    assert forall|k: (int, int)|
        first_after.cells().contains_key(k) == second_after.cells().contains_key(k) by {
        assert(k == (k.0, k.1));
        assert(first_after.cells().contains_key((k.0, k.1)) == first_after.has(k.0, k.1));
        assert(second_after.cells().contains_key((k.0, k.1)) == second_after.has(k.0, k.1));
    }
    assert forall|k: (int, int)| first_after.cells().contains_key(k) implies first_after.cells()[k]
        == second_after.cells()[k] by {
        assert(k == (k.0, k.1));
        assert(first_after.cells().contains_key((k.0, k.1)) == first_after.has(k.0, k.1));
        assert(first_after.cells()[(k.0, k.1)] == second_after.cells()[(k.0, k.1)]);
    }
    assert(first_after.cells() =~= second_after.cells());
}

} // verus!
