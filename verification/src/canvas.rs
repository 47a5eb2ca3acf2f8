//! The dense base canvas: an `image::RgbImage`, seen through its dimensions
//! and the colour of each of its pixels.

use vstd::prelude::*;
use image::Rgb;
use image::RgbImage;

verus! {

/// A dense RGB raster: an `image::RgbImage`. Every pixel has a colour; none
/// is absent. The raster itself is hidden from the verifier, which knows a
/// canvas by `canvas_size` and `canvas_cells` alone.
#[verifier::external_body]
pub struct Canvas {
    image: RgbImage,
}

/// The width and the height of a canvas, in that order.
pub uninterp spec fn canvas_size(canvas: Canvas) -> (nat, nat);

/// The colour of each pixel of a canvas, keyed by column and row.
pub uninterp spec fn canvas_cells(canvas: Canvas) -> Map<(int, int), [u8; 3]>;

/// Whether `(x, y)` is a pixel of a canvas of the given size.
pub open spec fn on_canvas(size: (nat, nat), x: int, y: int) -> bool {
    0 <= x < size.0 && 0 <= y < size.1
}

/// The colour with the given channels.
pub open spec fn rgb(r: u8, g: u8, b: u8) -> [u8; 3] {
    [r, g, b]
}

/// `ImageBuffer::dimensions`: the width and height that the buffer was made
/// with. The buffer holds three bytes for each pixel, so that count fits in
/// `usize`, and exactly the coordinates within the dimensions name a pixel.
#[verifier::external_body]
pub(crate) fn canvas_dimensions(canvas: &Canvas) -> (result: (u32, u32))
    ensures
        canvas_size(*canvas) == (result.0 as nat, result.1 as nat),
        3 * result.0 * result.1 <= usize::MAX,
        forall|x: int, y: int| #[trigger]
            canvas_cells(*canvas).contains_key((x, y)) <==> (0 <= x < result.0 && 0 <= y
                < result.1),
{
    canvas.image.dimensions()
}

/// `ImageBuffer::new`: a canvas of the given dimensions whose every byte is
/// zero. It panics where the byte count overflows `usize`.
#[verifier::external_body]
pub(crate) fn canvas_new(width: u32, height: u32) -> (result: Canvas)
    requires
        3 * width * height <= usize::MAX,
    ensures
        canvas_size(result) == (width as nat, height as nat),
        forall|x: int, y: int| #[trigger]
            canvas_cells(result).contains_key((x, y)) <==> (0 <= x < width && 0 <= y < height),
        forall|x: int, y: int|
            0 <= x < width && 0 <= y < height ==> #[trigger] canvas_cells(result)[(x, y)] == rgb(
                0,
                0,
                0,
            ),
{
    Canvas { image: RgbImage::new(width, height) }
}

/// `ImageBuffer::get_pixel`: the colour at `(x, y)`. It panics outside the
/// dimensions.
#[verifier::external_body]
pub(crate) fn canvas_get(canvas: &Canvas, x: u32, y: u32) -> (result: [u8; 3])
    requires
        on_canvas(canvas_size(*canvas), x as int, y as int),
    ensures
        result == canvas_cells(*canvas)[(x as int, y as int)],
{
    canvas.image.get_pixel(x, y).0
}

/// `ImageBuffer::put_pixel`: replaces the colour at `(x, y)` and nothing
/// else. It panics outside the dimensions.
#[verifier::external_body]
pub(crate) fn canvas_put(canvas: &mut Canvas, x: u32, y: u32, color: [u8; 3])
    requires
        on_canvas(canvas_size(*old(canvas)), x as int, y as int),
    ensures
        canvas_size(*final(canvas)) == canvas_size(*old(canvas)),
        canvas_cells(*final(canvas)) == canvas_cells(*old(canvas)).insert(
            (x as int, y as int),
            color,
        ),
{
    canvas.image.put_pixel(x, y, Rgb(color))
}

/// The JPEG encoding at full quality of a raster with the given size and
/// colours, or `None` where the encoder refuses it.
pub uninterp spec fn jpeg_encoding(size: (nat, nat), cells: Map<(int, int), [u8; 3]>) -> Option<
    Seq<u8>,
>;

/// `ImageBuffer::write_to` with `ImageOutputFormat::Jpeg(100)`, into a
/// buffer in memory: the encoding of the canvas, which depends on nothing
/// but its size and colours, or `None` where the encoder fails.
#[verifier::external_body]
pub(crate) fn canvas_jpeg(canvas: &Canvas) -> (result: Option<Vec<u8>>)
    ensures
        match result {
            Some(bytes) => jpeg_encoding(canvas_size(*canvas), canvas_cells(*canvas)) == Some(bytes@),
            None => jpeg_encoding(canvas_size(*canvas), canvas_cells(*canvas)) is None,
        },
{
    let mut bytes = Vec::new();
    match canvas.image.write_to(
        &mut std::io::Cursor::new(&mut bytes),
        image::ImageOutputFormat::Jpeg(100),
    ) {
        Ok(()) => Some(bytes),
        Err(_) => None,
    }
}

impl Canvas {
    /// The width and the height, in that order.
    pub open spec fn size(&self) -> (nat, nat) {
        canvas_size(*self)
    }

    /// The colour of each pixel, keyed by column and row.
    pub open spec fn cells(&self) -> Map<(int, int), [u8; 3]> {
        canvas_cells(*self)
    }

    /// Whether `(x, y)` is a pixel of the canvas.
    pub open spec fn has(&self, x: int, y: int) -> bool {
        on_canvas(self.size(), x, y)
    }

    /// Exactly the coordinates within the dimensions have a colour, and the
    /// dimensions are those of a buffer that fits in memory.
    pub open spec fn wf(&self) -> bool {
        &&& self.size().0 <= u32::MAX
        &&& self.size().1 <= u32::MAX
        &&& 3 * self.size().0 * self.size().1 <= usize::MAX
        &&& forall|x: int, y: int| #[trigger] self.cells().contains_key((x, y)) <==> self.has(x, y)
    }

    /// Whether a canvas of the given dimensions fits in memory.
    pub open spec fn fits(width: u32, height: u32) -> bool {
        3 * width * height <= usize::MAX
    }

    /// A canvas of the given dimensions with every pixel black, or `None`
    /// where such a canvas does not fit in memory.
    pub fn new(width: u32, height: u32) -> (result: Option<Canvas>)
        ensures
            result is Some <==> Self::fits(width, height),
            result is Some ==> {
                let canvas = result->Some_0;
                &&& canvas.wf()
                &&& canvas.size() == (width as nat, height as nat)
                &&& forall|x: int, y: int|
                    canvas.has(x, y) ==> #[trigger] canvas.cells()[(x, y)] == rgb(0, 0, 0)
            },
    {
        assert(3 * width * height <= 3 * 0xFFFF_FFFF * 0xFFFF_FFFF) by (nonlinear_arith)
            requires
                0 <= width <= 0xFFFF_FFFF,
                0 <= height <= 0xFFFF_FFFF,
        ;
        let bytes: u128 = 3u128 * (width as u128) * (height as u128);
        if bytes <= usize::MAX as u128 {
            Some(canvas_new(width, height))
        } else {
            None
        }
    }

    /// The width and the height, in that order.
    pub fn dimensions(&self) -> (result: (u32, u32))
        ensures
            self.wf(),
            self.size() == (result.0 as nat, result.1 as nat),
    {
        canvas_dimensions(self)
    }

    /// The colour at `(x, y)`, or `None` where the canvas has no such pixel.
    pub fn get_pixel(&self, x: u32, y: u32) -> (result: Option<[u8; 3]>)
        ensures
            result is Some <==> self.has(x as int, y as int),
            result is Some ==> result->Some_0 == self.cells()[(x as int, y as int)],
    {
        let (width, height) = canvas_dimensions(self);
        if x < width && y < height {
            Some(canvas_get(self, x, y))
        } else {
            None
        }
    }

    /// Replaces the colour at `(x, y)` and says so, or leaves the canvas as
    /// it is where it has no such pixel.
    pub fn put_pixel(&mut self, x: u32, y: u32, color: [u8; 3]) -> (written: bool)
        ensures
            final(self).wf(),
            final(self).size() == old(self).size(),
            written <==> old(self).has(x as int, y as int),
            written ==> final(self).cells() == old(self).cells().insert(
                (x as int, y as int),
                color,
            ),
            !written ==> final(self).cells() == old(self).cells(),
    {
        let (width, height) = canvas_dimensions(self);
        if x < width && y < height {
            canvas_put(self, x, y, color);
            assert(final(self).cells().dom() =~= old(self).cells().dom());
            true
        } else {
            false
        }
    }
}

} // verus!
