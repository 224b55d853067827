//! The plot renderer: a path of pixel positions drawn as a connected line on a
//! raster picture of fixed size.
//!
//! The picture is a buffer of red, green and blue bytes, row by row from the
//! top. Filling it and stroking a line segment are left to the bitmap backend
//! of `plotters`; the order of the work, the clipping of the path and the
//! refusal of an empty path are decided here.

use vstd::prelude::*;
use plotters::prelude::{BitMapBackend, DrawingBackend, RGBColor};
use plotters::style::Color;
use crate::config::{is_picture_size, Config, ConfigView, Rgb, MAX_DIMENSION, STROKE_WIDTH};
use crate::error::RenderError;

verus! {

/// A position on the picture, or beside it: column `x`, row `y`, counted
/// from the upper left corner.
#[derive(Clone, Copy, Debug, PartialEq, Eq, Structural)]
pub struct Pixel {
    pub x: i32,
    pub y: i32,
}

/// A rendered picture, as plain values: its size and its bytes.
pub struct CanvasView {
    pub width: nat,
    pub height: nat,
    pub pixels: Seq<u8>,
}

/// A rendered picture. It always holds three bytes for each of its pixels.
#[derive(Debug)]
pub struct Canvas {
    width: u32,
    height: u32,
    pixels: Vec<u8>,
}

impl View for Canvas {
    type V = CanvasView;

    closed spec fn view(&self) -> CanvasView {
        CanvasView { width: self.width as nat, height: self.height as nat, pixels: self.pixels@ }
    }
}

/// `value` moved into `0..=limit` by the shortest way.
pub open spec fn clip_coordinate(value: int, limit: int) -> int {
    if value < 0 {
        0
    } else if value > limit {
        limit
    } else {
        value
    }
}

/// Whether `p` lies in the rectangle from `(0, 0)` to `(width, height)`, both
/// corners included.
pub open spec fn in_rectangle(p: Pixel, width: int, height: int) -> bool {
    0 <= p.x <= width && 0 <= p.y <= height
}

/// `p` moved into the rectangle from `(0, 0)` to `(width, height)`, both
/// corners included: what a drawing area does with every vertex it is given.
pub open spec fn spec_clip(p: Pixel, width: int, height: int) -> Pixel {
    Pixel {
        x: clip_coordinate(p.x as int, width) as i32,
        y: clip_coordinate(p.y as int, height) as i32,
    }
}

/// Every point of `path` clipped, in order.
pub open spec fn clipped(path: Seq<Pixel>, width: int, height: int) -> Seq<Pixel> {
    Seq::new(path.len(), |i: int| spec_clip(path[i], width, height))
}

/// The bytes of a picture of `width` by `height` pixels that shows `color`
/// and nothing else.
pub open spec fn blank(width: int, height: int, color: Rgb) -> Seq<u8> {
    Seq::new((3 * width * height) as nat, |i: int| color.channel(i % 3))
}

/// `pixels` with its first `area` pixels set to `color`.
pub open spec fn flooded(pixels: Seq<u8>, area: int, color: Rgb) -> Seq<u8> {
    Seq::new(
        pixels.len(),
        |i: int|
            if i < 3 * area {
                color.channel(i % 3)
            } else {
                pixels[i]
            },
    )
}

/// The bytes that the backend leaves when it strokes the segment between
/// `from` and `to`, opaque and `stroke_width` pixels wide, on a picture of
/// `width` by `height` pixels that held `pixels`.
pub uninterp spec fn segment_drawn(
    pixels: Seq<u8>,
    width: int,
    height: int,
    from: Pixel,
    to: Pixel,
    color: Rgb,
    stroke_width: int,
) -> Seq<u8>;

/// `pixels` after the segments between each two neighbours of `path` were
/// stroked on it, the first segment first, each [`STROKE_WIDTH`] wide. A path
/// of fewer than two points has no segment and leaves the bytes as they were.
pub open spec fn polyline_drawn(
    pixels: Seq<u8>,
    width: int,
    height: int,
    path: Seq<Pixel>,
    color: Rgb,
) -> Seq<u8>
    decreases path.len(),
{
    if path.len() < 2 {
        pixels
    } else {
        let last = path.len() - 1;
        segment_drawn(
            polyline_drawn(pixels, width, height, path.take(last), color),
            width,
            height,
            path[last - 1],
            path[last],
            color,
            STROKE_WIDTH as int,
        )
    }
}

/// The bytes of the picture that `render` makes of `path`: the background
/// everywhere, then the clipped path in the foreground colour.
pub open spec fn rendering(path: Seq<Pixel>, config: ConfigView) -> Seq<u8> {
    let width = config.width as int;
    let height = config.height as int;
    polyline_drawn(
        blank(width, height, config.background),
        width,
        height,
        clipped(path, width, height),
        config.foreground,
    )
}

/// The colour of the pixel in column `x` of row `y`.
pub open spec fn pixel_of(canvas: CanvasView, x: int, y: int) -> Rgb {
    let at = 3 * (y * canvas.width + x);
    Rgb { red: canvas.pixels[at], green: canvas.pixels[at + 1], blue: canvas.pixels[at + 2] }
}

/// Fills a rectangle with one colour through `draw_rect` of `BitMapBackend`.
///
/// Asked to fill the rectangle from the origin to `(width, height)`, the
/// backend writes the three bytes of `color` into every pixel of the `width`
/// by `height` picture at the start of the buffer, touches nothing behind it
/// and reports success: it has no failing path for a filled rectangle. It is
/// built on the buffer by `with_buffer`, which panics on a buffer that is too
/// short: hence the lower bound on the length.
#[verifier::external_body]
fn backend_fill(
    pixels: &mut Vec<u8>,
    width: u32,
    height: u32,
    upper_left: Pixel,
    bottom_right: Pixel,
    color: Rgb,
    fill: bool,
) -> (ok: bool)
    requires
        is_picture_size(width as int, height as int),
        old(pixels)@.len() >= 3 * width * height,
        upper_left == (Pixel { x: 0, y: 0 }),
        bottom_right == (Pixel { x: width as i32, y: height as i32 }),
        fill,
    ensures
        ok,
        final(pixels)@.len() == old(pixels)@.len(),
        final(pixels)@ == flooded(old(pixels)@, width * height, color),
{
    let mut backend = BitMapBackend::with_buffer(pixels.as_mut_slice(), (width, height));
    let style = RGBColor(color.red, color.green, color.blue).to_backend_color();
    let from = (upper_left.x, upper_left.y);
    backend.draw_rect(from, (bottom_right.x, bottom_right.y), &style, fill).is_ok()
}

/// Strokes one segment through `draw_line` of `BitMapBackend`, with an opaque
/// style of the given stroke width.
///
/// What the backend writes depends on the buffer, the size, the two ends, the
/// colour and the stroke width alone; the contract gives those bytes the name
/// [`segment_drawn`] and says nothing else of them. The length of the buffer
/// stays. The backend reports success: at stroke width 1 it can only hand on
/// a failure of its own `draw_pixel`, which has none. The ends must lie in
/// the rectangle from `(0, 0)` to `(width, height)` and the picture within
/// [`MAX_DIMENSION`]: the backend adds to and subtracts from the coordinates
/// in 32 bits and checks no bound.
#[verifier::external_body]
fn backend_line(
    pixels: &mut Vec<u8>,
    width: u32,
    height: u32,
    from: Pixel,
    to: Pixel,
    color: Rgb,
    stroke_width: u32,
) -> (ok: bool)
    requires
        is_picture_size(width as int, height as int),
        old(pixels)@.len() >= 3 * width * height,
        in_rectangle(from, width as int, height as int),
        in_rectangle(to, width as int, height as int),
        stroke_width == 1,
    ensures
        ok,
        final(pixels)@.len() == old(pixels)@.len(),
        final(pixels)@ == segment_drawn(
            old(pixels)@,
            width as int,
            height as int,
            from,
            to,
            color,
            stroke_width as int,
        ),
{
    let mut backend = BitMapBackend::with_buffer(pixels.as_mut_slice(), (width, height));
    let style = RGBColor(color.red, color.green, color.blue).stroke_width(stroke_width);
    backend.draw_line((from.x, from.y), (to.x, to.y), &style).is_ok()
}

/// Moves `p` into the rectangle from `(0, 0)` to `(width, height)`.
pub fn clip(p: Pixel, width: u32, height: u32) -> (r: Pixel)
    ensures
        r == spec_clip(p, width as int, height as int),
{
    let x: i32 = if p.x < 0 {
        0
    } else if p.x as i64 > width as i64 {
        width as i32
    } else {
        p.x
    };
    let y: i32 = if p.y < 0 {
        0
    } else if p.y as i64 > height as i64 {
        height as i32
    } else {
        p.y
    };
    Pixel { x, y }
}

/// A picture of an accepted size has at most 805306368 bytes, which fits
/// every index type that the renderer uses.
proof fn lemma_picture_bytes(width: int, height: int)
    requires
        is_picture_size(width, height),
    ensures
        3 <= 3 * width * height <= 805306368,
        3 * width * height == 3 * (width * height),
{
    assert(1 <= width * height <= 16384 * 16384) by (nonlinear_arith)
        requires
            1 <= width <= 16384,
            1 <= height <= 16384,
    ;
    assert(3 * width * height == 3 * (width * height)) by (nonlinear_arith);
}

/// Draws `path` as a connected line.
///
/// The picture has the size that `config` gives. It is filled with the
/// background colour; then each point of `path` is clipped to the picture's
/// rectangle, and the segments between neighbours are stroked in the
/// foreground colour, in the order of the path. A path of one point leaves
/// the background alone.
///
/// An empty path is refused with `InvalidInput`; every other path gives a
/// picture. Should the backend ever report a failure, it is handed on at
/// once as `Backend`; the backend in use reports none.
pub fn render(path: &Vec<Pixel>, config: &Config) -> (r: Result<Canvas, RenderError>)
    ensures
        path@.len() == 0 ==> r == Err::<Canvas, RenderError>(RenderError::InvalidInput),
        path@.len() > 0 ==> r is Ok,
        r matches Ok(canvas) ==> canvas@ == (CanvasView {
            width: config@.width,
            height: config@.height,
            pixels: rendering(path@, config@),
        }),
{
    if path.len() == 0 {
        return Err(RenderError::InvalidInput);
    }
    let width = config.width();
    let height = config.height();
    let foreground = config.foreground();
    let ghost w = width as int;
    let ghost h = height as int;
    proof {
        lemma_picture_bytes(w, h);
    }
    let area: usize = width as usize * height as usize;
    let mut pixels: Vec<u8> = vec![0u8; 3 * area];
    let origin = Pixel { x: 0, y: 0 };
    let corner = Pixel { x: width as i32, y: height as i32 };
    if !backend_fill(&mut pixels, width, height, origin, corner, config.background(), true) {
        return Err(RenderError::Backend);
    }
    assert(pixels@ =~= blank(w, h, config@.background));
    let ghost route = clipped(path@, w, h);
    let mut previous = clip(path[0], width, height);
    let mut i: usize = 1;
    while i < path.len()
        invariant
            1 <= i <= path.len(),
            is_picture_size(w, h),
            w == width,
            h == height,
            pixels@.len() == 3 * w * h,
            route == clipped(path@, w, h),
            previous == route[i - 1],
            in_rectangle(previous, w, h),
            pixels@ == polyline_drawn(
                blank(w, h, config@.background),
                w,
                h,
                route.take(i as int),
                foreground,
            ),
        decreases path.len() - i,
    {
        let next = clip(path[i], width, height);
        let ok = backend_line(
            &mut pixels,
            width,
            height,
            previous,
            next,
            foreground,
            STROKE_WIDTH,
        );
        if !ok {
            return Err(RenderError::Backend);
        }
        proof {
            let longer = route.take(i + 1);
            assert(longer.take(i as int) =~= route.take(i as int));
        }
        previous = next;
        i = i + 1;
    }
    assert(route.take(i as int) =~= route);
    Ok(Canvas { width, height, pixels })
}

impl Canvas {
    #[verifier::type_invariant]
    spec fn whole(self) -> bool {
        &&& is_picture_size(self.width as int, self.height as int)
        &&& self.pixels@.len() == 3 * self.width * self.height
    }

    /// Width of the picture in pixels.
    pub fn width(&self) -> (r: u32)
        ensures
            r == self@.width,
            1 <= r <= MAX_DIMENSION,
    {
        proof {
            use_type_invariant(self);
        }
        self.width
    }

    /// Height of the picture in pixels.
    pub fn height(&self) -> (r: u32)
        ensures
            r == self@.height,
            1 <= r <= MAX_DIMENSION,
    {
        proof {
            use_type_invariant(self);
        }
        self.height
    }

    /// The bytes of the picture: red, green and blue of each pixel, row by
    /// row from the top.
    pub fn bytes(&self) -> (r: &Vec<u8>)
        ensures
            r@ == self@.pixels,
            r@.len() == 3 * self@.width * self@.height,
    {
        proof {
            use_type_invariant(self);
        }
        &self.pixels
    }

    /// The colour of the pixel in column `x` of row `y`, if the picture has
    /// such a pixel.
    pub fn pixel(&self, x: u32, y: u32) -> (r: Option<Rgb>)
        ensures
            r is Some <==> x < self@.width && y < self@.height,
            r matches Some(c) ==> c == pixel_of(self@, x as int, y as int),
    {
        proof {
            use_type_invariant(self);
        }
        if x >= self.width || y >= self.height {
            return None;
        }
        proof {
            let w = self.width as int;
            let h = self.height as int;
            lemma_picture_bytes(w, h);
            assert(y * w + x < w * h) by (nonlinear_arith)
                requires
                    0 <= x < w,
                    0 <= y < h,
            ;
            assert(0 <= y * w) by (nonlinear_arith)
                requires
                    0 <= y,
                    0 <= w,
            ;
        }
        let at: usize = 3 * (y as usize * self.width as usize + x as usize);
        Some(Rgb { red: self.pixels[at], green: self.pixels[at + 1], blue: self.pixels[at + 2] })
    }
}

/// A path of one point has no segment: its picture shows the background and
/// nothing else.
pub proof fn lemma_single_point_leaves_background(path: Seq<Pixel>, config: ConfigView)
    requires
        path.len() == 1,
    ensures
        rendering(path, config) == blank(
            config.width as int,
            config.height as int,
            config.background,
        ),
{
}

/// One more point at the end of a path adds one segment to its picture, from
/// the point that was last to the new one, both clipped, and changes nothing
/// of what was drawn before.
pub proof fn lemma_rendering_extends(path: Seq<Pixel>, next: Pixel, config: ConfigView)
    requires
        path.len() >= 1,
    ensures
        rendering(path.push(next), config) == segment_drawn(
            rendering(path, config),
            config.width as int,
            config.height as int,
            spec_clip(path.last(), config.width as int, config.height as int),
            spec_clip(next, config.width as int, config.height as int),
            config.foreground,
            STROKE_WIDTH as int,
        ),
{
    let width = config.width as int;
    let height = config.height as int;
    let longer = clipped(path.push(next), width, height);
    assert(longer.take(path.len() as int) =~= clipped(path, width, height));
}

/// Points that coincide are drawn at one place: a path whose points are all
/// the same point is clipped to a path whose points are all the same pixel of
/// the picture's rectangle.
pub proof fn lemma_coincident_points_stay_coincident(
    path: Seq<Pixel>,
    point: Pixel,
    width: int,
    height: int,
)
    requires
        is_picture_size(width, height),
        forall|i: int| 0 <= i < path.len() ==> path[i] == point,
    ensures
        forall|i: int|
            0 <= i < path.len() ==> #[trigger] clipped(path, width, height)[i] == spec_clip(
                point,
                width,
                height,
            ),
        in_rectangle(spec_clip(point, width, height), width, height),
{
}

} // verus!
