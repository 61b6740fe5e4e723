use vstd::prelude::*;

use crate::bitmap::{image_height, image_height_of, image_pixel, image_pixels, image_width, image_width_of};

verus! {

/// A point in surface-local pixel space: column, then row.
#[derive(Clone, Copy, Debug, PartialEq, Eq)]
pub struct Coordinate(pub u32, pub u32);

/// A color as red, green and blue channel values.
#[derive(Clone, Copy, Debug, PartialEq, Eq)]
pub struct Color(pub u8, pub u8, pub u8);

/// One point of a shape and the color it is set to.
#[derive(Clone, Copy, Debug, PartialEq, Eq)]
pub struct Pixel(pub Coordinate, pub Color);

/// Points that are set together, in order, by one call of `Frame::draw`.
pub struct Shape {
    pub pixels: Vec<Pixel>,
}

/// Why a drawing operation was refused.
#[derive(Clone, Copy, Debug, PartialEq, Eq)]
pub enum FrameError {
    /// Some byte of the drawing would fall outside the surface's rows or buffer.
    OutOfBoundsWrite,
    /// The image has more than `u32::MAX` pixels.
    ImageTooLarge,
}

/// An in-memory copy of one frame, laid out as the display device stores it.
///
/// `width` is the row stride in bytes; each pixel takes `bytes_per_pixel` bytes,
/// of which the first three hold blue, green and red.
pub struct Frame {
    buffer: Vec<u8>,
    xoffset: Option<u32>,
    yoffset: Option<u32>,
    width: u32,
    height: u32,
    bytes_per_pixel: u32,
}

/// The mathematical content of a `Frame`.
pub ghost struct FrameView {
    pub buffer: Seq<u8>,
    pub xoffset: Option<u32>,
    pub yoffset: Option<u32>,
    pub width: u32,
    pub height: u32,
    pub bytes_per_pixel: u32,
}

impl View for Frame {
    type V = FrameView;

    closed spec fn view(&self) -> FrameView {
        FrameView {
            buffer: self.buffer@,
            xoffset: self.xoffset,
            yoffset: self.yoffset,
            width: self.width,
            height: self.height,
            bytes_per_pixel: self.bytes_per_pixel,
        }
    }
}

/// The color of a `Color` as a plain triple (red, green, blue).
pub open spec fn rgb(c: Color) -> (u8, u8, u8) {
    (c.0, c.1, c.2)
}

/// Byte address of pixel (x, y) in a buffer with the given row stride.
pub open spec fn byte_index(stride: int, bytes_per_pixel: int, x: int, y: int) -> int {
    y * stride + x * bytes_per_pixel
}

/// Pixel (x, y) lies on a row of the surface and its three color bytes within that row.
pub open spec fn writable(stride: int, height: int, bytes_per_pixel: int, x: int, y: int) -> bool {
    0 <= x && 0 <= y && y < height && x * bytes_per_pixel + 3 <= stride
}

/// `buf` with blue, green and red of `c` written at `idx`, `idx + 1` and `idx + 2`.
pub open spec fn put_color(buf: Seq<u8>, idx: int, c: (u8, u8, u8)) -> Seq<u8> {
    buf.update(idx, c.2).update(idx + 1, c.1).update(idx + 2, c.0)
}

/// The offset that applies to a shape's points on one axis: the frame's explicit
/// offset, or 0 where none was given.
pub open spec fn shape_offset(o: Option<u32>) -> int {
    match o {
        Some(v) => v as int,
        None => 0,
    }
}

/// `buf` after the pixels of `px`, shifted by (`xo`, `yo`), are written one after
/// the other.
pub open spec fn paint_pixels(buf: Seq<u8>, stride: int, bytes_per_pixel: int, xo: int, yo: int, px: Seq<Pixel>) -> Seq<u8>
    decreases px.len(),
{
    if px.len() == 0 {
        buf
    } else {
        let last = px.last();
        put_color(
            paint_pixels(buf, stride, bytes_per_pixel, xo, yo, px.drop_last()),
            byte_index(stride, bytes_per_pixel, last.0.0 + xo, last.0.1 + yo),
            rgb(last.1),
        )
    }
}

/// `buf` after the first `n` pixels of a `w`-wide image, in row-major order, are
/// written with their top-left corner at (`xo`, `yo`).
pub open spec fn paint_image(
    buf: Seq<u8>,
    stride: int,
    bytes_per_pixel: int,
    pixels: Map<(u32, u32), (u8, u8, u8)>,
    w: int,
    xo: int,
    yo: int,
    n: nat,
) -> Seq<u8>
    decreases n,
{
    if n == 0 || w <= 0 {
        buf
    } else {
        let k = n - 1;
        let x = k % w;
        let y = k / w;
        put_color(
            paint_image(buf, stride, bytes_per_pixel, pixels, w, xo, yo, (n - 1) as nat),
            byte_index(stride, bytes_per_pixel, x + xo, y + yo),
            pixels[(x as u32, y as u32)],
        )
    }
}

/// Horizontal offset at which a `w`-wide image is placed: the explicit offset if
/// any, else the one that centers it; `None` where centering has no answer.
pub open spec fn placed_x(f: FrameView, w: int) -> Option<int> {
    match f.xoffset {
        Some(o) => Some(o as int),
        None => if f.bytes_per_pixel > 0 && (f.width / f.bytes_per_pixel) / 2 >= w / 2 {
            Some((f.width / f.bytes_per_pixel) / 2 - w / 2)
        } else {
            None
        },
    }
}

/// Vertical offset at which an `h`-high image is placed.
pub open spec fn placed_y(f: FrameView, h: int) -> Option<int> {
    match f.yoffset {
        Some(o) => Some(o as int),
        None => if f.height / 2 >= h / 2 {
            Some(f.height / 2 - h / 2)
        } else {
            None
        },
    }
}

/// A `w` by `h` image at (`xo`, `yo`) stays within the surface.
pub open spec fn image_fits(f: FrameView, w: int, h: int, xo: int, yo: int) -> bool {
    w == 0 || h == 0 || writable(
        f.width as int,
        f.height as int,
        f.bytes_per_pixel as int,
        xo + w - 1,
        yo + h - 1,
    )
}

/// The buffer that drawing a `w` by `h` image with the given pixels leaves, or
/// why it is refused: too many pixels, or no placement within the surface.
pub open spec fn drawn_image(f: FrameView, w: int, h: int, pixels: Map<(u32, u32), (u8, u8, u8)>) -> Result<Seq<u8>, FrameError> {
    if w * h > u32::MAX {
        Err(FrameError::ImageTooLarge)
    } else {
        match (placed_x(f, w), placed_y(f, h)) {
            (Some(xo), Some(yo)) => if image_fits(f, w, h, xo, yo) {
                Ok(paint_image(f.buffer, f.width as int, f.bytes_per_pixel as int, pixels, w, xo, yo, (w * h) as nat))
            } else {
                Err(FrameError::OutOfBoundsWrite)
            },
            _ => Err(FrameError::OutOfBoundsWrite),
        }
    }
}

/// Byte `j` lies in none of the three-byte color windows of a `w` by `h` image
/// placed at (`xo`, `yo`).
pub open spec fn outside_image(j: int, stride: int, bytes_per_pixel: int, w: int, h: int, xo: int, yo: int) -> bool {
    forall|x: int, y: int|
        0 <= x < w && 0 <= y < h ==> j < #[trigger] byte_index(stride, bytes_per_pixel, x + xo, y + yo) || j
            >= byte_index(stride, bytes_per_pixel, x + xo, y + yo) + 3
}

/// Every point of `px`, shifted by the frame's offset, is writable on the surface.
pub open spec fn shape_fits(f: FrameView, px: Seq<Pixel>) -> bool {
    forall|i: int| 0 <= i < px.len() ==> #[trigger] writable(
        f.width as int,
        f.height as int,
        f.bytes_per_pixel as int,
        px[i].0.0 + shape_offset(f.xoffset),
        px[i].0.1 + shape_offset(f.yoffset),
    )
}

proof fn lemma_writable_in_buffer(stride: int, height: int, bpp: int, x: int, y: int) by (nonlinear_arith)
    requires
        writable(stride, height, bpp, x, y),
        bpp >= 0,
    ensures
        0 <= byte_index(stride, bpp, x, y),
        byte_index(stride, bpp, x, y) + 3 <= stride * height,
{
}

proof fn lemma_writable_below(stride: int, height: int, bpp: int, x: int, y: int, mx: int, my: int) by (nonlinear_arith)
    requires
        writable(stride, height, bpp, mx, my),
        0 <= x <= mx,
        0 <= y <= my,
        bpp >= 0,
    ensures
        writable(stride, height, bpp, x, y),
{
}

proof fn lemma_mul_le(a: int, b: int, ma: int, mb: int) by (nonlinear_arith)
    requires
        0 <= a <= ma,
        0 <= b <= mb,
    ensures
        0 <= a * b <= ma * mb,
{
}

proof fn lemma_row_major(k: int, w: int, h: int) by (nonlinear_arith)
    requires
        0 <= k < w * h,
        w > 0,
    ensures
        0 <= k % w < w,
        0 <= k / w < h,
{
}

/// Setting one point (x, y) to color c at offset (xo, yo) writes blue, green and
/// red of c at byte `(y + yo) * stride + (x + xo) * bytes_per_pixel` and the two
/// after it, and leaves every other byte, a fourth byte of the pixel included,
/// as it was.
pub proof fn lemma_point_addressing(buf: Seq<u8>, stride: int, height: int, bytes_per_pixel: int, xo: int, yo: int, p: Pixel)
    requires
        buf.len() == stride * height,
        bytes_per_pixel >= 0,
        xo >= 0,
        yo >= 0,
        writable(stride, height, bytes_per_pixel, p.0.0 + xo, p.0.1 + yo),
    ensures
        ({
            let out = paint_pixels(buf, stride, bytes_per_pixel, xo, yo, seq![p]);
            let idx = (p.0.1 + yo) * stride + (p.0.0 + xo) * bytes_per_pixel;
            &&& 0 <= idx && idx + 3 <= buf.len()
            &&& out.len() == buf.len()
            &&& out[idx] == p.1.2
            &&& out[idx + 1] == p.1.1
            &&& out[idx + 2] == p.1.0
            &&& forall|j: int| 0 <= j < buf.len() && (j < idx || j >= idx + 3) ==> out[j] == buf[j]
        }),
{
    lemma_writable_in_buffer(stride, height, bytes_per_pixel, p.0.0 + xo, p.0.1 + yo);
    assert(seq![p].drop_last() =~= Seq::<Pixel>::empty());
    assert(paint_pixels(buf, stride, bytes_per_pixel, xo, yo, Seq::<Pixel>::empty()) == buf);
    let idx = (p.0.1 + yo) * stride + (p.0.0 + xo) * bytes_per_pixel;
    assert(paint_pixels(buf, stride, bytes_per_pixel, xo, yo, seq![p]) == put_color(buf, idx, rgb(p.1)));
}

/// Drawing the points of `a` and then those of `b` leaves the same bytes as
/// drawing `a` followed by `b` in one go: points are applied in the order given.
pub proof fn lemma_draw_in_order(buf: Seq<u8>, stride: int, bytes_per_pixel: int, xo: int, yo: int, a: Seq<Pixel>, b: Seq<Pixel>)
    ensures
        paint_pixels(paint_pixels(buf, stride, bytes_per_pixel, xo, yo, a), stride, bytes_per_pixel, xo, yo, b)
            == paint_pixels(buf, stride, bytes_per_pixel, xo, yo, a + b),
    decreases b.len(),
{
    if b.len() == 0 {
        assert(a + b =~= a);
    } else {
        lemma_draw_in_order(buf, stride, bytes_per_pixel, xo, yo, a, b.drop_last());
        assert((a + b).drop_last() =~= a + b.drop_last());
        assert((a + b).last() == b.last());
    }
}

proof fn lemma_disjoint_pixels(stride: int, height: int, bpp: int, x1: int, y1: int, x2: int, y2: int)
    requires
        writable(stride, height, bpp, x1, y1),
        writable(stride, height, bpp, x2, y2),
        x1 != x2 || y1 != y2,
        bpp >= 3,
    ensures
        byte_index(stride, bpp, x1, y1) + 3 <= byte_index(stride, bpp, x2, y2)
            || byte_index(stride, bpp, x2, y2) + 3 <= byte_index(stride, bpp, x1, y1),
{
    if y1 == y2 {
        if x1 < x2 {
            lemma_mul_le(x1 + 1, bpp, x2, bpp);
            assert((x1 + 1) * bpp == x1 * bpp + bpp) by (nonlinear_arith);
        } else {
            lemma_mul_le(x2 + 1, bpp, x1, bpp);
            assert((x2 + 1) * bpp == x2 * bpp + bpp) by (nonlinear_arith);
        }
    } else if y1 < y2 {
        lemma_mul_le(y1 + 1, stride, y2, stride);
        assert((y1 + 1) * stride == y1 * stride + stride) by (nonlinear_arith);
        lemma_mul_le(x2, bpp, x2, bpp);
    } else {
        lemma_mul_le(y2 + 1, stride, y1, stride);
        assert((y2 + 1) * stride == y2 * stride + stride) by (nonlinear_arith);
        lemma_mul_le(x1, bpp, x1, bpp);
    }
}

proof fn lemma_paint_image_keeps(
    buf: Seq<u8>,
    stride: int,
    height: int,
    bpp: int,
    pixels: Map<(u32, u32), (u8, u8, u8)>,
    w: int,
    h: int,
    xo: int,
    yo: int,
    n: nat,
    x: int,
    y: int,
)
    requires
        buf.len() == stride * height,
        bpp >= 3,
        w > 0,
        h > 0,
        xo >= 0,
        yo >= 0,
        writable(stride, height, bpp, xo + w - 1, yo + h - 1),
        n <= w * h,
        0 <= x < w,
        0 <= y < h,
        y * w + x < n,
    ensures
        ({
            let out = paint_image(buf, stride, bpp, pixels, w, xo, yo, n);
            let idx = byte_index(stride, bpp, x + xo, y + yo);
            &&& out.len() == buf.len()
            &&& out[idx] == pixels[(x as u32, y as u32)].2
            &&& out[idx + 1] == pixels[(x as u32, y as u32)].1
            &&& out[idx + 2] == pixels[(x as u32, y as u32)].0
        }),
    decreases n,
{
    let k = n - 1;
    lemma_row_major(k, w, h);
    let kx = k % w;
    let ky = k / w;
    lemma_paint_image_len(buf, stride, height, bpp, pixels, w, h, xo, yo, (n - 1) as nat);
    lemma_writable_below(stride, height, bpp, kx + xo, ky + yo, xo + w - 1, yo + h - 1);
    lemma_writable_in_buffer(stride, height, bpp, kx + xo, ky + yo);
    lemma_writable_below(stride, height, bpp, x + xo, y + yo, xo + w - 1, yo + h - 1);
    lemma_writable_in_buffer(stride, height, bpp, x + xo, y + yo);
    if y * w + x == k {
        vstd::arithmetic::div_mod::lemma_fundamental_div_mod_converse(k, w, y, x);
    } else {
        lemma_paint_image_keeps(buf, stride, height, bpp, pixels, w, h, xo, yo, (n - 1) as nat, x, y);
        vstd::arithmetic::div_mod::lemma_fundamental_div_mod(k, w);
        assert(kx != x || ky != y) by {
            if kx == x && ky == y {
                assert(k == w * ky + kx);
                assert(w * ky == y * w) by (nonlinear_arith)
                    requires
                        ky == y;
            }
        }
        lemma_disjoint_pixels(stride, height, bpp, kx + xo, ky + yo, x + xo, y + yo);
    }
}

proof fn lemma_paint_image_len(
    buf: Seq<u8>,
    stride: int,
    height: int,
    bpp: int,
    pixels: Map<(u32, u32), (u8, u8, u8)>,
    w: int,
    h: int,
    xo: int,
    yo: int,
    n: nat,
)
    requires
        buf.len() == stride * height,
        bpp >= 0,
        w > 0,
        xo >= 0,
        yo >= 0,
        writable(stride, height, bpp, xo + w - 1, yo + h - 1),
        n <= w * h,
    ensures
        paint_image(buf, stride, bpp, pixels, w, xo, yo, n).len() == buf.len(),
    decreases n,
{
    if n > 0 {
        let k = n - 1;
        lemma_row_major(k, w, h);
        lemma_paint_image_len(buf, stride, height, bpp, pixels, w, h, xo, yo, (n - 1) as nat);
        lemma_writable_below(stride, height, bpp, k % w + xo, k / w + yo, xo + w - 1, yo + h - 1);
        lemma_writable_in_buffer(stride, height, bpp, k % w + xo, k / w + yo);
    }
}

/// Once an image is drawn at offset (xo, yo) on a surface with at least three
/// bytes per pixel, the blue, green and red of its pixel (x, y) stand at byte
/// `(y + yo) * stride + (x + xo) * bytes_per_pixel` and the two after it.
pub proof fn lemma_image_addressing(f: FrameView, w: int, h: int, pixels: Map<(u32, u32), (u8, u8, u8)>, x: int, y: int)
    requires
        f.buffer.len() == f.width * f.height,
        f.bytes_per_pixel >= 3,
        drawn_image(f, w, h, pixels) is Ok,
        0 <= x < w,
        0 <= y < h,
    ensures
        ({
            let out = drawn_image(f, w, h, pixels)->Ok_0;
            let xo = placed_x(f, w)->Some_0;
            let yo = placed_y(f, h)->Some_0;
            let idx = (y + yo) * f.width + (x + xo) * f.bytes_per_pixel;
            &&& out.len() == f.buffer.len()
            &&& out[idx] == pixels[(x as u32, y as u32)].2
            &&& out[idx + 1] == pixels[(x as u32, y as u32)].1
            &&& out[idx + 2] == pixels[(x as u32, y as u32)].0
        }),
{
    let xo = placed_x(f, w)->Some_0;
    let yo = placed_y(f, h)->Some_0;
    lemma_mul_le(y, w, h - 1, w);
    assert((h - 1) * w + w == w * h) by (nonlinear_arith);
    lemma_paint_image_keeps(
        f.buffer,
        f.width as int,
        f.height as int,
        f.bytes_per_pixel as int,
        pixels,
        w,
        h,
        xo,
        yo,
        (w * h) as nat,
        x,
        y,
    );
}

proof fn lemma_paint_image_outside(
    buf: Seq<u8>,
    stride: int,
    height: int,
    bpp: int,
    pixels: Map<(u32, u32), (u8, u8, u8)>,
    w: int,
    h: int,
    xo: int,
    yo: int,
    n: nat,
    j: int,
)
    requires
        buf.len() == stride * height,
        bpp >= 0,
        w > 0,
        xo >= 0,
        yo >= 0,
        writable(stride, height, bpp, xo + w - 1, yo + h - 1),
        n <= w * h,
        0 <= j < buf.len(),
        outside_image(j, stride, bpp, w, h, xo, yo),
    ensures
        paint_image(buf, stride, bpp, pixels, w, xo, yo, n)[j] == buf[j],
    decreases n,
{
    if n > 0 {
        let k = n - 1;
        lemma_row_major(k, w, h);
        lemma_paint_image_len(buf, stride, height, bpp, pixels, w, h, xo, yo, (n - 1) as nat);
        lemma_paint_image_outside(buf, stride, height, bpp, pixels, w, h, xo, yo, (n - 1) as nat, j);
        lemma_writable_below(stride, height, bpp, k % w + xo, k / w + yo, xo + w - 1, yo + h - 1);
        lemma_writable_in_buffer(stride, height, bpp, k % w + xo, k / w + yo);
        let idx = byte_index(stride, bpp, k % w + xo, k / w + yo);
        assert(j < idx || j >= idx + 3);
    }
}

/// Drawing an image changes no byte outside the three-byte color windows of its
/// pixels: the rest of the surface, a fourth byte of each pixel included, stays
/// as it was.
pub proof fn lemma_image_outside_unchanged(f: FrameView, w: int, h: int, pixels: Map<(u32, u32), (u8, u8, u8)>, j: int)
    requires
        f.buffer.len() == f.width * f.height,
        drawn_image(f, w, h, pixels) is Ok,
        w >= 0,
        h >= 0,
        0 <= j < f.buffer.len(),
        outside_image(
            j,
            f.width as int,
            f.bytes_per_pixel as int,
            w,
            h,
            placed_x(f, w)->Some_0,
            placed_y(f, h)->Some_0,
        ),
    ensures
        drawn_image(f, w, h, pixels)->Ok_0.len() == f.buffer.len(),
        drawn_image(f, w, h, pixels)->Ok_0[j] == f.buffer[j],
{
    let xo = placed_x(f, w)->Some_0;
    let yo = placed_y(f, h)->Some_0;
    if w > 0 && h > 0 {
        lemma_paint_image_len(f.buffer, f.width as int, f.height as int, f.bytes_per_pixel as int, pixels, w, h, xo, yo, (w * h) as nat);
        lemma_paint_image_outside(
            f.buffer,
            f.width as int,
            f.height as int,
            f.bytes_per_pixel as int,
            pixels,
            w,
            h,
            xo,
            yo,
            (w * h) as nat,
            j,
        );
    } else {
        assert(w * h == 0) by (nonlinear_arith)
            requires
                w == 0 || h == 0;
    }
}

impl Frame {
    /// The frame is laid out as its geometry says.
    pub open spec fn wf(&self) -> bool {
        self@.buffer.len() == self@.width * self@.height
    }

    /// A zero-filled frame of `height` rows of `width` bytes each.
    pub fn new(
        xoffset: Option<u32>,
        yoffset: Option<u32>,
        width: u32,
        height: u32,
        bytes_per_pixel: u32,
    ) -> (r: Self)
        requires
            width * height <= usize::MAX,
        ensures
            r.wf(),
            r@.buffer == Seq::new((width * height) as nat, |i: int| 0u8),
            r@.xoffset == xoffset,
            r@.yoffset == yoffset,
            r@.width == width,
            r@.height == height,
            r@.bytes_per_pixel == bytes_per_pixel,
    {
        let len: usize = ((width as u128) * (height as u128)) as usize;
        let buffer = vec![0u8; len];
        proof {
            assert(buffer@ =~= Seq::new((width * height) as nat, |i: int| 0u8));
        }
        Self { buffer, xoffset, yoffset, width, height, bytes_per_pixel }
    }

    /// The bytes of the frame, ready to be copied to the device.
    pub fn buffer(&self) -> (r: &Vec<u8>)
        ensures
            r@ == self@.buffer,
    {
        &self.buffer
    }

    /// Row stride in bytes.
    pub fn width(&self) -> (r: u32)
        ensures
            r == self@.width,
    {
        self.width
    }

    /// Number of rows.
    pub fn height(&self) -> (r: u32)
        ensures
            r == self@.height,
    {
        self.height
    }

    /// Bytes taken by one pixel.
    pub fn bytes_per_pixel(&self) -> (r: u32)
        ensures
            r == self@.bytes_per_pixel,
    {
        self.bytes_per_pixel
    }

    fn put(&mut self, idx: usize, c: Color)
        requires
            idx + 3 <= old(self)@.buffer.len(),
        ensures
            final(self)@ == (FrameView { buffer: put_color(old(self)@.buffer, idx as int, rgb(c)), ..old(self)@ }),
    {
        let n = self.buffer.len();
        assert(idx + 3 <= n);
        self.buffer.set(idx, c.2);
        self.buffer.set(idx + 1, c.1);
        self.buffer.set(idx + 2, c.0);
    }

    /// Horizontal placement of a `w`-wide image.
    fn x_for(&self, w: u32) -> (r: Option<u32>)
        ensures
            match placed_x(self@, w as int) {
                Some(o) => r == Some(o as u32),
                None => r.is_none(),
            },
    {
        match self.xoffset {
            Some(o) => Some(o),
            None => {
                if self.bytes_per_pixel > 0 && (self.width / self.bytes_per_pixel) / 2 >= w / 2 {
                    Some((self.width / self.bytes_per_pixel) / 2 - w / 2)
                } else {
                    None
                }
            },
        }
    }

    /// Vertical placement of an `h`-high image.
    fn y_for(&self, h: u32) -> (r: Option<u32>)
        ensures
            match placed_y(self@, h as int) {
                Some(o) => r == Some(o as u32),
                None => r.is_none(),
            },
    {
        match self.yoffset {
            Some(o) => Some(o),
            None => {
                if self.height / 2 >= h / 2 {
                    Some(self.height / 2 - h / 2)
                } else {
                    None
                }
            },
        }
    }

    /// Copies `img` into the frame at its explicit offset, or centered where none
    /// was given. Refused, with the frame unchanged, where the image has more than
    /// `u32::MAX` pixels or any pixel would fall outside the surface.
    pub fn draw_image(&mut self, img: &bmp::Image) -> (r: Result<(), FrameError>)
        requires
            old(self).wf(),
        ensures
            final(self).wf(),
            match drawn_image(old(self)@, image_width(*img) as int, image_height(*img) as int, image_pixels(*img)) {
                Ok(buf) => r is Ok && final(self)@ == (FrameView { buffer: buf, ..old(self)@ }),
                Err(e) => r == Err::<(), FrameError>(e) && final(self)@ == old(self)@,
            },
    {
        let w = image_width_of(img);
        let h = image_height_of(img);
        proof {
            lemma_mul_le(w as int, h as int, 0xffff_ffff, 0xffff_ffff);
        }
        if (w as u64) * (h as u64) > 0xffff_ffff {
            return Err(FrameError::ImageTooLarge);
        }
        let xo = match self.x_for(w) {
            Some(o) => o,
            None => return Err(FrameError::OutOfBoundsWrite),
        };
        let yo = match self.y_for(h) {
            Some(o) => o,
            None => return Err(FrameError::OutOfBoundsWrite),
        };
        if w == 0 || h == 0 {
            proof {
                assert(w * h == 0) by (nonlinear_arith)
                    requires
                        w == 0 || h == 0;
            }
            return Ok(());
        }
        proof {
            lemma_mul_le(xo + w - 1, self.bytes_per_pixel as int, 0x1_ffff_fffe, 0xffff_ffff);
        }
        let fits = (yo as u128) + (h as u128) <= (self.height as u128)
            && ((xo as u128) + (w as u128) - 1) * (self.bytes_per_pixel as u128) + 3 <= (self.width as u128);
        if !fits {
            return Err(FrameError::OutOfBoundsWrite);
        }
        let ghost f0 = self@;
        let ghost pixels = image_pixels(*img);
        proof {
            lemma_mul_le(w as int, h as int, 0xffff_ffff, 0xffff_ffff);
        }
        let total: u64 = (w as u64) * (h as u64);
        let mut k: u64 = 0;
        while k < total
            invariant
                0 <= k <= total,
                total == w * h,
                w > 0,
                self.wf(),
                self@ == (FrameView {
                    buffer: paint_image(f0.buffer, f0.width as int, f0.bytes_per_pixel as int, pixels, w as int, xo as int, yo as int, k as nat),
                    ..f0
                }),
                f0.buffer.len() == f0.width * f0.height,
                image_fits(f0, w as int, h as int, xo as int, yo as int),
                pixels == image_pixels(*img),
                w == image_width(*img),
                h == image_height(*img),
                w * h <= u32::MAX,
            decreases total - k,
        {
            proof {
                lemma_row_major(k as int, w as int, h as int);
            }
            let x: u32 = (k % (w as u64)) as u32;
            let y: u32 = (k / (w as u64)) as u32;
            let blen = self.buffer.len();
            proof {
                lemma_writable_below(
                    f0.width as int,
                    f0.height as int,
                    f0.bytes_per_pixel as int,
                    x + xo,
                    y + yo,
                    xo + w - 1,
                    yo + h - 1,
                );
                lemma_writable_in_buffer(f0.width as int, f0.height as int, f0.bytes_per_pixel as int, x + xo, y + yo);
            }
            proof {
                lemma_mul_le(y + yo, f0.width as int, 0x1_ffff_fffe, 0xffff_ffff);
                lemma_mul_le(x + xo, f0.bytes_per_pixel as int, 0x1_ffff_fffe, 0xffff_ffff);
            }
            let c = image_pixel(img, x, y);
            proof {
                assert(byte_index(f0.width as int, f0.bytes_per_pixel as int, x + xo, y + yo) + 3 <= blen);
            }
            let idx: u128 = ((y as u128) + (yo as u128)) * (self.width as u128)
                + ((x as u128) + (xo as u128)) * (self.bytes_per_pixel as u128);
            self.put(idx as usize, c);
            k = k + 1;
        }
        Ok(())
    }

    /// Sets every point of `shape`, shifted by the frame's explicit offset (0 on an
    /// axis without one), to its color, in order: a later point wins over an
    /// earlier one at the same place. Refused, with the frame unchanged, where a
    /// point lies outside the surface.
    pub fn draw(&mut self, shape: Shape) -> (r: Result<(), FrameError>)
        requires
            old(self).wf(),
        ensures
            final(self).wf(),
            shape_fits(old(self)@, shape.pixels@) ==> r is Ok && final(self)@ == (FrameView {
                buffer: paint_pixels(
                    old(self)@.buffer,
                    old(self)@.width as int,
                    old(self)@.bytes_per_pixel as int,
                    shape_offset(old(self)@.xoffset),
                    shape_offset(old(self)@.yoffset),
                    shape.pixels@,
                ),
                ..old(self)@
            }),
            !shape_fits(old(self)@, shape.pixels@) ==> r == Err::<(), FrameError>(FrameError::OutOfBoundsWrite)
                && final(self)@ == old(self)@,
    {
        let px = &shape.pixels;
        let xo: u32 = match self.xoffset {
            Some(o) => o,
            None => 0,
        };
        let yo: u32 = match self.yoffset {
            Some(o) => o,
            None => 0,
        };
        let mut i: usize = 0;
        while i < px.len()
            invariant
                0 <= i <= px.len(),
                self.wf(),
                self@ == old(self)@,
                px@ == shape.pixels@,
                xo == shape_offset(self@.xoffset),
                yo == shape_offset(self@.yoffset),
                forall|j: int| 0 <= j < i ==> #[trigger] writable(
                    self@.width as int,
                    self@.height as int,
                    self@.bytes_per_pixel as int,
                    px@[j].0.0 + xo,
                    px@[j].0.1 + yo,
                ),
            decreases px.len() - i,
        {
            let p = px[i];
            proof {
                lemma_mul_le(p.0.0 + xo, self@.bytes_per_pixel as int, 0x1_ffff_fffe, 0xffff_ffff);
            }
            let ok = (p.0.1 as u128) + (yo as u128) < (self.height as u128)
                && ((p.0.0 as u128) + (xo as u128)) * (self.bytes_per_pixel as u128) + 3 <= (self.width as u128);
            if !ok {
                proof {
                    assert(!writable(
                        self@.width as int,
                        self@.height as int,
                        self@.bytes_per_pixel as int,
                        px@[i as int].0.0 + xo,
                        px@[i as int].0.1 + yo,
                    ));
                }
                return Err(FrameError::OutOfBoundsWrite);
            }
            i = i + 1;
        }
        let ghost f0 = self@;
        let mut i: usize = 0;
        while i < px.len()
            invariant
                0 <= i <= px.len(),
                shape_fits(f0, px@),
                f0.buffer.len() == f0.width * f0.height,
                xo == shape_offset(f0.xoffset),
                yo == shape_offset(f0.yoffset),
                self.wf(),
                self@ == (FrameView {
                    buffer: paint_pixels(f0.buffer, f0.width as int, f0.bytes_per_pixel as int, xo as int, yo as int, px@.take(i as int)),
                    ..f0
                }),
            decreases px.len() - i,
        {
            let p = px[i];
            let blen = self.buffer.len();
            proof {
                assert(writable(f0.width as int, f0.height as int, f0.bytes_per_pixel as int, px@[i as int].0.0 + xo, px@[i as int].0.1 + yo));
                lemma_writable_in_buffer(f0.width as int, f0.height as int, f0.bytes_per_pixel as int, p.0.0 + xo, p.0.1 + yo);
                lemma_mul_le(p.0.1 + yo, f0.width as int, 0x1_ffff_fffe, 0xffff_ffff);
                lemma_mul_le(p.0.0 + xo, f0.bytes_per_pixel as int, 0x1_ffff_fffe, 0xffff_ffff);
                assert(px@.take(i + 1).drop_last() =~= px@.take(i as int));
                assert(byte_index(f0.width as int, f0.bytes_per_pixel as int, p.0.0 + xo, p.0.1 + yo) + 3 <= blen);
            }
            let idx: u128 = ((p.0.1 as u128) + (yo as u128)) * (self.width as u128)
                + ((p.0.0 as u128) + (xo as u128)) * (self.bytes_per_pixel as u128);
            self.put(idx as usize, p.1);
            i = i + 1;
        }
        proof {
            assert(px@.take(px@.len() as int) =~= px@);
        }
        Ok(())
    }
}

} // verus!
