//! Pixel-level rendering: the integer alpha-compositing math, pixel draw
//! commands, cameras, and the render hook that owns the presentable
//! backbuffer and performs blits, captures and copies.

use vstd::prelude::*;

use vstd::arithmetic::div_mod::{
    lemma_div_is_ordered, lemma_fundamental_div_mod, lemma_fundamental_div_mod_converse,
    lemma_mod_pos_bound,
};

use crate::object::Object;
use crate::shared::{cell_coord, clamp_spec, Point, Size, BPP};
use crate::sprite::{range_premultiplied, range_wf, valid_size, PixelRange, Sprite};

verus! {

/// A named rectangular viewport into the logical display buffer.
#[derive(Clone, Copy, Debug)]
pub struct Camera {
    pub point: Point,
    pub camera_size: Size,
}

impl Camera {
    /// The camera every slot of the camera table starts with: a 1 by 1
    /// viewport at the origin.
    pub fn default() -> (c: Camera)
        ensures
            c.camera_size == (Size { width: 1usize, height: 1usize }),
            c.point == (Point { x: 0i64, y: 0i64 }),
    {
        Camera { camera_size: Size::is(1, 1), point: Point { x: 0, y: 0 } }
    }
}

/// The reference formula of the fast division: an approximation of
/// v / 255 using only additions and halvings by 256.
pub open spec fn fast_divide_spec(v: int) -> int {
    ((v + 128) + (v + 128) / 256) / 256
}

/// Approximate division by 255 using shifts and additions, bit-exact to
/// the reference formula.
pub fn fast_divide(value: u16) -> (r: u8)
    requires
        value <= 65025,
    ensures
        r == fast_divide_spec(value as int),
{
    let w: u16 = value + 128;
    let t: u16 = w >> 8;
    proof {
        assert(w >> 8 == w / 256) by (bit_vector);
        assert(w <= 65153 ==> w / 256 <= 254) by (bit_vector);
    }
    let s: u16 = w + t;
    let r16: u16 = s >> 8;
    proof {
        assert(s >> 8 == s / 256) by (bit_vector);
        assert(s <= 65407 ==> s / 256 <= 255) by (bit_vector);
    }
    r16 as u8
}

/// The fast division computes exactly the rounded quotient v / 255
/// (rounding half up), for every input the compositor can produce.
pub proof fn lemma_fast_divide_rounds(v: int)
    requires
        0 <= v <= 65025,
    ensures
        fast_divide_spec(v) == (2 * v + 255) / 510,
{
    let w = v + 128;
    lemma_fundamental_div_mod(w, 256);
    lemma_mod_pos_bound(w, 256);
    let a = w / 256;
    let b = w % 256;
    lemma_fundamental_div_mod_converse(65153, 256, 254, 129);
    lemma_div_is_ordered(w, 65153, 256);
    lemma_fundamental_div_mod_converse(128, 256, 0, 128);
    lemma_div_is_ordered(128, w, 256);
    assert(0 <= a <= 254);
    if a + b < 256 {
        lemma_fundamental_div_mod_converse(w + a, 256, a, a + b);
        lemma_fundamental_div_mod_converse(2 * v + 255, 510, a, 2 * a + 2 * b - 1);
    } else {
        lemma_fundamental_div_mod_converse(w + a, 256, a + 1, a + b - 256);
        lemma_fundamental_div_mod_converse(2 * v + 255, 510, a + 1, 2 * a + 2 * b - 511);
    }
}

/// The fast division is monotone in its argument.
pub proof fn lemma_fast_divide_monotone(v1: int, v2: int)
    requires
        0 <= v1 <= v2,
    ensures
        fast_divide_spec(v1) <= fast_divide_spec(v2),
{
    lemma_div_is_ordered(v1 + 128, v2 + 128, 256);
    lemma_div_is_ordered((v1 + 128) + (v1 + 128) / 256, (v2 + 128) + (v2 + 128) / 256, 256);
}

/// Dividing an exact multiple of 255 is exact: fast_divide(255 * c) == c.
pub proof fn lemma_fast_divide_multiple(c: int)
    requires
        0 <= c <= 255,
    ensures
        fast_divide_spec(255 * c) == c,
{
    lemma_fast_divide_rounds(255 * c);
    lemma_fundamental_div_mod_converse(2 * (255 * c) + 255, 510, c, 255);
}

/// The fast division stays within a byte on its whole input range.
pub proof fn lemma_fast_divide_bounds(v: int)
    requires
        0 <= v <= 65025,
    ensures
        0 <= fast_divide_spec(v) <= 255,
{
    lemma_fast_divide_monotone(0, v);
    lemma_fast_divide_monotone(v, 65025);
    lemma_fast_divide_rounds(0);
    lemma_fast_divide_rounds(65025);
    lemma_fundamental_div_mod_converse(255, 510, 0, 255);
    lemma_fundamental_div_mod_converse(2int * 65025 + 255, 510, 255, 255);
}

/// One channel of source-over-destination compositing with a
/// premultiplied source: src + fast_divide(dst * (255 - src_alpha)).
pub open spec fn composite_channel(d: u8, s: u8, sa: u8) -> int {
    s + fast_divide_spec(d * (255 - sa))
}

/// Composites one premultiplied source pixel over a destination pixel,
/// channel by channel (alpha included).
pub fn composite(dst: [u8; 4], src: [u8; 4]) -> (r: [u8; 4])
    requires
        src[0] <= src[3],
        src[1] <= src[3],
        src[2] <= src[3],
    ensures
        r[0] == composite_channel(dst[0], src[0], src[3]),
        r[1] == composite_channel(dst[1], src[1], src[3]),
        r[2] == composite_channel(dst[2], src[2], src[3]),
        r[3] == composite_channel(dst[3], src[3], src[3]),
{
    let inv: u16 = 255 - (src[3] as u16);
    proof {
        lemma_composite_channel_bounds(dst[0], src[0], src[3]);
        lemma_composite_channel_bounds(dst[1], src[1], src[3]);
        lemma_composite_channel_bounds(dst[2], src[2], src[3]);
        lemma_composite_channel_bounds(dst[3], src[3], src[3]);
        lemma_byte_product_bounds(dst[0], inv as u8);
        lemma_byte_product_bounds(dst[1], inv as u8);
        lemma_byte_product_bounds(dst[2], inv as u8);
        lemma_byte_product_bounds(dst[3], inv as u8);
    }
    let r0: u8 = src[0] + fast_divide((dst[0] as u16) * inv);
    let r1: u8 = src[1] + fast_divide((dst[1] as u16) * inv);
    let r2: u8 = src[2] + fast_divide((dst[2] as u16) * inv);
    let r3: u8 = src[3] + fast_divide((dst[3] as u16) * inv);
    [r0, r1, r2, r3]
}

/// The product of two bytes stays within the fast division's domain.
pub proof fn lemma_byte_product_bounds(d: u8, m: u8)
    ensures
        0 <= d * m <= 65025,
{
    assert(0 <= (d as int) * (m as int) <= 255 * 255) by (nonlinear_arith)
        requires
            0 <= d <= 255,
            0 <= m <= 255,
    ;
}

/// A composited channel stays within a byte whenever the source channel
/// does not exceed the source alpha.
pub proof fn lemma_composite_channel_bounds(d: u8, s: u8, sa: u8)
    requires
        s <= sa,
    ensures
        0 <= composite_channel(d, s, sa) <= 255,
        fast_divide_spec(d * (255 - sa)) <= 255 - sa,
{
    assert(d * (255 - sa) <= 255 * (255 - sa)) by (nonlinear_arith)
        requires
            d <= 255,
            sa <= 255,
    ;
    assert(0 <= d * (255 - sa)) by (nonlinear_arith)
        requires
            d >= 0,
            sa <= 255,
    ;
    lemma_fast_divide_monotone(d * (255 - sa), 255 * (255 - sa));
    lemma_fast_divide_multiple(255 - sa);
    lemma_fast_divide_bounds(d * (255 - sa));
}

/// Law: compositing a fully transparent source (all channels zero) leaves
/// every destination channel unchanged.
pub proof fn lemma_composite_transparent(d: u8)
    ensures
        composite_channel(d, 0, 0) == d,
{
    lemma_fast_divide_multiple(d as int);
    assert(d * (255 - 0) == 255 * (d as int)) by (nonlinear_arith);
}

/// Law: compositing a fully opaque source replaces every destination
/// channel with the source channel.
pub proof fn lemma_composite_opaque(d: u8, s: u8)
    ensures
        composite_channel(d, s, 255) == s,
{
    assert(d * (255 - 255) == 0) by (nonlinear_arith);
    lemma_fundamental_div_mod_converse(128int, 256, 0, 128);
}

/// A single pixel draw command: a destination point, an RGBA color, and
/// whether it must be composited rather than copied.
#[derive(Clone, Copy, Debug)]
pub struct Pixel {
    pub point: Point,
    pub color: [u8; 4],
    pub translucent: bool,
}

/// What `with_color` builds: color premultiplied by its alpha and marked
/// translucent when alpha is not 255, stored untouched and opaque
/// otherwise.
pub open spec fn with_color_spec(point: Point, color: [u8; 4]) -> Pixel {
    if color[3] != 255 {
        Pixel {
            point,
            color: [
                fast_divide_spec(color[0] * color[3]) as u8,
                fast_divide_spec(color[1] * color[3]) as u8,
                fast_divide_spec(color[2] * color[3]) as u8,
                color[3],
            ],
            translucent: true,
        }
    } else {
        Pixel { point, color, translucent: false }
    }
}

impl Pixel {
    /// A translucent pixel always carries premultiplied color, so the
    /// compositor can never overflow.
    pub open spec fn wf(self) -> bool {
        self.translucent ==> self.color[0] <= self.color[3] && self.color[1] <= self.color[3]
            && self.color[2] <= self.color[3]
    }

    /// Builds a pixel command from a raw RGBA color, premultiplying the
    /// color channels by alpha once, at command creation time.
    pub fn with_color(point: Point, color: [u8; 4]) -> (p: Pixel)
        ensures
            p == with_color_spec(point, color),
            p.wf(),
    {
        if color[3] != 255 {
            let a: u16 = color[3] as u16;
            proof {
                lemma_premultiplied_channel(color[0], color[3]);
                lemma_premultiplied_channel(color[1], color[3]);
                lemma_premultiplied_channel(color[2], color[3]);
            }
            let r: u8 = fast_divide((color[0] as u16) * a);
            let g: u8 = fast_divide((color[1] as u16) * a);
            let b: u8 = fast_divide((color[2] as u16) * a);
            Pixel { point, color: [r, g, b, color[3]], translucent: true }
        } else {
            Pixel { point, color, translucent: false }
        }
    }
}

/// A premultiplied channel never exceeds its alpha.
pub proof fn lemma_premultiplied_channel(c: u8, a: u8)
    ensures
        0 <= fast_divide_spec(c * a) <= a,
        c * a <= 65025,
{
    assert(c * a <= 255 * (a as int)) by (nonlinear_arith)
        requires
            c <= 255,
            a >= 0,
    ;
    assert(0 <= c * a) by (nonlinear_arith)
        requires
            c >= 0,
            a >= 0,
    ;
    assert(255 * (a as int) <= 65025) by (nonlinear_arith)
        requires
            a <= 255,
    ;
    lemma_fast_divide_monotone(c * a, 255 * (a as int));
    lemma_fast_divide_multiple(a as int);
    lemma_fast_divide_bounds(c * a);
}

/// Something a screen can ask to have rendered at a point.
pub trait Renderable {
    fn render(&self, point: Point);
}

/// A sequence of n zero bytes: the content of a freshly cleared buffer.
pub open spec fn zero_seq(n: int) -> Seq<u8> {
    Seq::new(n as nat, |i: int| 0u8)
}

/// Allocates a zeroed byte buffer of the given length.
pub fn zero_vec(n: usize) -> (v: Vec<u8>)
    ensures
        v@ == zero_seq(n as int),
{
    let mut v: Vec<u8> = Vec::new();
    let mut i: usize = 0;
    while i < n
        invariant
            i <= n,
            v@ == zero_seq(i as int),
        decreases n - i,
    {
        v.push(0);
        i = i + 1;
        proof {
            assert(v@ =~= zero_seq(i as int));
        }
    }
    v
}

/// Owns the presentable backbuffer: the final RGBA bytes handed to the
/// presentation surface each frame, possibly camera-cropped.
pub struct RenderHook {
    pub render_size: Size,
    pub frame: Vec<u8>,
}

impl RenderHook {
    /// The backbuffer always holds exactly one RGBA byte quadruple per
    /// pixel of the current render size.
    pub open spec fn wf(self) -> bool {
        &&& valid_size(self.render_size)
        &&& self.frame@.len() == self.render_size.area() * 4
    }

    /// Builds a render hook with a zeroed backbuffer of the given size.
    pub fn create_render_hook(render_size: Size) -> (h: RenderHook)
        requires
            valid_size(render_size),
        ensures
            h.wf(),
            h.render_size == render_size,
            h.frame@ == zero_seq(render_size.area() * 4),
    {
        proof {
            lemma_buffer_len_fits(render_size);
        }
        let n: usize = render_size.pixels() * BPP;
        RenderHook { render_size, frame: zero_vec(n) }
    }

    /// Resizes the backbuffer for a new output size; the new buffer
    /// starts zeroed.
    pub fn change_size(&mut self, size: Size)
        requires
            valid_size(size),
        ensures
            final(self).wf(),
            final(self).render_size == size,
            final(self).frame@ == zero_seq(size.area() * 4),
    {
        proof {
            lemma_buffer_len_fits(size);
        }
        self.render_size = size;
        let n: usize = self.render_size.pixels() * BPP;
        self.frame = zero_vec(n);
    }

    /// Copies the logical framebuffer (cut to the current render size)
    /// into the backbuffer, for frames rendered without a camera.
    pub fn copy_buffer(&mut self, frame: &Vec<u8>)
        requires
            old(self).wf(),
            frame@.len() >= old(self).render_size.area() * 4,
        ensures
            final(self).wf(),
            final(self).render_size == old(self).render_size,
            final(self).frame@ == frame@.subrange(0, old(self).render_size.area() * 4),
    {
        proof {
            lemma_buffer_len_fits(self.render_size);
        }
        let n: usize = self.render_size.pixels() * BPP;
        let mut i: usize = 0;
        while i < n
            invariant
                i <= n,
                n == self.render_size.area() * 4,
                self.wf(),
                self.render_size == old(self).render_size,
                frame@.len() >= n,
                self.frame@.len() == n,
                forall|j: int| 0 <= j < i ==> self.frame@[j] == frame@[j],
            decreases n - i,
        {
            let b: u8 = frame[i];
            self.frame[i] = b;
            i = i + 1;
        }
        proof {
            assert(self.frame@ =~= frame@.subrange(0, old(self).render_size.area() * 4));
        }
    }
}

/// Byte offset a pixel command lands at: its cell coordinates clamped
/// into the buffer bounds, then linearized row-major at 4 bytes a pixel.
pub open spec fn pixel_index(p: Pixel, size: Size) -> int {
    let cx = clamp_spec(cell_coord(p.point.x as int), 0, size.width - 1);
    let cy = clamp_spec(cell_coord(p.point.y as int), 0, size.height - 1);
    cx * 4 + cy * size.width * 4
}

/// Effect of one pixel command on the logical framebuffer: four bytes
/// copied when opaque, four channels composited when translucent; a
/// zero-extent buffer absorbs the command.
pub open spec fn write_pixel_spec(buf: Seq<u8>, size: Size, p: Pixel) -> Seq<u8> {
    if size.width == 0 || size.height == 0 {
        buf
    } else {
        let idx = pixel_index(p, size);
        if p.translucent {
            buf.update(idx, composite_channel(buf[idx], p.color[0], p.color[3]) as u8).update(
                idx + 1,
                composite_channel(buf[idx + 1], p.color[1], p.color[3]) as u8,
            ).update(idx + 2, composite_channel(buf[idx + 2], p.color[2], p.color[3]) as u8).update(
                idx + 3,
                composite_channel(buf[idx + 3], p.color[3], p.color[3]) as u8,
            )
        } else {
            buf.update(idx, p.color[0]).update(idx + 1, p.color[1]).update(idx + 2, p.color[2])
                .update(idx + 3, p.color[3])
        }
    }
}

/// The framebuffer after the first n pixel commands, applied in order.
pub open spec fn write_pixels_spec(buf: Seq<u8>, size: Size, ps: Seq<Pixel>, n: int) -> Seq<u8>
    decreases n,
{
    if n <= 0 {
        buf
    } else {
        write_pixel_spec(write_pixels_spec(buf, size, ps, n - 1), size, ps[n - 1])
    }
}

/// Writing pixel commands never changes the framebuffer's length.
pub proof fn lemma_write_pixels_len(buf: Seq<u8>, size: Size, ps: Seq<Pixel>, n: int)
    requires
        valid_size(size),
        buf.len() == size.area() * 4,
    ensures
        write_pixels_spec(buf, size, ps, n).len() == buf.len(),
    decreases n,
{
    if n > 0 {
        lemma_write_pixels_len(buf, size, ps, n - 1);
        if size.width > 0 && size.height > 0 {
            lemma_pixel_index_bounds(ps[n - 1], size);
        }
    }
}

/// A clamped pixel index leaves room for four bytes inside the buffer.
pub proof fn lemma_pixel_index_bounds(p: Pixel, size: Size)
    requires
        valid_size(size),
        size.width >= 1,
        size.height >= 1,
    ensures
        0 <= pixel_index(p, size),
        pixel_index(p, size) + 4 <= size.area() * 4,
        pixel_index(p, size) == clamp_spec(cell_coord(p.point.x as int), 0, size.width - 1) * 4
            + clamp_spec(cell_coord(p.point.y as int), 0, size.height - 1) * size.width * 4,
{
    let cx = clamp_spec(cell_coord(p.point.x as int), 0, size.width - 1);
    let cy = clamp_spec(cell_coord(p.point.y as int), 0, size.height - 1);
    assert(0 <= cx * 4 + cy * size.width * 4 && cx * 4 + cy * size.width * 4 + 4 <= size.width
        * size.height * 4) by (nonlinear_arith)
        requires
            0 <= cx <= size.width - 1,
            0 <= cy <= size.height - 1,
            1 <= size.width,
            1 <= size.height,
    ;
}

impl RenderHook {
    /// Drains the pixel command queue into the logical framebuffer: each
    /// command is clamped into bounds and either copied (opaque) or
    /// composited (translucent), in queue order.
    pub fn buffer_pixels(
        &mut self,
        display_buffer: &mut Vec<u8>,
        display_size: Size,
        pixel_buffer: &mut Vec<Pixel>,
    )
        requires
            valid_size(display_size),
            old(display_buffer)@.len() == display_size.area() * 4,
            forall|i: int| 0 <= i < old(pixel_buffer)@.len() ==> (#[trigger] old(
                pixel_buffer,
            )@[i]).wf(),
        ensures
            *final(self) == *old(self),
            final(display_buffer)@ == write_pixels_spec(
                old(display_buffer)@,
                display_size,
                old(pixel_buffer)@,
                old(pixel_buffer)@.len() as int,
            ),
            final(pixel_buffer)@.len() == 0,
    {
        let ghost orig: Seq<u8> = display_buffer@;
        let ghost pixels: Seq<Pixel> = pixel_buffer@;
        let n: usize = pixel_buffer.len();
        let mut i: usize = 0;
        while i < n
            invariant
                i <= n,
                n == pixels.len(),
                pixel_buffer@ == pixels,
                forall|j: int| 0 <= j < pixels.len() ==> (#[trigger] pixels[j]).wf(),
                valid_size(display_size),
                display_buffer@.len() == display_size.area() * 4,
                display_buffer@ == write_pixels_spec(orig, display_size, pixels, i as int),
            decreases n - i,
        {
            let p: Pixel = pixel_buffer[i];
            let ghost prev: Seq<u8> = display_buffer@;
            if display_size.width > 0 && display_size.height > 0 {
                proof {
                    lemma_pixel_index_bounds(p, display_size);
                    lemma_buffer_len_fits(display_size);
                }
                let cxi: i64 = p.point.cell_x();
                let cyi: i64 = p.point.cell_y();
                let w1: i64 = (display_size.width - 1) as i64;
                let h1: i64 = (display_size.height - 1) as i64;
                let cx: usize = if cxi < 0 {
                    0
                } else if cxi > w1 {
                    display_size.width - 1
                } else {
                    cxi as usize
                };
                let cy: usize = if cyi < 0 {
                    0
                } else if cyi > h1 {
                    display_size.height - 1
                } else {
                    cyi as usize
                };
                let idx: usize = cx * BPP + cy * display_size.width * BPP;
                proof {
                    assert(idx == pixel_index(p, display_size));
                }
                if p.translucent {
                    let d: [u8; 4] = [
                        display_buffer[idx],
                        display_buffer[idx + 1],
                        display_buffer[idx + 2],
                        display_buffer[idx + 3],
                    ];
                    let out: [u8; 4] = composite(d, p.color);
                    display_buffer[idx] = out[0];
                    display_buffer[idx + 1] = out[1];
                    display_buffer[idx + 2] = out[2];
                    display_buffer[idx + 3] = out[3];
                } else {
                    display_buffer[idx] = p.color[0];
                    display_buffer[idx + 1] = p.color[1];
                    display_buffer[idx + 2] = p.color[2];
                    display_buffer[idx + 3] = p.color[3];
                }
            }
            proof {
                assert(display_buffer@ =~= write_pixel_spec(prev, display_size, p));
            }
            i = i + 1;
        }
        pixel_buffer.clear();
    }
}

/// First destination byte of a pixel run, given the object's base offset
/// and the destination row stride in bytes.
pub open spec fn range_dest(base: int, stride: int, r: PixelRange) -> int {
    base + stride * r.line + r.x_begin
}

/// Length of a pixel run in bytes.
pub open spec fn range_len(r: PixelRange) -> int {
    r.x_end - r.x_begin
}

/// Effect of one solid run: a straight byte copy from the sprite data
/// onto the destination span.
pub open spec fn blit_solid_spec(
    buf: Seq<u8>,
    data: Seq<u8>,
    base: int,
    stride: int,
    r: PixelRange,
) -> Seq<u8> {
    Seq::new(
        buf.len(),
        |i: int|
            {
                let d = range_dest(base, stride, r);
                if d <= i < d + range_len(r) {
                    data[r.src_index + (i - d)]
                } else {
                    buf[i]
                }
            },
    )
}

/// Effect of one translucent run: every 4-byte chunk of the source is
/// composited over the destination chunk in lockstep.
pub open spec fn blit_translucent_spec(
    buf: Seq<u8>,
    data: Seq<u8>,
    base: int,
    stride: int,
    r: PixelRange,
) -> Seq<u8> {
    Seq::new(
        buf.len(),
        |i: int|
            {
                let d = range_dest(base, stride, r);
                if d <= i < d + range_len(r) {
                    let off = i - d;
                    let sa = data[r.src_index + 4 * (off / 4) + 3];
                    composite_channel(buf[i], data[r.src_index + off], sa) as u8
                } else {
                    buf[i]
                }
            },
    )
}

/// The buffer after the first n solid runs.
pub open spec fn blit_solid_upto(
    buf: Seq<u8>,
    data: Seq<u8>,
    base: int,
    stride: int,
    ranges: Seq<PixelRange>,
    n: int,
) -> Seq<u8>
    decreases n,
{
    if n <= 0 {
        buf
    } else {
        blit_solid_spec(blit_solid_upto(buf, data, base, stride, ranges, n - 1), data, base, stride, ranges[n - 1])
    }
}

/// The buffer after the first n translucent runs.
pub open spec fn blit_translucent_upto(
    buf: Seq<u8>,
    data: Seq<u8>,
    base: int,
    stride: int,
    ranges: Seq<PixelRange>,
    n: int,
) -> Seq<u8>
    decreases n,
{
    if n <= 0 {
        buf
    } else {
        blit_translucent_spec(blit_translucent_upto(buf, data, base, stride, ranges, n - 1), data, base, stride, ranges[n - 1])
    }
}

/// Full two-pass blit of a sprite: all solid runs copied first, then all
/// translucent runs composited.
pub open spec fn blit_object_spec(buf: Seq<u8>, sprite: Sprite, base: int, stride: int) -> Seq<u8> {
    blit_translucent_upto(
        blit_solid_upto(buf, sprite.data@, base, stride, sprite.solid_ranges@, sprite.solid_ranges@.len() as int),
        sprite.data@,
        base,
        stride,
        sprite.translucent_ranges@,
        sprite.translucent_ranges@.len() as int,
    )
}

/// Destination column cell of an object: its x coordinate truncated to a
/// cell and saturated below at zero.
pub open spec fn object_cell_x(o: Object) -> int {
    let c = cell_coord(o.point.x as int);
    if c < 0 {
        0
    } else {
        c
    }
}

/// Destination row cell of an object, saturated below at zero.
pub open spec fn object_cell_y(o: Object) -> int {
    let c = cell_coord(o.point.y as int);
    if c < 0 {
        0
    } else {
        c
    }
}

/// Byte offset of an object's top-left pixel in the framebuffer.
pub open spec fn object_base(o: Object, size: Size) -> int {
    object_cell_x(o) * 4 + object_cell_y(o) * size.width * 4
}

/// True when the object's sprite, placed at the object's cell, lies
/// entirely inside a buffer of the given size.
pub open spec fn object_fits(o: Object, size: Size) -> bool {
    &&& object_cell_x(o) + o.sprite.size.width <= size.width
    &&& object_cell_y(o) + o.sprite.size.height <= size.height
}

/// A well-formed run of a fitting object stays inside the buffer.
pub proof fn lemma_blit_bounds(o: Object, size: Size, r: PixelRange)
    requires
        valid_size(size),
        valid_size(o.sprite.size),
        object_fits(o, size),
        range_wf(r, o.sprite.data@.len() as int, o.sprite.size),
    ensures
        0 <= range_dest(object_base(o, size), size.width * 4, r),
        range_dest(object_base(o, size), size.width * 4, r) + range_len(r) <= size.area() * 4,
{
    let cx = object_cell_x(o);
    let cy = object_cell_y(o);
    let sw = o.sprite.size.width as int;
    let sh = o.sprite.size.height as int;
    let w = size.width as int;
    let h = size.height as int;
    let line = r.line as int;
    let xb = r.x_begin as int;
    let xe = r.x_end as int;
    assert(0 <= cx * 4 + (cy * w) * 4 + (w * 4) * line + xb && cx * 4 + (cy * w) * 4 + (w * 4)
        * line + xe <= w * h * 4 && cx * 4 + (cy * w) * 4 + (w * 4) * line == cx * 4 + cy * (w * 4)
        + (w * 4) * line) by (nonlinear_arith)
        requires
            0 <= cx,
            0 <= cy,
            cx + sw <= w,
            cy + sh <= h,
            0 <= line < sh,
            0 <= xb <= xe <= sw * 4,
            0 <= w,
            0 <= h,
    ;
}

/// The byte offset of an object's top-left pixel is nonnegative and
/// within one row's width of the buffer size.
pub proof fn lemma_object_base_arith(o: Object, size: Size)
    requires
        valid_size(size),
        object_fits(o, size),
    ensures
        0 <= object_cell_x(o) <= size.width,
        0 <= object_cell_y(o) <= size.height,
        object_base(o, size) == object_cell_x(o) * 4 + object_cell_y(o) * (size.width * 4),
        0 <= object_base(o, size) <= size.area() * 4 + size.width * 4,
{
    let cx = object_cell_x(o);
    let cy = object_cell_y(o);
    let w = size.width as int;
    let h = size.height as int;
    assert(cx * 4 + (cy * w) * 4 == cx * 4 + cy * (w * 4) && cx * 4 + (cy * w) * 4 <= w * h * 4 + w
        * 4) by (nonlinear_arith)
        requires
            0 <= cx <= w,
            0 <= cy <= h,
            0 <= w,
            0 <= h,
    ;
}

impl RenderHook {
    /// Blits an object's sprite into the logical framebuffer: one pass of
    /// straight copies for the solid runs, one pass of per-chunk alpha
    /// compositing for the translucent runs.
    #[verifier::loop_isolation(false)]
    #[verifier::rlimit(80)]
    pub fn buffer_object(&self, object: &Object, display_buffer: &mut Vec<u8>, render_size: &Size)
        requires
            object.sprite.wf(),
            valid_size(*render_size),
            old(display_buffer)@.len() == render_size.area() * 4,
            object_fits(*object, *render_size),
        ensures
            final(display_buffer)@ == blit_object_spec(
                old(display_buffer)@,
                object.sprite,
                object_base(*object, *render_size),
                render_size.width * 4,
            ),
            final(display_buffer)@.len() == old(display_buffer)@.len(),
    {
        proof {
            lemma_buffer_len_fits(*render_size);
            lemma_object_base_arith(*object, *render_size);
        }
        let cxi: i64 = object.point.cell_x();
        let cyi: i64 = object.point.cell_y();
        let x: usize = if cxi < 0 {
            0
        } else {
            cxi as usize
        };
        let y: usize = if cyi < 0 {
            0
        } else {
            cyi as usize
        };
        let y_bytes: usize = render_size.width * BPP;
        let index: usize = x * BPP + y * y_bytes;
        proof {
            assert(x == object_cell_x(*object));
            assert(y == object_cell_y(*object));
            assert(index == object_base(*object, *render_size));
        }
        let ghost base: int = object_base(*object, *render_size);
        let ghost stride: int = render_size.width as int * 4;
        let ghost data: Seq<u8> = object.sprite.data@;
        let ghost after_solid: Seq<u8> = blit_solid_upto(
            old(display_buffer)@,
            data,
            base,
            stride,
            object.sprite.solid_ranges@,
            object.sprite.solid_ranges@.len() as int,
        );

        let mut j: usize = 0;
        while j < object.sprite.solid_ranges.len()
            invariant
                j <= object.sprite.solid_ranges@.len(),
                object.sprite.wf(),
                valid_size(*render_size),
                object_fits(*object, *render_size),
                base == object_base(*object, *render_size),
                stride == render_size.width as int * 4,
                data == object.sprite.data@,
                display_buffer@.len() == render_size.area() * 4,
                display_buffer@ == blit_solid_upto(
                    old(display_buffer)@,
                    data,
                    base,
                    stride,
                    object.sprite.solid_ranges@,
                    j as int,
                ),
            decreases object.sprite.solid_ranges@.len() - j,
        {
            let r: PixelRange = object.sprite.solid_ranges[j];
            proof {
                lemma_blit_bounds(*object, *render_size, r);
            }
            let dest: usize = index + y_bytes * r.line + r.x_begin;
            let len: usize = r.x_end - r.x_begin;
            proof {
                assert(dest == range_dest(base, stride, r)) by (nonlinear_arith)
                    requires
                        dest == index + y_bytes * r.line + r.x_begin,
                        index == base,
                        y_bytes == stride,
                        base + stride * r.line + r.x_begin == range_dest(base, stride, r),
                ;
            }
            let ghost prev: Seq<u8> = display_buffer@;
            let mut off: usize = 0;
            while off < len
                invariant
                    off <= len,
                    len == range_len(r),
                    dest == range_dest(base, stride, r),
                    0 <= dest,
                    dest + len <= display_buffer@.len(),
                    r.src_index + len <= data.len(),
                    data == object.sprite.data@,
                    display_buffer@.len() == prev.len(),
                    forall|i: int|
                        0 <= i < display_buffer@.len() && !(dest <= i < dest + off)
                            ==> display_buffer@[i] == prev[i],
                    forall|i: int|
                        dest <= i < dest + off ==> display_buffer@[i] == data[r.src_index + (i
                            - dest)],
                decreases len - off,
            {
                let b: u8 = object.sprite.data[r.src_index + off];
                display_buffer[dest + off] = b;
                off = off + 1;
            }
            proof {
                assert(display_buffer@ =~= blit_solid_spec(prev, data, base, stride, r));
            }
            j = j + 1;
        }

        let mut j: usize = 0;
        while j < object.sprite.translucent_ranges.len()
            invariant
                j <= object.sprite.translucent_ranges@.len(),
                object.sprite.wf(),
                valid_size(*render_size),
                object_fits(*object, *render_size),
                base == object_base(*object, *render_size),
                stride == render_size.width as int * 4,
                data == object.sprite.data@,
                display_buffer@.len() == render_size.area() * 4,
                after_solid == blit_solid_upto(
                    old(display_buffer)@,
                    data,
                    base,
                    stride,
                    object.sprite.solid_ranges@,
                    object.sprite.solid_ranges@.len() as int,
                ),
                display_buffer@ == blit_translucent_upto(
                    after_solid,
                    data,
                    base,
                    stride,
                    object.sprite.translucent_ranges@,
                    j as int,
                ),
            decreases object.sprite.translucent_ranges@.len() - j,
        {
            let r: PixelRange = object.sprite.translucent_ranges[j];
            proof {
                lemma_blit_bounds(*object, *render_size, r);
            }
            let dest: usize = index + y_bytes * r.line + r.x_begin;
            let len: usize = r.x_end - r.x_begin;
            proof {
                assert(dest == range_dest(base, stride, r)) by (nonlinear_arith)
                    requires
                        dest == index + y_bytes * r.line + r.x_begin,
                        index == base,
                        y_bytes == stride,
                        base + stride * r.line + r.x_begin == range_dest(base, stride, r),
                ;
            }
            let count: usize = len / 4;
            let ghost prev: Seq<u8> = display_buffer@;
            let mut k: usize = 0;
            while k < count
                invariant
                    k <= count,
                    count == range_len(r) / 4,
                    len == range_len(r),
                    len % 4 == 0,
                    dest == range_dest(base, stride, r),
                    0 <= dest,
                    dest + len <= display_buffer@.len(),
                    r.src_index % 4 == 0,
                    r.src_index + len <= data.len(),
                    range_premultiplied(r, data),
                    data == object.sprite.data@,
                    display_buffer@.len() == prev.len(),
                    forall|i: int|
                        0 <= i < display_buffer@.len() && !(dest <= i < dest + 4 * k)
                            ==> display_buffer@[i] == prev[i],
                    forall|i: int|
                        dest <= i < dest + 4 * k ==> display_buffer@[i] == (composite_channel(
                            prev[i],
                            data[r.src_index + (i - dest)],
                            data[r.src_index + 4 * ((i - dest) / 4) + 3],
                        ) as u8),
                decreases count - k,
            {
                let sbase: usize = r.src_index + 4 * k;
                let dbase: usize = dest + 4 * k;
                let s: [u8; 4] = [
                    object.sprite.data[sbase],
                    object.sprite.data[sbase + 1],
                    object.sprite.data[sbase + 2],
                    object.sprite.data[sbase + 3],
                ];
                let d: [u8; 4] = [
                    display_buffer[dbase],
                    display_buffer[dbase + 1],
                    display_buffer[dbase + 2],
                    display_buffer[dbase + 3],
                ];
                proof {
                    let kk = k as int;
                    assert(data[r.src_index + 4 * kk + 0] <= data[r.src_index + 4 * kk + 3]);
                    assert(data[r.src_index + 4 * kk + 1] <= data[r.src_index + 4 * kk + 3]);
                    assert(data[r.src_index + 4 * kk + 2] <= data[r.src_index + 4 * kk + 3]);
                }
                let out: [u8; 4] = composite(d, s);
                display_buffer[dbase] = out[0];
                display_buffer[dbase + 1] = out[1];
                display_buffer[dbase + 2] = out[2];
                display_buffer[dbase + 3] = out[3];
                proof {
                    let kk = k as int;
                    lemma_fundamental_div_mod_converse(4 * kk + 0, 4, kk, 0);
                    lemma_fundamental_div_mod_converse(4 * kk + 1, 4, kk, 1);
                    lemma_fundamental_div_mod_converse(4 * kk + 2, 4, kk, 2);
                    lemma_fundamental_div_mod_converse(4 * kk + 3, 4, kk, 3);
                    assert(display_buffer@[dest + 4 * kk + 0] == (composite_channel(
                        prev[dest + 4 * kk + 0],
                        data[r.src_index + (4 * kk + 0)],
                        data[r.src_index + 4 * ((4 * kk + 0) / 4) + 3],
                    ) as u8));
                    assert(display_buffer@[dest + 4 * kk + 1] == (composite_channel(
                        prev[dest + 4 * kk + 1],
                        data[r.src_index + (4 * kk + 1)],
                        data[r.src_index + 4 * ((4 * kk + 1) / 4) + 3],
                    ) as u8));
                    assert(display_buffer@[dest + 4 * kk + 2] == (composite_channel(
                        prev[dest + 4 * kk + 2],
                        data[r.src_index + (4 * kk + 2)],
                        data[r.src_index + 4 * ((4 * kk + 2) / 4) + 3],
                    ) as u8));
                    assert(display_buffer@[dest + 4 * kk + 3] == (composite_channel(
                        prev[dest + 4 * kk + 3],
                        data[r.src_index + (4 * kk + 3)],
                        data[r.src_index + 4 * ((4 * kk + 3) / 4) + 3],
                    ) as u8));
                }
                k = k + 1;
            }
            proof {
                assert(4 * (count as int) == len as int);
                assert(display_buffer@ =~= blit_translucent_spec(prev, data, base, stride, r)) by {
                    assert forall|i: int|
                        0 <= i < display_buffer@.len() implies display_buffer@[i]
                        == blit_translucent_spec(prev, data, base, stride, r)[i] by {
                        if dest <= i < dest + len {
                            assert(display_buffer@[i] == (composite_channel(
                                prev[i],
                                data[r.src_index + (i - dest)],
                                data[r.src_index + 4 * ((i - dest) / 4) + 3],
                            ) as u8));
                        }
                    }
                }
            }
            j = j + 1;
        }
    }

    /// Captures a camera's rectangle out of the logical framebuffer into
    /// the backbuffer, row by row.
    #[verifier::loop_isolation(false)]
    pub fn capture(&mut self, display_buffer: &Vec<u8>, display_size: &Size, camera: &Camera)
        requires
            old(self).wf(),
            valid_size(*display_size),
            display_buffer@.len() == display_size.area() * 4,
            old(self).render_size == camera.camera_size,
            camera_cell_x(*camera) + camera.camera_size.width <= display_size.width,
            camera_cell_y(*camera) + camera.camera_size.height <= display_size.height,
        ensures
            final(self).wf(),
            final(self).render_size == old(self).render_size,
            final(self).frame@ == capture_spec(display_buffer@, *display_size, *camera),
    {
        proof {
            lemma_buffer_len_fits(*display_size);
            lemma_buffer_len_fits(self.render_size);
        }
        let cxi: i64 = camera.point.cell_x();
        let cyi: i64 = camera.point.cell_y();
        let x: usize = if cxi < 0 {
            0
        } else {
            cxi as usize
        };
        let y: usize = if cyi < 0 {
            0
        } else {
            cyi as usize
        };
        let camera_width: usize = camera.camera_size.width * BPP;
        let camera_height: usize = camera.camera_size.height;
        let width: usize = display_size.width * BPP;
        let index: usize = x * BPP;
        let ghost disp: Seq<u8> = display_buffer@;
        let mut row: usize = 0;
        while row < camera_height
            invariant
                row <= camera_height,
                self.wf(),
                self.render_size == old(self).render_size,
                self.render_size == camera.camera_size,
                valid_size(*display_size),
                valid_size(camera.camera_size),
                x == camera_cell_x(*camera),
                y == camera_cell_y(*camera),
                x + camera.camera_size.width <= display_size.width,
                y + camera.camera_size.height <= display_size.height,
                camera_width == camera.camera_size.width * 4,
                camera_height == camera.camera_size.height,
                width == display_size.width * 4,
                index == x * 4,
                disp == display_buffer@,
                disp.len() == display_size.area() * 4,
                self.frame@.len() == camera.camera_size.area() * 4,
                forall|i: int|
                    0 <= i < row * camera_width ==> self.frame@[i] == capture_spec(
                        disp,
                        *display_size,
                        *camera,
                    )[i],
            decreases camera_height - row,
        {
            proof {
                lemma_capture_row_bounds(*display_size, *camera, row as int);
            }
            let src_row: usize = (y + row) * width + index;
            let dst_row: usize = row * camera_width;
            let mut col: usize = 0;
            while col < camera_width
                invariant
                    col <= camera_width,
                    row < camera_height,
                    self.wf(),
                    self.render_size == old(self).render_size,
                    self.render_size == camera.camera_size,
                    valid_size(*display_size),
                    valid_size(camera.camera_size),
                    x == camera_cell_x(*camera),
                    y == camera_cell_y(*camera),
                    x + camera.camera_size.width <= display_size.width,
                    y + camera.camera_size.height <= display_size.height,
                    camera_width == camera.camera_size.width * 4,
                    camera_height == camera.camera_size.height,
                    width == display_size.width * 4,
                    index == x * 4,
                    src_row == (y + row) * (display_size.width * 4) + x * 4,
                    dst_row == row * camera_width,
                    src_row + camera_width <= disp.len(),
                    dst_row + camera_width <= self.frame@.len(),
                    disp == display_buffer@,
                    disp.len() == display_size.area() * 4,
                    self.frame@.len() == camera.camera_size.area() * 4,
                    forall|i: int|
                        0 <= i < dst_row + col ==> self.frame@[i] == capture_spec(
                            disp,
                            *display_size,
                            *camera,
                        )[i],
                decreases camera_width - col,
            {
                let b: u8 = display_buffer[src_row + col];
                self.frame[dst_row + col] = b;
                proof {
                    lemma_capture_cell(*display_size, *camera, row as int, col as int);
                }
                col = col + 1;
            }
            proof {
                assert((row as int + 1) * (camera_width as int) == row * camera_width
                    + camera_width) by (nonlinear_arith);
            }
            row = row + 1;
        }
        proof {
            assert((camera_height as int) * (camera_width as int) == camera.camera_size.area() * 4)
                by (nonlinear_arith)
                requires
                    camera_width == camera.camera_size.width * 4,
                    camera_height == camera.camera_size.height,
            ;
            assert(self.frame@ =~= capture_spec(disp, *display_size, *camera));
        }
    }
}

/// Destination column cell of a camera, saturated below at zero.
pub open spec fn camera_cell_x(c: Camera) -> int {
    let v = cell_coord(c.point.x as int);
    if v < 0 {
        0
    } else {
        v
    }
}

/// Destination row cell of a camera, saturated below at zero.
pub open spec fn camera_cell_y(c: Camera) -> int {
    let v = cell_coord(c.point.y as int);
    if v < 0 {
        0
    } else {
        v
    }
}

/// Content of the backbuffer after capturing a camera rectangle: byte i
/// of the capture comes from the camera's rectangle in the framebuffer,
/// read row-major.
pub open spec fn capture_spec(disp: Seq<u8>, size: Size, cam: Camera) -> Seq<u8> {
    let cw4 = cam.camera_size.width * 4;
    Seq::new(
        (cam.camera_size.area() * 4) as nat,
        |i: int|
            disp[(camera_cell_y(cam) + i / cw4) * (size.width * 4) + camera_cell_x(cam) * 4 + (i
                % cw4)],
    )
}

/// Each row the capture reads lies inside the framebuffer.
proof fn lemma_capture_row_bounds(size: Size, cam: Camera, row: int)
    requires
        valid_size(size),
        valid_size(cam.camera_size),
        camera_cell_x(cam) + cam.camera_size.width <= size.width,
        camera_cell_y(cam) + cam.camera_size.height <= size.height,
        0 <= row < cam.camera_size.height,
    ensures
        0 <= (camera_cell_y(cam) + row) * (size.width * 4) + camera_cell_x(cam) * 4,
        (camera_cell_y(cam) + row) * (size.width * 4) + camera_cell_x(cam) * 4
            + cam.camera_size.width * 4 <= size.area() * 4,
        row * (cam.camera_size.width * 4) + cam.camera_size.width * 4 <= cam.camera_size.area()
            * 4,
{
    let cx = camera_cell_x(cam);
    let cy = camera_cell_y(cam);
    let w = size.width as int;
    let h = size.height as int;
    let cw = cam.camera_size.width as int;
    let ch = cam.camera_size.height as int;
    assert(0 <= (cy + row) * (w * 4) + cx * 4) by (nonlinear_arith)
        requires
            0 <= cx,
            0 <= cy,
            0 <= row,
            0 <= w,
    ;
    assert((cy + row) * (w * 4) + cx * 4 + cw * 4 <= w * h * 4) by (nonlinear_arith)
        requires
            0 <= cx,
            0 <= cy,
            cx + cw <= w,
            cy + ch <= h,
            0 <= row < ch,
            0 <= w,
    ;
    assert(row * (cw * 4) + cw * 4 <= cw * ch * 4) by (nonlinear_arith)
        requires
            0 <= row < ch,
            0 <= cw,
    ;
}

/// One captured byte matches the capture specification.
proof fn lemma_capture_cell(size: Size, cam: Camera, row: int, col: int)
    requires
        valid_size(size),
        valid_size(cam.camera_size),
        camera_cell_x(cam) + cam.camera_size.width <= size.width,
        camera_cell_y(cam) + cam.camera_size.height <= size.height,
        0 <= row < cam.camera_size.height,
        0 <= col < cam.camera_size.width * 4,
    ensures
        0 <= row * (cam.camera_size.width * 4) + col < cam.camera_size.area() * 4,
        (row * (cam.camera_size.width * 4) + col) / (cam.camera_size.width * 4) == row,
        (row * (cam.camera_size.width * 4) + col) % (cam.camera_size.width * 4) == col,
{
    let cw4 = cam.camera_size.width * 4;
    let ch = cam.camera_size.height as int;
    lemma_fundamental_div_mod_converse(row * cw4 + col, cw4, row, col);
    assert(0 <= row * cw4 + col && row * cw4 + col < cw4 * ch) by (nonlinear_arith)
        requires
            0 <= row < ch,
            0 <= col < cw4,
            4 <= cw4,
    ;
    assert(cw4 * ch == cam.camera_size.area() * 4) by (nonlinear_arith)
        requires
            cw4 == cam.camera_size.width * 4,
            ch == cam.camera_size.height,
    ;
}

/// A valid size's byte count, width * height * 4, fits comfortably in a
/// usize on every supported platform.
pub proof fn lemma_buffer_len_fits(s: Size)
    requires
        valid_size(s),
    ensures
        s.area() * 4 <= 0xFFFC0004,
        s.area() <= 0x3FFF0001,
        s.area() >= 0,
{
    assert(s.width * s.height <= 0x7FFF * 0x7FFF) by (nonlinear_arith)
        requires
            s.width <= 0x7FFF,
            s.height <= 0x7FFF,
    ;
    assert(s.width * s.height >= 0) by (nonlinear_arith);
}

} // verus!
