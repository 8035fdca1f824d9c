//! Sprite descriptors: immutable RGBA pixel data plus precomputed lists
//! of contiguous opaque and translucent pixel runs per scanline, so the
//! blitter never tests opacity per pixel.

use vstd::prelude::*;

use crate::renderer::{with_color_spec, Pixel};
use crate::shared::{Point, Size, BPP};
use vstd::arithmetic::div_mod::lemma_fundamental_div_mod_converse;

verus! {

/// Sizes the engine's buffers can take: small enough that the byte count
/// `width * height * 4` fits a 32-bit usize.
pub open spec fn valid_size(s: Size) -> bool {
    s.width <= 0x7FFF && s.height <= 0x7FFF
}

/// One maximal horizontal run of same-category pixels in a sprite row.
/// `src_index .. src_end_index` are byte offsets into the sprite data;
/// `x_begin .. x_end` are destination byte offsets within the row.
#[derive(Debug, Clone, Copy)]
pub struct PixelRange {
    pub line: usize,
    pub src_index: usize,
    pub src_end_index: usize,
    pub x_begin: usize,
    pub x_end: usize,
}

/// A run is well formed when it stays inside its row, inside the sprite
/// data, starts and ends on pixel boundaries, and its source and
/// destination spans have equal length.
pub open spec fn range_wf(r: PixelRange, data_len: int, size: Size) -> bool {
    &&& r.line < size.height
    &&& r.x_begin <= r.x_end <= size.width * BPP
    &&& r.x_begin % 4 == 0
    &&& r.x_end % 4 == 0
    &&& r.src_index <= r.src_end_index <= data_len
    &&& r.src_index % 4 == 0
    &&& r.src_end_index - r.src_index == r.x_end - r.x_begin
}

/// A translucent run must hold premultiplied color: every channel of a
/// pixel is at most its alpha, so compositing can never overflow a byte.
pub open spec fn range_premultiplied(r: PixelRange, data: Seq<u8>) -> bool {
    forall|k: int, c: int|
        0 <= k < (r.src_end_index - r.src_index) / 4 && 0 <= c < 3 ==> #[trigger] data[r.src_index
            + 4 * k + c] <= data[r.src_index + 4 * k + 3]
}

/// The premultiplied form of a color: what `Pixel::with_color` stores.
pub open spec fn premult_color(color: [u8; 4]) -> [u8; 4] {
    with_color_spec(Point { x: 0i64, y: 0i64 }, color).color
}

/// The single run covering one whole row of a filled sprite.
pub open spec fn filled_range(size: Size, l: int) -> PixelRange {
    PixelRange {
        line: l as usize,
        src_index: (l * (size.width * 4)) as usize,
        src_end_index: (l * (size.width * 4) + size.width * 4) as usize,
        x_begin: 0usize,
        x_end: (size.width * 4) as usize,
    }
}

/// A row-per-run range list over uniform premultiplied data is well
/// formed.
proof fn lemma_filled_ranges_wf(s: Sprite, color: [u8; 4], p: Pixel)
    requires
        valid_size(s.size),
        p == with_color_spec(Point { x: 0i64, y: 0i64 }, color),
        p.wf(),
        s.data@.len() == s.size.area() * 4,
        forall|j: int| 0 <= j < s.data@.len() ==> s.data@[j] == p.color[j % 4],
        color[3] == 255 ==> s.translucent_ranges@.len() == 0,
        color[3] != 255 ==> s.solid_ranges@.len() == 0,
        forall|j: int|
            0 <= j < s.solid_ranges@.len() ==> #[trigger] s.solid_ranges@[j] == (PixelRange {
                line: j as usize,
                src_index: (j * (s.size.width * 4)) as usize,
                src_end_index: (j * (s.size.width * 4) + s.size.width * 4) as usize,
                x_begin: 0usize,
                x_end: (s.size.width * 4) as usize,
            }),
        forall|j: int|
            0 <= j < s.translucent_ranges@.len() ==> #[trigger] s.translucent_ranges@[j]
                == (PixelRange {
                line: j as usize,
                src_index: (j * (s.size.width * 4)) as usize,
                src_end_index: (j * (s.size.width * 4) + s.size.width * 4) as usize,
                x_begin: 0usize,
                x_end: (s.size.width * 4) as usize,
            }),
        s.solid_ranges@.len() <= s.size.height,
        s.translucent_ranges@.len() <= s.size.height,
    ensures
        s.wf(),
{
    let sw = s.size.width as int;
    let h = s.size.height as int;
    assert forall|j: int| 0 <= j < s.solid_ranges@.len() implies range_wf(
        #[trigger] s.solid_ranges@[j],
        s.data@.len() as int,
        s.size,
    ) by {
        lemma_filled_range_wf_at(s, j, s.solid_ranges@[j]);
    }
    assert forall|j: int| 0 <= j < s.translucent_ranges@.len() implies range_wf(
        #[trigger] s.translucent_ranges@[j],
        s.data@.len() as int,
        s.size,
    ) by {
        lemma_filled_range_wf_at(s, j, s.translucent_ranges@[j]);
    }
    assert forall|j: int| 0 <= j < s.translucent_ranges@.len() implies range_premultiplied(
        #[trigger] s.translucent_ranges@[j],
        s.data@,
    ) by {
        let r = s.translucent_ranges@[j];
        lemma_filled_range_wf_at(s, j, r);
        lemma_fundamental_div_mod_converse(4 * (j * sw), 4, j * sw, 0);
        assert(4 * (j * sw) == j * (sw * 4)) by (nonlinear_arith);
        assert forall|k: int, c: int|
            0 <= k < (r.src_end_index - r.src_index) / 4 && 0 <= c < 3 implies #[trigger] s.data@[
        r.src_index + 4 * k + c] <= s.data@[r.src_index + 4 * k + 3] by {
            lemma_fundamental_div_mod_converse(4 * (sw as int), 4, sw, 0);
            assert(0 <= k < sw);
            assert(r.src_index + 4 * k + c == (j * sw + k) * 4 + c && r.src_index + 4 * k + 3 == (j
                * sw + k) * 4 + 3) by (nonlinear_arith)
                requires
                    r.src_index == j * (sw * 4),
            ;
            lemma_fundamental_div_mod_converse(r.src_index + 4 * k + c, 4, j * sw + k, c);
            lemma_fundamental_div_mod_converse(r.src_index + 4 * k + 3, 4, j * sw + k, 3);
            assert(0 <= r.src_index + 4 * k + 3 < s.data@.len()) by (nonlinear_arith)
                requires
                    0 <= k < sw,
                    0 <= j < h,
                    r.src_index == j * (sw * 4),
                    s.data@.len() == sw * h * 4,
            ;
            assert(s.data@[r.src_index + 4 * k + c] == p.color[c]);
            assert(s.data@[r.src_index + 4 * k + 3] == p.color[3]);
        }
    }
}

/// One row-per-run range of a filled sprite is well formed.
proof fn lemma_filled_range_wf_at(s: Sprite, j: int, r: PixelRange)
    requires
        valid_size(s.size),
        s.data@.len() == s.size.area() * 4,
        0 <= j < s.size.height,
        r == (PixelRange {
            line: j as usize,
            src_index: (j * (s.size.width * 4)) as usize,
            src_end_index: (j * (s.size.width * 4) + s.size.width * 4) as usize,
            x_begin: 0usize,
            x_end: (s.size.width * 4) as usize,
        }),
    ensures
        range_wf(r, s.data@.len() as int, s.size),
        r.src_index == j * (s.size.width * 4),
        (r.src_end_index - r.src_index) / 4 == s.size.width,
{
    let sw = s.size.width as int;
    let h = s.size.height as int;
    crate::renderer::lemma_buffer_len_fits(s.size);
    assert(0 <= j * (sw * 4) && j * (sw * 4) + sw * 4 <= h * (sw * 4)) by (nonlinear_arith)
        requires
            0 <= j < h,
            0 <= sw,
    ;
    assert(h * (sw * 4) == sw * h * 4) by (nonlinear_arith);
    assert(j * (sw * 4) == 4 * (j * sw)) by (nonlinear_arith);
    assert(s.data@.len() <= 0xFFFC0004);
    assert(r.src_index == j * (sw * 4));
    assert(r.src_end_index == j * (sw * 4) + sw * 4);
    assert(r.x_end == sw * 4);
    lemma_fundamental_div_mod_converse(4 * (j * sw), 4, j * sw, 0);
    lemma_fundamental_div_mod_converse(4 * (sw as int), 4, sw, 0);
    assert(sw * 4 == 4 * sw);
    lemma_fundamental_div_mod_converse(sw * 4, 4, sw, 0);
}

/// A bitmap with its pixel runs precomputed at authoring time. Shared by
/// value across every object that uses it.
#[derive(Clone, Debug)]
pub struct Sprite {
    pub data: Vec<u8>,
    pub size: Size,
    pub translucent_ranges: Vec<PixelRange>,
    pub solid_ranges: Vec<PixelRange>,
}

impl Sprite {
    /// Well-formedness: the size is within engine limits, and every run
    /// is valid; translucent runs additionally hold premultiplied color.
    pub open spec fn wf(self) -> bool {
        &&& valid_size(self.size)
        &&& forall|i: int|
            0 <= i < self.solid_ranges.len() ==> range_wf(
                #[trigger] self.solid_ranges[i],
                self.data.len() as int,
                self.size,
            )
        &&& forall|i: int|
            0 <= i < self.translucent_ranges.len() ==> range_wf(
                #[trigger] self.translucent_ranges[i],
                self.data.len() as int,
                self.size,
            )
        &&& forall|i: int|
            0 <= i < self.translucent_ranges.len() ==> range_premultiplied(
                #[trigger] self.translucent_ranges[i],
                self.data@,
            )
    }

    /// The empty sprite: zero extent, no data, no runs.
    pub fn empty() -> (s: Sprite)
        ensures
            s.wf(),
            s.size.width == 0,
            s.size.height == 0,
            s.data@.len() == 0,
            s.solid_ranges@.len() == 0,
            s.translucent_ranges@.len() == 0,
    {
        Sprite {
            data: Vec::new(),
            size: Size { width: 0, height: 0 },
            translucent_ranges: Vec::new(),
            solid_ranges: Vec::new(),
        }
    }

    /// Fills a sprite of the given size with one color, premultiplied
    /// once at authoring time; each row becomes a single pixel run,
    /// solid when the color is opaque and translucent otherwise.
    #[verifier::loop_isolation(false)]
    pub fn filled(size: Size, color: [u8; 4]) -> (s: Sprite)
        requires
            valid_size(size),
        ensures
            s.wf(),
            s.size == size,
            s.data@.len() == size.area() * 4,
            forall|j: int|
                0 <= j < s.data@.len() ==> s.data@[j] == premult_color(color)[j % 4],
            color[3] == 255 ==> s.solid_ranges@.len() == size.height
                && s.translucent_ranges@.len() == 0,
            color[3] != 255 ==> s.translucent_ranges@.len() == size.height
                && s.solid_ranges@.len() == 0,
            color[3] == 255 ==> forall|l: int|
                0 <= l < size.height ==> #[trigger] s.solid_ranges@[l] == filled_range(size, l),
            color[3] != 255 ==> forall|l: int|
                0 <= l < size.height ==> #[trigger] s.translucent_ranges@[l] == filled_range(
                    size,
                    l,
                ),
    {
        let p: Pixel = Pixel::with_color(Point { x: 0, y: 0 }, color);
        proof {
            crate::renderer::lemma_buffer_len_fits(size);
            assert(size.height * (size.width * 4) == size.area() * 4) by (nonlinear_arith);
        }
        let w4: usize = size.width * BPP;
        let count: usize = size.pixels();
        let mut data: Vec<u8> = Vec::new();
        let mut i: usize = 0;
        while i < count
            invariant
                i <= count,
                count == size.area(),
                data@.len() == 4 * i,
                forall|j: int| 0 <= j < data@.len() ==> data@[j] == p.color[j % 4],
                p == with_color_spec(Point { x: 0i64, y: 0i64 }, color),
                p.wf(),
            decreases count - i,
        {
            data.push(p.color[0]);
            data.push(p.color[1]);
            data.push(p.color[2]);
            data.push(p.color[3]);
            proof {
                let ii = i as int;
                lemma_fundamental_div_mod_converse(4 * ii + 0, 4, ii, 0);
                lemma_fundamental_div_mod_converse(4 * ii + 1, 4, ii, 1);
                lemma_fundamental_div_mod_converse(4 * ii + 2, 4, ii, 2);
                lemma_fundamental_div_mod_converse(4 * ii + 3, 4, ii, 3);
            }
            i = i + 1;
        }
        let mut ranges: Vec<PixelRange> = Vec::new();
        let mut l: usize = 0;
        while l < size.height
            invariant
                l <= size.height,
                valid_size(size),
                w4 == size.width * 4,
                data@.len() == size.area() * 4,
                ranges@.len() == l,
                forall|j: int|
                    0 <= j < l ==> #[trigger] ranges@[j] == (PixelRange {
                        line: j as usize,
                        src_index: (j * (size.width * 4)) as usize,
                        src_end_index: (j * (size.width * 4) + size.width * 4) as usize,
                        x_begin: 0usize,
                        x_end: (size.width * 4) as usize,
                    }),
            decreases size.height - l,
        {
            proof {
                assert((l as int) * ((size.width * 4) as int) + size.width * 4 <= size.height * (
                size.width * 4)) by (nonlinear_arith)
                    requires
                        0 <= l < size.height,
                ;
                assert(size.height * ((size.width * 4) as int) == size.area() * 4)
                    by (nonlinear_arith);
            }
            ranges.push(
                PixelRange {
                    line: l,
                    src_index: l * w4,
                    src_end_index: l * w4 + w4,
                    x_begin: 0,
                    x_end: w4,
                },
            );
            l = l + 1;
        }
        let s = if color[3] == 255 {
            Sprite { data, size, translucent_ranges: Vec::new(), solid_ranges: ranges }
        } else {
            Sprite { data, size, translucent_ranges: ranges, solid_ranges: Vec::new() }
        };
        proof {
            lemma_filled_ranges_wf(s, color, p);
        }
        s
    }

    /// Checks one run against this sprite's data and size.
    fn range_ok(&self, r: &PixelRange) -> (ok: bool)
        requires
            valid_size(self.size),
        ensures
            ok == range_wf(*r, self.data.len() as int, self.size),
    {
        r.line < self.size.height && r.x_begin <= r.x_end && r.x_end <= self.size.width * BPP
            && r.x_begin % 4 == 0 && r.x_end % 4 == 0
            && r.src_index <= r.src_end_index && r.src_end_index <= self.data.len() && r.src_index
            % 4 == 0 && r.src_end_index - r.src_index == r.x_end - r.x_begin
    }

    /// Checks that one translucent run holds premultiplied color.
    fn range_premult_ok(&self, r: &PixelRange) -> (ok: bool)
        requires
            valid_size(self.size),
            range_wf(*r, self.data.len() as int, self.size),
        ensures
            ok == range_premultiplied(*r, self.data@),
    {
        let count: usize = (r.src_end_index - r.src_index) / 4;
        let mut k: usize = 0;
        while k < count
            invariant
                count == (r.src_end_index - r.src_index) / 4,
                range_wf(*r, self.data.len() as int, self.size),
                valid_size(self.size),
                k <= count,
                forall|j: int, c: int|
                    0 <= j < k && 0 <= c < 3 ==> #[trigger] self.data@[r.src_index + 4 * j + c]
                        <= self.data@[r.src_index + 4 * j + 3],
            decreases count - k,
        {
            let base: usize = r.src_index + 4 * k;
            let a: u8 = self.data[base + 3];
            if self.data[base] > a || self.data[base + 1] > a || self.data[base + 2] > a {
                proof {
                    let kk = k as int;
                    let s = r.src_index as int;
                    assert(self.data@[s + 4 * kk + 3] == a);
                    if self.data@[s + 4 * kk + 0] > a {
                        assert(!(self.data@[s + 4 * kk + 0] <= self.data@[s + 4 * kk + 3]));
                    } else if self.data@[s + 4 * kk + 1] > a {
                        assert(!(self.data@[s + 4 * kk + 1] <= self.data@[s + 4 * kk + 3]));
                    } else {
                        assert(!(self.data@[s + 4 * kk + 2] <= self.data@[s + 4 * kk + 3]));
                    }
                    assert(!range_premultiplied(*r, self.data@));
                }
                return false;
            }
            proof {
                let kk = k as int;
                let s = r.src_index as int;
                assert(self.data@[s + 4 * kk + 0] <= self.data@[s + 4 * kk + 3]);
                assert(self.data@[s + 4 * kk + 1] <= self.data@[s + 4 * kk + 3]);
                assert(self.data@[s + 4 * kk + 2] <= self.data@[s + 4 * kk + 3]);
            }
            k = k + 1;
        }
        true
    }

    /// Full runtime well-formedness check, used before a sprite enters
    /// the object arena.
    pub fn well_formed(&self) -> (ok: bool)
        ensures
            ok == self.wf(),
    {
        if !(self.size.width <= 0x7FFF && self.size.height <= 0x7FFF) {
            return false;
        }
        let mut i: usize = 0;
        while i < self.solid_ranges.len()
            invariant
                valid_size(self.size),
                i <= self.solid_ranges.len(),
                forall|j: int|
                    0 <= j < i ==> range_wf(
                        #[trigger] self.solid_ranges[j],
                        self.data.len() as int,
                        self.size,
                    ),
            decreases self.solid_ranges.len() - i,
        {
            let r = self.solid_ranges[i];
            if !self.range_ok(&r) {
                return false;
            }
            i = i + 1;
        }
        let mut i: usize = 0;
        while i < self.translucent_ranges.len()
            invariant
                valid_size(self.size),
                i <= self.translucent_ranges.len(),
                forall|j: int|
                    0 <= j < i ==> range_wf(
                        #[trigger] self.translucent_ranges[j],
                        self.data.len() as int,
                        self.size,
                    ),
                forall|j: int|
                    0 <= j < i ==> range_premultiplied(
                        #[trigger] self.translucent_ranges[j],
                        self.data@,
                    ),
            decreases self.translucent_ranges.len() - i,
        {
            let r = self.translucent_ranges[i];
            if !self.range_ok(&r) {
                return false;
            }
            if !self.range_premult_ok(&r) {
                return false;
            }
            i = i + 1;
        }
        true
    }
}

} // verus!
