//! The 8-bit pixel format and the render target that owns the pixel buffer.
use vstd::arithmetic::div_mod::{
    lemma_basic_div, lemma_div_multiples_vanish_quotient, lemma_fundamental_div_mod,
    lemma_mod_bound,
};
use vstd::arithmetic::power2::{
    lemma2_to64, lemma_pow2_adds, lemma_pow2_pos, lemma_pow2_strictly_increases, pow2,
};
use vstd::bits::lemma_u32_shr_is_div;
use vstd::prelude::*;

use crate::math::interval::Interval;
use crate::math::scalar::Scalar;
use crate::math::vec3::{Color, Vec3};

verus! {

/// The encoding of 0.999, the brightest intensity a channel can take.
pub const INTENSITY_MAX_BITS: u32 = 0x3f7f_be77;

/// An RGBA pixel, one byte per channel.
#[derive(Clone, Copy, Debug, PartialEq, Eq, Structural)]
pub struct Pixel {
    pub r: u8,
    pub g: u8,
    pub b: u8,
    pub a: u8,
}

impl Default for Pixel {
    /// The pixel with every channel zero.
    fn default() -> (r: Pixel)
        ensures
            r == Pixel::blank(),
    {
        Pixel { r: 0, g: 0, b: 0, a: 0 }
    }
}

impl Pixel {
    /// The pixel with every channel zero.
    pub open spec fn blank() -> Pixel {
        Pixel { r: 0, g: 0, b: 0, a: 0 }
    }

    /// The range of intensities a channel is clamped to: zero to 0.999.
    pub open spec fn intensity() -> Interval {
        Interval { min: Scalar { bits: 0 }, max: Scalar { bits: INTENSITY_MAX_BITS } }
    }

    /// The byte for one colour channel: the channel is clamped to the
    /// intensity range, and the byte is 256 times that, rounded down. A NaN
    /// channel gives zero.
    pub open spec fn channel_spec(c: Scalar) -> int {
        if c.nan() {
            0
        } else {
            (256 * Self::intensity().clamp_spec(c).units()) / (pow2(149) as int)
        }
    }

    /// The opaque pixel for a colour.
    pub open spec fn of_color(color: Color) -> Pixel {
        Pixel {
            r: Self::channel_spec(color.x) as u8,
            g: Self::channel_spec(color.y) as u8,
            b: Self::channel_spec(color.z) as u8,
            a: 255,
        }
    }
}

/// Below an exponent field of 119 a value is under 1/256, so 256 times it
/// rounds down to zero.
proof fn lemma_floor_dark(significand: nat, shift: nat)
    requires
        significand < 0x100_0000,
        shift <= 117,
    ensures
        (256 * ((significand * pow2(shift)) as int)) / (pow2(149) as int) == 0,
{
    lemma2_to64();
    lemma_pow2_pos(shift);
    if shift < 117 {
        lemma_pow2_strictly_increases(shift, 117);
    }
    lemma_pow2_adds(24, 117);
    lemma_pow2_adds(8, 141);
    let p = pow2(shift) as int;
    let top = pow2(117) as int;
    let s = significand as int;
    assert(s * p < 0x100_0000 * top) by (nonlinear_arith)
        requires
            0 <= s < 0x100_0000,
            0 < p <= top,
    ;
    lemma_basic_div(256 * (s * p), pow2(149) as int);
}

/// From an exponent field of 119 on, 256 times the value rounds down to the
/// significand without its lowest `142 - exponent` bits.
proof fn lemma_floor_bright(significand: nat, exponent: nat)
    requires
        119 <= exponent <= 126,
    ensures
        (256 * ((significand * pow2((exponent - 1) as nat)) as int)) / (pow2(149) as int)
            == significand / pow2((142 - exponent) as nat),
{
    lemma2_to64();
    let up = (exponent + 7) as nat;
    let down = (142 - exponent) as nat;
    lemma_pow2_adds(8, (exponent - 1) as nat);
    lemma_pow2_adds(up, down);
    lemma_pow2_pos(up);
    lemma_pow2_pos(down);
    let x = pow2(up) as int;
    let d = pow2(down) as int;
    let q = pow2((exponent - 1) as nat) as int;
    let s = significand as int;
    assert(256 * (s * q) == x * s) by (nonlinear_arith)
        requires
            x == 256 * q,
    ;
    lemma_div_multiples_vanish_quotient(x, s, d);
}

/// The byte of an intensity, read off its encoding: zero for a zero of either
/// sign and below an exponent field of 119, else the significand without its
/// lowest `142 - exponent` bits.
proof fn lemma_floor_of_intensity(k: Scalar)
    requires
        !k.nan(),
        Pixel::intensity().min.le_spec(k),
        k.le_spec(Pixel::intensity().max),
    ensures
        k.exponent_field() <= 126,
        (256 * k.units()) / (pow2(149) as int) == if k.sign_negative() || k.exponent_field() < 119 {
            0
        } else {
            k.significand() / pow2((142 - k.exponent_field()) as nat)
        },
        0 <= (256 * k.units()) / (pow2(149) as int) <= 255,
{
    if k.sign_negative() {
        // at or above zero with the sign bit set: the negative zero
        assert(k.magnitude() == 0);
        assert(k.exponent_field() == 0 && k.fraction_field() == 0);
        assert(k.units() == 0) by (nonlinear_arith)
            requires
                k.units() == -((0 * pow2(k.shift())) as int),
        ;
        lemma_pow2_pos(149);
        lemma_basic_div(0, pow2(149) as int);
    } else {
        let e = k.exponent_field();
        assert(e <= 126);
        if e < 119 {
            lemma_floor_dark(k.significand(), k.shift());
        } else {
            lemma_floor_bright(k.significand(), e);
            lemma2_to64();
            let down = (142 - e) as nat;
            if down > 16 {
                lemma_pow2_strictly_increases(16, down);
            }
            let s = k.significand() as int;
            let d = pow2(down) as int;
            assert(0 <= s / d <= 255) by (nonlinear_arith)
                requires
                    0 <= s < 0x100_0000,
                    d >= 0x1_0000,
            ;
        }
    }
}

impl Pixel {
    /// The byte for one colour channel.
    pub fn channel(c: Scalar) -> (r: u8)
        ensures
            r as int == Self::channel_spec(c),
    {
        let intensity = Interval::new(Scalar::zero(), Scalar::from_bits(INTENSITY_MAX_BITS));
        let k = intensity.clamp(c);
        if k.is_nan() {
            return 0;
        }
        proof {
            lemma_floor_of_intensity(k);
        }
        let bits: u32 = k.bits;
        if bits >= 0x8000_0000 {
            return 0;
        }
        let exponent: u32 = bits >> 23;
        let fraction: u32 = bits & 0x7f_ffff;
        assert(exponent == bits / 0x80_0000 && fraction == bits % 0x80_0000) by (bit_vector)
            requires
                exponent == bits >> 23,
                fraction == bits & 0x7f_ffff,
        ;
        if exponent < 119 {
            0
        } else {
            let significand: u32 = fraction | 0x80_0000;
            let down: u32 = 142 - exponent;
            assert(significand == fraction + 0x80_0000) by (bit_vector)
                requires
                    significand == fraction | 0x80_0000,
                    fraction < 0x80_0000,
            ;
            proof {
                lemma_u32_shr_is_div(significand, down);
            }
            (significand >> down) as u8
        }
    }
}

impl vstd::std_specs::convert::FromSpecImpl<Vec3> for Pixel {
    open spec fn obeys_from_spec() -> bool {
        true
    }

    open spec fn from_spec(color: Vec3) -> Pixel {
        Pixel::of_color(color)
    }
}

impl From<Vec3> for Pixel {
    /// The opaque pixel for a colour: each channel clamped to zero to 0.999,
    /// scaled by 256 and rounded down.
    fn from(color: Vec3) -> (r: Pixel)
        ensures
            r == Pixel::of_color(color),
    {
        Pixel {
            r: Pixel::channel(color.x),
            g: Pixel::channel(color.y),
            b: Pixel::channel(color.z),
            a: 255,
        }
    }
}

/// White, after clamping each channel to 0.999, is the brightest pixel: every
/// channel 255, none wrapped to zero.
pub proof fn lemma_white_is_brightest()
    ensures
        Pixel::of_color(
            Vec3 {
                x: Scalar { bits: 0x3f80_0000 },
                y: Scalar { bits: 0x3f80_0000 },
                z: Scalar { bits: 0x3f80_0000 },
            },
        ) == (Pixel { r: 255, g: 255, b: 255, a: 255 }),
{
    let one = Scalar { bits: 0x3f80_0000 };
    let top = Scalar { bits: INTENSITY_MAX_BITS };
    assert(Pixel::intensity().clamp_spec(one) == top);
    assert(top.exponent_field() == 126 && top.fraction_field() == 0x7f_be77);
    lemma_floor_bright(top.significand(), 126);
    lemma2_to64();
    assert(top.significand() == 0xff_be77 && top.shift() == 125);
    assert(top.significand() / pow2(16) == 255);
    assert(Pixel::channel_spec(one) == 255);
}

/// Every channel byte lies between 0 and 255, whatever the colour.
pub proof fn lemma_channel_is_byte(c: Scalar)
    ensures
        0 <= Pixel::channel_spec(c) <= 255,
{
    if !c.nan() {
        lemma_floor_of_intensity(Pixel::intensity().clamp_spec(c));
    }
}

/// The index of the pixel in column `x` of row `y`, rows stored one after
/// another from the top.
pub open spec fn pixel_index(width: u32, x: u32, y: u32) -> int {
    y as int * width as int + x as int
}

/// Two places of one image share an index only if they are the same place.
pub proof fn lemma_pixel_index_distinct(width: u32, x1: u32, y1: u32, x2: u32, y2: u32)
    requires
        x1 < width,
        x2 < width,
        pixel_index(width, x1, y1) == pixel_index(width, x2, y2),
    ensures
        x1 == x2,
        y1 == y2,
{
    let (w, i1, j1, i2, j2) = (width as int, x1 as int, y1 as int, x2 as int, y2 as int);
    assert(j1 == j2) by (nonlinear_arith)
        requires
            0 <= i1 < w,
            0 <= i2 < w,
            j1 * w + i1 == j2 * w + i2,
    ;
}

/// Every place of an image has its index inside the buffer.
pub proof fn lemma_pixel_index_in_range(width: u32, height: u32, x: u32, y: u32)
    requires
        x < width,
        y < height,
    ensures
        0 <= pixel_index(width, x, y) < width as int * height as int,
{
    let (w, h, i, j) = (width as int, height as int, x as int, y as int);
    assert(0 <= j * w + i && j * w + i < w * h) by (nonlinear_arith)
        requires
            0 <= i < w,
            0 <= j < h,
    ;
}

/// Every buffer position is the index of a place of the image.
pub proof fn lemma_pixel_index_onto(width: u32, height: u32, i: int) -> (place: (u32, u32))
    requires
        0 <= i < width as int * height as int,
    ensures
        place.0 < width,
        place.1 < height,
        pixel_index(width, place.0, place.1) == i,
{
    let w = width as int;
    let h = height as int;
    assert(w > 0) by (nonlinear_arith)
        requires
            0 <= i < w * h,
            0 <= w,
            0 <= h,
    ;
    lemma_fundamental_div_mod(i, w);
    lemma_mod_bound(i, w);
    let column = i % w;
    let row = i / w;
    assert(0 <= row < h) by (nonlinear_arith)
        requires
            i == w * row + column,
            0 <= column < w,
            0 <= i < w * h,
    ;
    assert(row * w == w * row) by (nonlinear_arith);
    (column as u32, row as u32)
}

/// Whether `pixel` is the conversion of a colour that `shade` may return for
/// column `x` of row `y`.
pub open spec fn shaded_by<F: Fn(u32, u32) -> Color>(
    pixel: Pixel,
    x: u32,
    y: u32,
    shade: F,
) -> bool {
    exists|color: Color| #[trigger] shade.ensures((x, y), color) && pixel == Pixel::of_color(color)
}

/// Whether `pixels` is the image of `width` by `height` in which every pixel
/// is the conversion of a colour that `shade` may return for its place.
pub open spec fn rendered_by<F: Fn(u32, u32) -> Color>(
    pixels: Seq<Pixel>,
    width: u32,
    height: u32,
    shade: F,
) -> bool {
    &&& pixels.len() == width as int * height as int
    &&& forall|x: u32, y: u32|
        x < width && y < height ==> #[trigger] shaded_by(
            pixels[pixel_index(width, x, y)],
            x,
            y,
            shade,
        )
}

/// The render target: a buffer of `width * height` pixels, row after row.
pub struct TargetOutput {
    data: Vec<Pixel>,
    width: u32,
    height: u32,
}

impl View for TargetOutput {
    type V = Seq<Pixel>;

    /// The pixels, row after row from the top.
    closed spec fn view(&self) -> Seq<Pixel> {
        self.data@
    }
}

impl TargetOutput {
    /// The buffer holds one pixel for each place of the image. `empty`
    /// establishes this and every method keeps it.
    pub closed spec fn wf(&self) -> bool {
        self.data@.len() == self.width as int * self.height as int
    }

    /// The number of columns.
    pub closed spec fn spec_width(&self) -> u32 {
        self.width
    }

    /// The number of rows.
    pub closed spec fn spec_height(&self) -> u32 {
        self.height
    }

    /// The number of columns.
    #[verifier::when_used_as_spec(spec_width)]
    pub fn width(&self) -> (r: u32)
        ensures
            r == self.spec_width(),
    {
        self.width
    }

    /// The number of rows.
    #[verifier::when_used_as_spec(spec_height)]
    pub fn height(&self) -> (r: u32)
        ensures
            r == self.spec_height(),
    {
        self.height
    }

    /// The buffer position of the pixel in column `x` of row `y`.
    fn offset(&self, x: u32, y: u32) -> (r: usize)
        requires
            self.wf(),
            x < self.width,
            y < self.height,
        ensures
            r == pixel_index(self.width, x, y),
            r < self.data@.len(),
    {
        proof {
            lemma_pixel_index_in_range(self.width, self.height, x, y);
        }
        // the length is a `usize`, and the position lies below it
        let len: usize = self.data.len();
        let row: usize = y as usize;
        let columns: usize = self.width as usize;
        assert(row * columns == y as int * self.width as int && row * columns <= pixel_index(
            self.width,
            x,
            y,
        )) by (nonlinear_arith)
            requires
                row == y,
                columns == self.width,
                pixel_index(self.width, x, y) == y as int * self.width as int + x as int,
        ;
        row * columns + x as usize
    }

    /// The pixels, row after row from the top.
    pub fn pixels(&self) -> (r: &Vec<Pixel>)
        requires
            self.wf(),
        ensures
            r@ == self@,
            r@.len() == self.width() as int * self.height() as int,
    {
        &self.data
    }

    /// The pixel in column `x` of row `y`.
    pub fn pixel(&self, x: u32, y: u32) -> (r: Pixel)
        requires
            self.wf(),
            x < self.width(),
            y < self.height(),
        ensures
            r == self@[pixel_index(self.width(), x, y)],
    {
        let idx = self.offset(x, y);
        self.data[idx]
    }

    /// A target of `width` by `height` pixels, all of them blank.
    pub fn empty(width: u32, height: u32) -> (r: TargetOutput)
        requires
            width as int * height as int <= usize::MAX as int,
        ensures
            r.wf(),
            r.width() == width,
            r.height() == height,
            r@.len() == width as int * height as int,
            forall|i: int| 0 <= i < r@.len() ==> r@[i] == Pixel::blank(),
    {
        let ghost area = width as int * height as int;
        assert(0 <= area) by (nonlinear_arith)
            requires
                area == width as int * height as int,
        ;
        let len = width as usize * height as usize;
        let data = vec![Pixel::default(); len];
        TargetOutput { data, width, height }
    }

    /// Writes the conversion of `color` to the pixel in column `x` of row `y`.
    pub fn set_pixel(&mut self, x: u32, y: u32, color: Color)
        requires
            old(self).wf(),
            x < old(self).width(),
            y < old(self).height(),
        ensures
            final(self).wf(),
            final(self).width() == old(self).width(),
            final(self).height() == old(self).height(),
            final(self)@ == old(self)@.update(
                pixel_index(old(self).width(), x, y),
                Pixel::of_color(color),
            ),
    {
        let idx = self.offset(x, y);
        self.data[idx] = Pixel::from(color);
    }

    /// Renders the image: for every place, column by column, asks `shade` for
    /// the colour seen there and stores its conversion.
    pub fn render<F: Fn(u32, u32) -> Color>(&mut self, shade: F)
        requires
            old(self).wf(),
            forall|x: u32, y: u32|
                x < old(self).width() && y < old(self).height() ==> shade.requires((x, y)),
        ensures
            final(self).wf(),
            final(self).width() == old(self).width(),
            final(self).height() == old(self).height(),
            rendered_by(final(self)@, old(self).width(), old(self).height(), shade),
    {
        let width = self.width;
        let height = self.height;
        let mut i: u32 = 0;
        while i < width
            invariant
                self.wf(),
                self.width == width,
                self.height == height,
                i <= width,
                forall|x: u32, y: u32| x < width && y < height ==> shade.requires((x, y)),
                forall|x: u32, y: u32|
                    x < i && y < height ==> #[trigger] shaded_by(
                        self.data@[pixel_index(width, x, y)],
                        x,
                        y,
                        shade,
                    ),
            decreases width - i,
        {
            let mut j: u32 = 0;
            while j < height
                invariant
                    self.wf(),
                    self.width == width,
                    self.height == height,
                    i < width,
                    j <= height,
                    forall|x: u32, y: u32| x < width && y < height ==> shade.requires((x, y)),
                    forall|x: u32, y: u32|
                        (x < i && y < height) || (x == i && y < j) ==> #[trigger] shaded_by(
                            self.data@[pixel_index(width, x, y)],
                            x,
                            y,
                            shade,
                        ),
                decreases height - j,
            {
                let color = shade(i, j);
                let ghost before = self.data@;
                self.set_pixel(i, j, color);
                proof {
                    assert forall|x: u32, y: u32|
                        (x < i && y < height) || (x == i && y < j + 1) implies #[trigger] shaded_by(
                        self.data@[pixel_index(width, x, y)],
                        x,
                        y,
                        shade,
                    ) by {
                        lemma_pixel_index_in_range(width, height, x, y);
                        lemma_pixel_index_in_range(width, height, i, j);
                        if x == i && y == j {
                            assert(shade.ensures((x, y), color));
                        } else {
                            if pixel_index(width, x, y) == pixel_index(width, i, j) {
                                lemma_pixel_index_distinct(width, x, y, i, j);
                            }
                            assert(shaded_by(before[pixel_index(width, x, y)], x, y, shade));
                        }
                    }
                }
                j += 1;
            }
            i += 1;
        }
    }
}

/// Every pixel of a rendered image is opaque.
pub proof fn lemma_rendered_is_opaque<F: Fn(u32, u32) -> Color>(
    pixels: Seq<Pixel>,
    width: u32,
    height: u32,
    shade: F,
)
    requires
        rendered_by(pixels, width, height, shade),
    ensures
        forall|i: int| 0 <= i < pixels.len() ==> (#[trigger] pixels[i]).a == 255,
{
    assert forall|i: int| 0 <= i < pixels.len() implies (#[trigger] pixels[i]).a == 255 by {
        let (x, y) = lemma_pixel_index_onto(width, height, i);
        assert(shaded_by(pixels[pixel_index(width, x, y)], x, y, shade));
    }
}

/// Rendering is repeatable: where the shader gives one colour for each place,
/// two renders of the same image size hold the same pixels.
pub proof fn lemma_render_repeatable<F: Fn(u32, u32) -> Color>(
    first: Seq<Pixel>,
    second: Seq<Pixel>,
    width: u32,
    height: u32,
    shade: F,
)
    requires
        rendered_by(first, width, height, shade),
        rendered_by(second, width, height, shade),
        forall|x: u32, y: u32, a: Color, b: Color|
            shade.ensures((x, y), a) && shade.ensures((x, y), b) ==> a == b,
    ensures
        first == second,
{
    assert forall|i: int| 0 <= i < first.len() implies first[i] == second[i] by {
        let (x, y) = lemma_pixel_index_onto(width, height, i);
        assert(shaded_by(first[pixel_index(width, x, y)], x, y, shade));
        assert(shaded_by(second[pixel_index(width, x, y)], x, y, shade));
    }
    assert(first =~= second);
}

} // verus!
