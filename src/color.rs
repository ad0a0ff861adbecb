use vstd::prelude::*;

verus! {

/// Full intensity of a colour channel. Channels are fixed-point numbers:
/// a channel value `c` stands for the intensity `c / ONE`.
pub const ONE: i64 = 1_000_000;

/// Truncating division (rounds toward zero), as integer division does on a
/// machine; `d` is positive.
pub open spec fn trunc_div(x: int, d: int) -> int {
    if x >= 0 {
        x / d
    } else {
        -((-x) / d)
    }
}

/// Truncating quotient for a divisor of either sign (`d != 0`).
pub open spec fn quot(x: int, d: int) -> int {
    if d > 0 {
        trunc_div(x, d)
    } else {
        -trunc_div(x, -d)
    }
}

/// The channel value of an 8-bit intensity, rounded to the nearest step.
pub open spec fn byte_channel(b: u8) -> int {
    (b * ONE + 127) / 255
}

/// Linear interpolation of one channel: `low + (high - low) * percent`, where
/// `percent` is a fixed-point fraction of `ONE`.
pub open spec fn lerp_channel(low: int, high: int, percent: int) -> int {
    low + trunc_div((high - low) * percent, ONE as int)
}

/// A channel clamped to the range `[0, ONE]`.
pub open spec fn clamp_channel(c: int) -> int {
    if c > ONE {
        ONE as int
    } else if c < 0 {
        0
    } else {
        c
    }
}

/// Whether a value fits in an `i64`.
pub open spec fn fits_i64(x: int) -> bool {
    i64::MIN <= x <= i64::MAX
}

/// An RGBW colour in fixed point (see `ONE`). Values outside `[0, ONE]` may
/// exist while computing; `clamped` brings them back into range.
#[derive(Clone, Copy, Debug, PartialEq, Eq, Structural)]
pub struct Color {
    pub r: i64,
    pub g: i64,
    pub b: i64,
    pub w: i64,
}

/// Channel `k` of a colour: red, green, blue and white for `k` = 0, 1, 2, 3.
pub open spec fn channel(c: Color, k: int) -> int {
    if k == 0 {
        c.r as int
    } else if k == 1 {
        c.g as int
    } else if k == 2 {
        c.b as int
    } else {
        c.w as int
    }
}

impl Color {
    /// Every channel lies in `[0, ONE]`.
    pub open spec fn is_clamped(self) -> bool {
        &&& 0 <= self.r <= ONE
        &&& 0 <= self.g <= ONE
        &&& 0 <= self.b <= ONE
        &&& 0 <= self.w <= ONE
    }

    /// The interpolation of `self` toward `other` fits in the channel type.
    pub open spec fn lerp_fits(self, other: Color, percent: int) -> bool {
        &&& fits_i64(lerp_channel(self.r as int, other.r as int, percent))
        &&& fits_i64(lerp_channel(self.g as int, other.g as int, percent))
        &&& fits_i64(lerp_channel(self.b as int, other.b as int, percent))
        &&& fits_i64(lerp_channel(self.w as int, other.w as int, percent))
    }

    /// Channel-wise linear interpolation from `self` (percent 0) to `other`
    /// (percent `ONE`).
    pub open spec fn spec_lerp(self, other: Color, percent: int) -> Color {
        Color {
            r: lerp_channel(self.r as int, other.r as int, percent) as i64,
            g: lerp_channel(self.g as int, other.g as int, percent) as i64,
            b: lerp_channel(self.b as int, other.b as int, percent) as i64,
            w: lerp_channel(self.w as int, other.w as int, percent) as i64,
        }
    }

    /// Each channel clamped to `[0, ONE]`.
    pub open spec fn spec_clamped(self) -> Color {
        Color {
            r: clamp_channel(self.r as int) as i64,
            g: clamp_channel(self.g as int) as i64,
            b: clamp_channel(self.b as int) as i64,
            w: clamp_channel(self.w as int) as i64,
        }
    }

    /// Channel-wise sum.
    pub open spec fn spec_add(self, o: Color) -> Color {
        Color {
            r: (self.r + o.r) as i64,
            g: (self.g + o.g) as i64,
            b: (self.b + o.b) as i64,
            w: (self.w + o.w) as i64,
        }
    }

    /// Channel-wise difference.
    pub open spec fn spec_sub(self, o: Color) -> Color {
        Color {
            r: (self.r - o.r) as i64,
            g: (self.g - o.g) as i64,
            b: (self.b - o.b) as i64,
            w: (self.w - o.w) as i64,
        }
    }

    /// Every channel scaled by the fixed-point factor `s / ONE`.
    pub open spec fn spec_mul(self, s: int) -> Color {
        Color {
            r: trunc_div(self.r * s, ONE as int) as i64,
            g: trunc_div(self.g * s, ONE as int) as i64,
            b: trunc_div(self.b * s, ONE as int) as i64,
            w: trunc_div(self.w * s, ONE as int) as i64,
        }
    }

    /// Every channel divided by the fixed-point factor `s / ONE`.
    pub open spec fn spec_div(self, s: int) -> Color {
        Color {
            r: quot(self.r * ONE, s) as i64,
            g: quot(self.g * ONE, s) as i64,
            b: quot(self.b * ONE, s) as i64,
            w: quot(self.w * ONE, s) as i64,
        }
    }

    /// The colour of four 8-bit intensities (red, green, blue, white).
    pub open spec fn spec_from_bytes(bytes: [u8; 4]) -> Color {
        Color {
            r: byte_channel(bytes[0]) as i64,
            g: byte_channel(bytes[1]) as i64,
            b: byte_channel(bytes[2]) as i64,
            w: byte_channel(bytes[3]) as i64,
        }
    }

    pub fn new(r: i64, g: i64, b: i64, w: i64) -> (c: Color)
        ensures
            c == (Color { r, g, b, w }),
    {
        Color { r, g, b, w }
    }

    pub fn clamped(&self) -> (c: Color)
        ensures
            c == self.spec_clamped(),
            c.is_clamped(),
    {
        Color {
            r: clamp_component(self.r),
            g: clamp_component(self.g),
            b: clamp_component(self.b),
            w: clamp_component(self.w),
        }
    }

    /// Linear interpolation toward `other`; `percent` is a fraction of `ONE`
    /// and may lie outside `[0, ONE]` to extrapolate.
    pub fn lerp(&self, other: &Color, percent: i64) -> (c: Color)
        requires
            self.lerp_fits(*other, percent as int),
        ensures
            c == self.spec_lerp(*other, percent as int),
    {
        Color {
            r: lerp_component(self.r, other.r, percent),
            g: lerp_component(self.g, other.g, percent),
            b: lerp_component(self.b, other.b, percent),
            w: lerp_component(self.w, other.w, percent),
        }
    }

    /// Copies every channel of `reference` into `self`.
    pub fn update_clone(&mut self, reference: &Color)
        ensures
            *final(self) == *reference,
    {
        self.r = reference.r;
        self.g = reference.g;
        self.b = reference.b;
        self.w = reference.w;
    }
}

impl Color {
    pub fn add(self, other: Color) -> (c: Color)
        requires
            fits_i64(self.r + other.r),
            fits_i64(self.g + other.g),
            fits_i64(self.b + other.b),
            fits_i64(self.w + other.w),
        ensures
            c == self.spec_add(other),
    {
        Color {
            r: self.r + other.r,
            g: self.g + other.g,
            b: self.b + other.b,
            w: self.w + other.w,
        }
    }

    pub fn sub(self, other: Color) -> (c: Color)
        requires
            fits_i64(self.r - other.r),
            fits_i64(self.g - other.g),
            fits_i64(self.b - other.b),
            fits_i64(self.w - other.w),
        ensures
            c == self.spec_sub(other),
    {
        Color {
            r: self.r - other.r,
            g: self.g - other.g,
            b: self.b - other.b,
            w: self.w - other.w,
        }
    }

    /// Scales every channel by `scalar / ONE`.
    pub fn mul(self, scalar: i64) -> (c: Color)
        requires
            fits_i64(trunc_div(self.r * scalar, ONE as int)),
            fits_i64(trunc_div(self.g * scalar, ONE as int)),
            fits_i64(trunc_div(self.b * scalar, ONE as int)),
            fits_i64(trunc_div(self.w * scalar, ONE as int)),
        ensures
            c == self.spec_mul(scalar as int),
    {
        Color {
            r: scale_component(self.r, scalar, ONE),
            g: scale_component(self.g, scalar, ONE),
            b: scale_component(self.b, scalar, ONE),
            w: scale_component(self.w, scalar, ONE),
        }
    }

    /// Divides every channel by `scalar / ONE`.
    pub fn div(self, scalar: i64) -> (c: Color)
        requires
            scalar != 0,
            fits_i64(quot(self.r * ONE, scalar as int)),
            fits_i64(quot(self.g * ONE, scalar as int)),
            fits_i64(quot(self.b * ONE, scalar as int)),
            fits_i64(quot(self.w * ONE, scalar as int)),
        ensures
            c == self.spec_div(scalar as int),
    {
        Color {
            r: scale_component(self.r, ONE, scalar),
            g: scale_component(self.g, ONE, scalar),
            b: scale_component(self.b, ONE, scalar),
            w: scale_component(self.w, ONE, scalar),
        }
    }
}

impl From<[u8; 4]> for Color {
    fn from(bytes: [u8; 4]) -> (c: Color) {
        Color {
            r: byte_component(bytes[0]),
            g: byte_component(bytes[1]),
            b: byte_component(bytes[2]),
            w: byte_component(bytes[3]),
        }
    }
}

impl vstd::std_specs::convert::FromSpecImpl<[u8; 4]> for Color {
    open spec fn obeys_from_spec() -> bool {
        true
    }

    open spec fn from_spec(bytes: [u8; 4]) -> Color {
        Color::spec_from_bytes(bytes)
    }
}

fn byte_component(b: u8) -> (r: i64)
    ensures
        r == byte_channel(b),
        0 <= r <= ONE,
{
    ((b as i64) * ONE + 127) / 255
}

/// `c * num / den`, truncated toward zero.
fn scale_component(c: i64, num: i64, den: i64) -> (r: i64)
    requires
        den != 0,
        fits_i64(quot(c * num, den as int)),
    ensures
        r == quot(c * num, den as int),
{
    assert(-0x4000_0000_0000_0000_0000_0000_0000_0000 <= c * num <= 0x4000_0000_0000_0000_0000_0000_0000_0000)
        by (nonlinear_arith)
        requires
            -0x8000_0000_0000_0000 <= c < 0x8000_0000_0000_0000,
            -0x8000_0000_0000_0000 <= num < 0x8000_0000_0000_0000,
    ;
    let prod: i128 = c as i128 * num as i128;
    let mag: i128 = if prod >= 0 { prod } else { -prod };
    let d: i128 = if den > 0 { den as i128 } else { -(den as i128) };
    let q: i128 = mag / d;
    if (prod >= 0) == (den > 0) {
        q as i64
    } else {
        (-q) as i64
    }
}

fn clamp_component(c: i64) -> (r: i64)
    ensures
        r == clamp_channel(c as int),
{
    if c > ONE {
        ONE
    } else if c < 0 {
        0
    } else {
        c
    }
}

pub(crate) fn lerp_component(low: i64, high: i64, percent: i64) -> (r: i64)
    requires
        fits_i64(lerp_channel(low as int, high as int, percent as int)),
    ensures
        r == lerp_channel(low as int, high as int, percent as int),
{
    let diff: i128 = high as i128 - low as i128;
    assert(-0x8000_0000_0000_0000_0000_0000_0000_0000 < diff * percent < 0x8000_0000_0000_0000_0000_0000_0000_0000)
        by (nonlinear_arith)
        requires
            -0x1_0000_0000_0000_0000 < diff < 0x1_0000_0000_0000_0000,
            -0x8000_0000_0000_0000 <= percent < 0x8000_0000_0000_0000,
    ;
    let delta: i128 = diff * percent as i128;
    let step: i128 = if delta >= 0 {
        delta / (ONE as i128)
    } else {
        -((-delta) / (ONE as i128))
    };
    (low as i128 + step) as i64
}

} // verus!

verus! {

proof fn lemma_scaled_step(d: int, p: int)
    requires
        d >= 0,
        0 <= p <= ONE,
    ensures
        0 <= (d * p) / (ONE as int) <= d,
{
    assert(0 <= d * p <= d * ONE) by (nonlinear_arith)
        requires
            d >= 0,
            0 <= p <= ONE,
    ;
    assert((d * ONE) / (ONE as int) == d) by (nonlinear_arith);
    vstd::arithmetic::div_mod::lemma_div_is_ordered(d * p, d * ONE, ONE as int);
    vstd::arithmetic::div_mod::lemma_div_pos_is_pos(d * p, ONE as int);
}

/// For a percent in `[0, ONE]` an interpolated channel lies between its two
/// end points.
pub proof fn lemma_lerp_channel_between(low: int, high: int, p: int)
    requires
        0 <= p <= ONE,
    ensures
        low <= high ==> low <= lerp_channel(low, high, p) <= high,
        high <= low ==> high <= lerp_channel(low, high, p) <= low,
{
    if low <= high {
        lemma_scaled_step(high - low, p);
    } else {
        lemma_scaled_step(low - high, p);
        assert((high - low) * p == -((low - high) * p)) by (nonlinear_arith);
    }
}

/// For a percent in `[0, ONE]` the interpolation of two colours always fits,
/// and stays clamped when both end points are.
pub proof fn lemma_lerp_in_range(a: Color, b: Color, p: int)
    requires
        0 <= p <= ONE,
    ensures
        a.lerp_fits(b, p),
        a.is_clamped() && b.is_clamped() ==> a.spec_lerp(b, p).is_clamped(),
{
    lemma_lerp_channel_between(a.r as int, b.r as int, p);
    lemma_lerp_channel_between(a.g as int, b.g as int, p);
    lemma_lerp_channel_between(a.b as int, b.b as int, p);
    lemma_lerp_channel_between(a.w as int, b.w as int, p);
}

/// Interpolating at percent 0 gives the start colour and at percent `ONE` the
/// end colour, exactly; clamping any interpolation, at any percent, gives
/// channels in `[0, ONE]`.
pub proof fn lemma_lerp_endpoints(a: Color, b: Color, t: int)
    ensures
        a.spec_lerp(b, 0) == a,
        a.spec_lerp(b, ONE as int) == b,
        a.spec_lerp(b, t).spec_clamped().is_clamped(),
{
    assert forall|low: int, high: int| lerp_channel(low, high, ONE as int) == high by {
        assert((high - low) * ONE == ONE * (high - low)) by (nonlinear_arith);
        if high - low >= 0 {
            vstd::arithmetic::div_mod::lemma_div_multiples_vanish(high - low, ONE as int);
        } else {
            vstd::arithmetic::div_mod::lemma_div_multiples_vanish(low - high, ONE as int);
            assert(-((high - low) * ONE) == ONE * (low - high)) by (nonlinear_arith);
        }
    }
    assert forall|low: int, high: int| lerp_channel(low, high, 0) == low by {
        assert((high - low) * 0 == 0) by (nonlinear_arith);
    }
}

} // verus!
