use vstd::prelude::*;

use crate::median_filter::{is_lower_median, running_median, window_at};
use crate::color::{channel, clamp_channel, lerp_channel, lerp_component, Color, ONE};

verus! {

/// Frames per second of every sequence.
pub const RESOLUTION: u64 = 30;

/// Length, in milliseconds, of the fade that opens every new effect.
pub const FADE_DURATION_MS: u64 = 500;

/// Window of the median filter that removes noise from image gradients.
pub const MEDIAN_FILTER_SIZE: usize = 51;

/// Whether a sequence is a single colour or a gradient over time.
#[derive(Clone, Copy, Debug, PartialEq, Eq, Structural)]
pub enum LedSequenceType {
    Color,
    Gradient,
}

/// What a sequence is: its kind, its name, how long it lasts (milliseconds)
/// and whether it loops.
#[derive(Clone, Debug)]
pub struct LedSequenceInfo {
    pub sequence_type: LedSequenceType,
    pub name: String,
    pub duration: u64,
    pub repeat: bool,
}

/// A breakpoint gradient: colours and the fractions (of `ONE`) of the
/// sequence at which each is reached, in order.
#[derive(Clone, Debug)]
pub struct LedColorPoints {
    pub color_points: Vec<Color>,
    pub percent_points: Vec<i64>,
    pub info: LedSequenceInfo,
}

/// Why a sequence description could not be loaded.
#[derive(Clone, Copy, Debug, PartialEq, Eq, Structural)]
pub enum SequenceError {
    /// The name does not have the form `{kind}_{name}_{duration?}_{repeat?}`.
    BadName,
    /// The kind is neither `color` nor `gradient`.
    UnknownKind,
    /// The duration is not a decimal number of seconds, is too large, or
    /// gives a gradient no frame.
    BadDuration,
    /// Breakpoints are missing, or their colours and fractions differ in
    /// number.
    BadBreakpoints,
    /// The image could not be decoded.
    BadImage,
    /// The image holds fewer pixel bytes than its size calls for.
    ImageTooSmall,
}

/// A list of frames played at `RESOLUTION` frames per second, with a cursor.
/// Once the end is reached a repeating sequence resumes at `repeat_start`.
#[derive(Clone, Debug)]
pub struct LedSequence {
    pub colors: Vec<Color>,
    pub info: LedSequenceInfo,
    /// Position of the next frame.
    pub index: usize,
    /// Position that a repeating sequence resumes at after the end.
    pub repeat_start: usize,
}

/// Number of frames in `duration_ms` milliseconds, rounded to the nearest.
pub open spec fn frames_for(duration_ms: int) -> int {
    (duration_ms * RESOLUTION + 500) / 1000
}

/// The percent (fraction of `ONE`) of frame `i` out of `n`; a sequence of no
/// steps is at its end at once.
pub open spec fn frame_percent(i: int, n: int) -> int {
    if n == 0 {
        ONE as int
    } else {
        i * ONE / n
    }
}

/// `r` is the integer cube root of `x`, rounded down.
pub open spec fn is_cube_root(x: int, r: int) -> bool {
    0 <= r && r * r * r <= x < (r + 1) * (r + 1) * (r + 1)
}

/// The integer cube root of `x`, rounded down.
pub open spec fn cube_root(x: int) -> int {
    choose|r: int| is_cube_root(x, r)
}

/// The eased percent of the white channel in a fade to black: the cube root
/// of the fraction, in fixed point.
pub open spec fn white_ease(p: int) -> int {
    cube_root(p * ONE * ONE)
}

/// The position that the next frame is read from, given the cursor; `None`
/// when playback has ended.
pub open spec fn next_position(len: nat, repeat: bool, repeat_start: nat, cursor: nat) -> Option<nat> {
    if cursor < len {
        Some(cursor)
    } else if repeat && repeat_start < len {
        Some(repeat_start)
    } else {
        None
    }
}

/// The cursor after `k` frames were asked for, from the start.
pub open spec fn cursor_after(len: nat, repeat: bool, repeat_start: nat, k: nat) -> nat
    decreases k,
{
    if k == 0 {
        0
    } else {
        let c = cursor_after(len, repeat, repeat_start, (k - 1) as nat);
        match next_position(len, repeat, repeat_start, c) {
            Some(p) => p + 1,
            None => c,
        }
    }
}

/// The position of the frame that the `k`-th request (from 0) returns.
pub open spec fn position_of_request(len: nat, repeat: bool, repeat_start: nat, k: nat) -> Option<nat> {
    next_position(len, repeat, repeat_start, cursor_after(len, repeat, repeat_start, k))
}

/// The frame of a fade to black from `start`, at percent `p`: red, green and
/// blue fade linearly, white along the eased percent.
pub open spec fn fade_frame(start: Color, p: int) -> Color {
    let c = start.spec_lerp(Color { r: 0, g: 0, b: 0, w: 0 }, p);
    Color { r: c.r, g: c.g, b: c.b, w: lerp_channel(start.w as int, 0, white_ease(p)) as i64 }
}


/// Number of frames in `duration_ms` milliseconds, rounded to the nearest.
pub fn frame_count(duration_ms: u64) -> (n: u64)
    ensures
        n == frames_for(duration_ms as int),
{
    assert(duration_ms * RESOLUTION <= 0xffff_ffff_ffff_ffff * 30) by (nonlinear_arith)
        requires
            duration_ms <= 0xffff_ffff_ffff_ffff,
    ;
    let total: u128 = (duration_ms as u128) * (RESOLUTION as u128) + 500;
    (total / 1000) as u64
}

proof fn lemma_cube_monotonic(a: int, b: int)
    requires
        0 <= a <= b,
    ensures
        a * a * a <= b * b * b,
{
    assert(a * a <= b * b) by (nonlinear_arith)
        requires
            0 <= a <= b,
    ;
    assert(a * a * a <= b * b * b) by (nonlinear_arith)
        requires
            0 <= a <= b,
            0 <= a * a <= b * b,
    ;
}

/// The floor cube root is unique, so `cube_root` names it.
proof fn lemma_cube_root_unique(x: int, r: int)
    requires
        is_cube_root(x, r),
    ensures
        cube_root(x) == r,
{
    let c = cube_root(x);
    assert(is_cube_root(x, c));
    if c < r {
        lemma_cube_monotonic(c + 1, r);
    } else if r < c {
        lemma_cube_monotonic(r + 1, c);
    }
}

/// The floor cube root of `x`, for `x` up to `ONE` cubed.
fn cube_root_floor(x: u64) -> (r: u64)
    requires
        x <= ONE * ONE * ONE,
    ensures
        is_cube_root(x as int, r as int),
        r == cube_root(x as int),
        r <= ONE,
{
    let mut lo: u64 = 0;
    let mut hi: u64 = 1_000_001;
    assert(1_000_001 * 1_000_001 * 1_000_001 > ONE * ONE * ONE);
    while hi - lo > 1
        invariant
            lo < hi <= 1_000_001,
            lo * lo * lo <= x,
            x < hi * hi * hi,
        decreases hi - lo,
    {
        let mid: u64 = lo + (hi - lo) / 2;
        proof {
            lemma_cube_monotonic(mid as int, 1_000_001);
            assert(mid * mid <= 1_000_001 * 1_000_001) by (nonlinear_arith)
                requires
                    mid <= 1_000_001,
            ;
            assert(1_000_001 * 1_000_001 * 1_000_001 < u64::MAX);
        }
        if mid * mid * mid <= x {
            lo = mid;
        } else {
            hi = mid;
        }
    }
    proof {
        assert(hi == lo + 1);
        lemma_cube_root_unique(x as int, lo as int);
        if lo > ONE {
            lemma_cube_monotonic(ONE + 1, lo as int);
            assert((ONE + 1) * (ONE + 1) * (ONE + 1) > ONE * ONE * ONE);
        }
    }
    lo
}

/// The percent of frame `i` out of `n`, for `i <= n`.
fn percent_of(i: u64, n: u64) -> (p: i64)
    requires
        i <= n,
    ensures
        p == frame_percent(i as int, n as int),
        0 <= p <= ONE,
{
    if n == 0 {
        return ONE;
    }
    assert(i * ONE <= 0xffff_ffff_ffff_ffff * ONE) by (nonlinear_arith)
        requires
            i <= 0xffff_ffff_ffff_ffff,
    ;
    let q: u128 = (i as u128) * (ONE as u128) / (n as u128);
    assert(q <= ONE) by (nonlinear_arith)
        requires
            0 <= i <= n,
            n > 0,
            q == i * ONE / (n as int),
    ;
    q as i64
}

/// Width of the tent filter that resamples `n` samples to `m` frames: the
/// samples per frame, rounded to the nearest, and at least 3.
pub open spec fn filter_width(n: int, m: int) -> int {
    let w = if m == 0 {
        0
    } else {
        (2 * n + m) / (2 * m)
    };
    if w < 3 {
        3
    } else {
        w
    }
}

/// Weight of the sample at offset `f` from the centre, in units of `1 / fs`.
pub open spec fn tent_weight(f: int, fs: int) -> int {
    if f >= 0 {
        fs - 2 * f
    } else {
        fs + 2 * f
    }
}

/// Sum of channel `k` of the samples at offsets `lo .. hi` from `center`,
/// each times its tent weight; offsets outside `src` count nothing.
pub open spec fn tent_sum(src: Seq<Color>, k: int, center: int, fs: int, lo: int, hi: int) -> int
    decreases hi - lo,
{
    if hi <= lo {
        0
    } else {
        let idx = center + hi - 1;
        tent_sum(src, k, center, fs, lo, hi - 1) + if 0 <= idx < src.len() {
            channel(src[idx], k) * tent_weight(hi - 1, fs)
        } else {
            0
        }
    }
}

/// Sum of the tent weights of the offsets in `lo .. hi` from `center` that
/// fall inside `0 .. len`.
pub open spec fn tent_weight_sum(len: int, center: int, fs: int, lo: int, hi: int) -> int
    decreases hi - lo,
{
    if hi <= lo {
        0
    } else {
        tent_weight_sum(len, center, fs, lo, hi - 1) + if 0 <= center + hi - 1 < len {
            tent_weight(hi - 1, fs)
        } else {
            0
        }
    }
}

/// Channel `k` of output frame `i` when `src` is resampled to `m` frames:
/// the tent-weighted average of the samples around the proportional source
/// position (their weighted sum over the sum of their weights), clamped.
pub open spec fn resampled_channel(src: Seq<Color>, k: int, i: int, m: int) -> int {
    let n = src.len() as int;
    let fs = filter_width(n, m);
    let h = fs / 2;
    let center = i * n / m;
    let weights = tent_weight_sum(n, center, fs, -h, h);
    if weights == 0 {
        0
    } else {
        clamp_channel(tent_sum(src, k, center, fs, -h, h) / weights)
    }
}

/// Output frame `i` when `src` is resampled to `m` frames.
pub open spec fn resampled_frame(src: Seq<Color>, i: int, m: int) -> Color {
    Color {
        r: resampled_channel(src, 0, i, m) as i64,
        g: resampled_channel(src, 1, i, m) as i64,
        b: resampled_channel(src, 2, i, m) as i64,
        w: resampled_channel(src, 3, i, m) as i64,
    }
}

proof fn lemma_tent_sum_between(src: Seq<Color>, k: int, center: int, fs: int, lo: int, hi: int, a: int, b: int)
    requires
        -(fs / 2) <= lo,
        hi <= fs / 2,
        fs >= 0,
        forall|j: int| 0 <= j < src.len() ==> a <= #[trigger] channel(src[j], k) <= b,
    ensures
        tent_weight_sum(src.len() as int, center, fs, lo, hi) >= 0,
        a * tent_weight_sum(src.len() as int, center, fs, lo, hi) <= tent_sum(src, k, center, fs, lo, hi),
        tent_sum(src, k, center, fs, lo, hi) <= b * tent_weight_sum(src.len() as int, center, fs, lo, hi),
    decreases hi - lo,
{
    if hi > lo {
        lemma_tent_sum_between(src, k, center, fs, lo, hi - 1, a, b);
        let n = src.len() as int;
        let idx = center + hi - 1;
        let w0 = tent_weight_sum(n, center, fs, lo, hi - 1);
        let s0 = tent_sum(src, k, center, fs, lo, hi - 1);
        let w = tent_weight(hi - 1, fs);
        if 0 <= idx < n {
            let c = channel(src[idx], k);
            assert(a * w <= c * w <= b * w) by (nonlinear_arith)
                requires
                    a <= c <= b,
                    w >= 0,
            ;
            assert(a * (w0 + w) == a * w0 + a * w && b * (w0 + w) == b * w0 + b * w) by (nonlinear_arith);
        }
    }
}

proof fn lemma_weight_sum_at_least(len: int, center: int, fs: int, lo: int, hi: int, g: int)
    requires
        lo <= g < hi,
        0 <= center + g < len,
        -(fs / 2) <= lo,
        hi <= fs / 2,
        fs >= 0,
    ensures
        tent_weight_sum(len, center, fs, lo, hi) >= tent_weight(g, fs),
    decreases hi - lo,
{
    if g < hi - 1 {
        lemma_weight_sum_at_least(len, center, fs, lo, hi - 1, g);
    } else {
        lemma_weights_nonneg(len, center, fs, lo, hi - 1);
    }
}

proof fn lemma_weights_nonneg(len: int, center: int, fs: int, lo: int, hi: int)
    requires
        -(fs / 2) <= lo,
        hi <= fs / 2,
        fs >= 0,
    ensures
        tent_weight_sum(len, center, fs, lo, hi) >= 0,
    decreases hi - lo,
{
    if hi > lo {
        lemma_weights_nonneg(len, center, fs, lo, hi - 1);
    }
}

/// Resampling takes weighted averages: every channel of every output frame
/// lies between the least and the greatest value of that channel in the
/// source. In particular a constant source is kept as it is.
pub proof fn lemma_resample_within(src: Seq<Color>, k: int, i: int, m: int, a: int, b: int)
    requires
        0 <= k < 4,
        0 <= i < m,
        src.len() > 0,
        0 <= a <= b <= ONE,
        forall|j: int| 0 <= j < src.len() ==> a <= #[trigger] channel(src[j], k) <= b,
    ensures
        a <= resampled_channel(src, k, i, m) <= b,
{
    let n = src.len() as int;
    let fs = filter_width(n, m);
    let h = fs / 2;
    let center = i * n / m;
    assert(0 <= center < n) by (nonlinear_arith)
        requires
            0 <= i < m,
            n > 0,
            center == i * n / m,
    ;
    lemma_weight_sum_at_least(n, center, fs, -h, h, 0);
    lemma_tent_sum_between(src, k, center, fs, -h, h, a, b);
    let w = tent_weight_sum(n, center, fs, -h, h);
    let t = tent_sum(src, k, center, fs, -h, h);
    assert(w > 0);
    vstd::arithmetic::div_mod::lemma_div_is_ordered(a * w, t, w);
    vstd::arithmetic::div_mod::lemma_div_is_ordered(t, b * w, w);
    assert(a * w == w * a && b * w == w * b) by (nonlinear_arith);
    vstd::arithmetic::div_mod::lemma_div_multiples_vanish(a, w);
    vstd::arithmetic::div_mod::lemma_div_multiples_vanish(b, w);
}

/// Every colour of `s` is clamped.
pub open spec fn all_clamped(s: Seq<Color>) -> bool {
    forall|i: int| 0 <= i < s.len() ==> #[trigger] s[i].is_clamped()
}

proof fn lemma_term_bound(c: int, w: int, fs: int)
    requires
        0 <= c <= ONE,
        0 <= w <= fs,
    ensures
        0 <= c * w <= ONE * fs,
{
    assert(0 <= c * w <= ONE * fs) by (nonlinear_arith)
        requires
            0 <= c <= ONE,
            0 <= w <= fs,
    ;
}

fn average_channel(sum: u128, weights: u128) -> (c: i64)
    requires
        weights > 0,
    ensures
        c == clamp_channel(sum as int / weights as int),
{
    let avg: u128 = sum / weights;
    if avg > ONE as u128 {
        ONE
    } else {
        avg as i64
    }
}

/// The tent-weighted frame around `center`, as `resampled_frame` states it.
fn tent_frame(src: &Vec<Color>, center: u64, fs: u64) -> (c: Color)
    requires
        all_clamped(src@),
        src@.len() < 0x1_0000_0000,
        3 <= fs <= 0x1_0000_0001,
        center < 0x1_0000_0000,
    ensures
        ({
            let fs = fs as int;
            let h = fs / 2;
            let center = center as int;
            let weights = tent_weight_sum(src@.len() as int, center, fs, -h, h);
            &&& weights == 0 ==> c == (Color { r: 0, g: 0, b: 0, w: 0 })
            &&& weights != 0 ==> c == (Color {
                r: clamp_channel(tent_sum(src@, 0, center, fs, -h, h) / weights) as i64,
                g: clamp_channel(tent_sum(src@, 1, center, fs, -h, h) / weights) as i64,
                b: clamp_channel(tent_sum(src@, 2, center, fs, -h, h) / weights) as i64,
                w: clamp_channel(tent_sum(src@, 3, center, fs, -h, h) / weights) as i64,
            })
        }),
{
    let h: i64 = (fs / 2) as i64;
    let len: i64 = src.len() as i64;
    let ghost bound: int = ONE * fs;
    let mut sr: u128 = 0;
    let mut sg: u128 = 0;
    let mut sb: u128 = 0;
    let mut sw: u128 = 0;
    let mut weights: u128 = 0;
    let mut f: i64 = -h;
    while f < h
        invariant
            all_clamped(src@),
            len == src@.len(),
            len < 0x1_0000_0000,
            3 <= fs <= 0x1_0000_0001,
            h == fs / 2,
            center < 0x1_0000_0000,
            bound == ONE * fs,
            -h <= f <= h,
            sr == tent_sum(src@, 0, center as int, fs as int, -h, f as int),
            sg == tent_sum(src@, 1, center as int, fs as int, -h, f as int),
            sb == tent_sum(src@, 2, center as int, fs as int, -h, f as int),
            sw == tent_sum(src@, 3, center as int, fs as int, -h, f as int),
            weights == tent_weight_sum(len as int, center as int, fs as int, -h, f as int),
            weights <= (f + h) * fs,
            sr <= (f + h) * bound,
            sg <= (f + h) * bound,
            sb <= (f + h) * bound,
            sw <= (f + h) * bound,
        decreases h - f,
    {
        let idx: i64 = center as i64 + f;
        proof {
            assert((f + 1 + h) * bound == (f + h) * bound + bound) by (nonlinear_arith);
            assert((f + 1 + h) * fs == (f + h) * fs + fs) by (nonlinear_arith);
        }
        if 0 <= idx && idx < len {
            let w: u128 = if f >= 0 { (fs as i64 - 2 * f) as u128 } else { (fs as i64 + 2 * f) as u128 };
            let c = src[idx as usize];
            proof {
                assert(c.is_clamped());
                lemma_term_bound(c.r as int, w as int, fs as int);
                lemma_term_bound(c.g as int, w as int, fs as int);
                lemma_term_bound(c.b as int, w as int, fs as int);
                lemma_term_bound(c.w as int, w as int, fs as int);
                assert((f + h) * bound <= 0x1_0000_0002 * (ONE * 0x1_0000_0001)) by (nonlinear_arith)
                    requires
                        0 <= f + h <= 0x1_0000_0002,
                        bound == ONE * fs,
                        fs <= 0x1_0000_0001,
                ;
                assert((f + h) * fs <= 0x1_0000_0002 * 0x1_0000_0001) by (nonlinear_arith)
                    requires
                        0 <= f + h <= 0x1_0000_0002,
                        fs <= 0x1_0000_0001,
                ;
            }
            sr = sr + (c.r as u128) * w;
            sg = sg + (c.g as u128) * w;
            sb = sb + (c.b as u128) * w;
            sw = sw + (c.w as u128) * w;
            weights = weights + w;
        }
        f = f + 1;
    }
    if weights == 0 {
        return Color { r: 0, g: 0, b: 0, w: 0 };
    }
    Color {
        r: average_channel(sr, weights),
        g: average_channel(sg, weights),
        b: average_channel(sb, weights),
        w: average_channel(sw, weights),
    }
}

/// Channel `k` of every colour of `s`.
pub open spec fn channel_seq(s: Seq<Color>, k: int) -> Seq<i64> {
    Seq::new(s.len(), |j: int| channel(s[j], k) as i64)
}

/// `out` is `src` with each channel passed through a running median of
/// window `MEDIAN_FILTER_SIZE`.
pub open spec fn is_smoothed(src: Seq<Color>, out: Seq<Color>) -> bool {
    &&& out.len() == src.len()
    &&& forall|i: int, k: int|
        0 <= i < src.len() && 0 <= k < 4 ==> is_lower_median(
            window_at(channel_seq(src, k), i, MEDIAN_FILTER_SIZE as int),
            #[trigger] channel(out[i], k) as i64,
        )
}

fn channel_values(src: &Vec<Color>, k: u8) -> (v: Vec<i64>)
    requires
        k < 4,
    ensures
        v@ == channel_seq(src@, k as int),
{
    let mut v: Vec<i64> = Vec::new();
    let mut i: usize = 0;
    while i < src.len()
        invariant
            k < 4,
            i <= src@.len(),
            v@ =~= channel_seq(src@, k as int).subrange(0, i as int),
        decreases src@.len() - i,
    {
        let c = src[i];
        let x = if k == 0 {
            c.r
        } else if k == 1 {
            c.g
        } else if k == 2 {
            c.b
        } else {
            c.w
        };
        v.push(x);
        i = i + 1;
    }
    v
}

proof fn lemma_median_clamped(src: Seq<Color>, k: int, i: int, r: i64)
    requires
        all_clamped(src),
        0 <= k < 4,
        0 <= i < src.len(),
        is_lower_median(window_at(channel_seq(src, k), i, MEDIAN_FILTER_SIZE as int), r),
    ensures
        0 <= r <= ONE,
{
    let w = window_at(channel_seq(src, k), i, MEDIAN_FILTER_SIZE as int);
    let j = choose|j: int| 0 <= j < w.len() && w[j] == r;
    let lo = if i + 1 >= MEDIAN_FILTER_SIZE { i + 1 - MEDIAN_FILTER_SIZE } else { 0 };
    assert(w[j] == channel_seq(src, k)[lo + j]);
    assert(src[lo + j].is_clamped());
}

/// The frames of the linear fade from `a` to `b`.
pub open spec fn lerp_frames(a: Color, b: Color) -> Seq<Color> {
    Seq::new((RESOLUTION + 1) as nat, |i: int| a.spec_lerp(b, frame_percent(i, RESOLUTION as int)))
}

/// `body` preceded by the linear fade from `from` to its first frame.
pub open spec fn with_fade_in(from: Color, body: Seq<Color>) -> Seq<Color> {
    lerp_frames(from, body[0]) + body
}

/// Index of the breakpoint pair around fraction `f`, searching from pair
/// `k`: the first pair whose upper point is at or after `f`, else the last.
pub open spec fn segment_of(p: Seq<i64>, f: int, k: int) -> int
    decreases p.len() - k,
{
    if k + 2 >= p.len() {
        k
    } else if f <= p[k + 1] {
        k
    } else {
        segment_of(p, f, k + 1)
    }
}

/// How far fraction `f` lies between breakpoints `k` and `k + 1`, as a
/// percent clamped to `[0, ONE]`; an empty pair counts as reached.
pub open spec fn segment_percent(p: Seq<i64>, k: int, f: int) -> int {
    if p[k + 1] <= p[k] {
        ONE as int
    } else {
        clamp_channel(crate::color::trunc_div((f - p[k]) * ONE, p[k + 1] - p[k]))
    }
}

/// The colour at fraction `f` of a breakpoint gradient.
pub open spec fn breakpoint_color(c: Seq<Color>, p: Seq<i64>, f: int) -> Color {
    let k = segment_of(p, f, 0);
    c[k].spec_lerp(c[k + 1], segment_percent(p, k, f))
}

/// The frames of a breakpoint gradient lasting `duration` milliseconds:
/// `frames_for(duration)` evenly spaced fractions, from 0 to the end (a
/// single frame stands at the end).
pub open spec fn breakpoint_frames(c: Seq<Color>, p: Seq<i64>, duration: int) -> Seq<Color> {
    let n = frames_for(duration);
    Seq::new(n as nat, |s: int| breakpoint_color(c, p, frame_percent(s, n - 1)))
}

fn find_segment(p: &Vec<i64>, f: i64) -> (k: usize)
    requires
        p@.len() >= 2,
    ensures
        k == segment_of(p@, f as int, 0),
        k + 1 < p@.len(),
{
    let mut k: usize = 0;
    while k < p.len() - 2 && f > p[k + 1]
        invariant
            p@.len() >= 2,
            k + 1 < p@.len(),
            segment_of(p@, f as int, 0) == segment_of(p@, f as int, k as int),
        decreases p@.len() - k,
    {
        k = k + 1;
    }
    k
}

fn segment_percent_of(p: &Vec<i64>, k: usize, f: i64) -> (r: i64)
    requires
        k + 1 < p@.len(),
    ensures
        r == segment_percent(p@, k as int, f as int),
        0 <= r <= ONE,
{
    let len = p.len();
    let lo = p[k];
    let hi = p[k + 1];
    if hi <= lo {
        return ONE;
    }
    let d: i128 = hi as i128 - lo as i128;
    let x: i128 = f as i128 - lo as i128;
    assert(-0x1_0000_0000_0000_0000 * ONE <= x * ONE <= 0x1_0000_0000_0000_0000 * ONE) by (nonlinear_arith)
        requires
            -0x1_0000_0000_0000_0000 <= x <= 0x1_0000_0000_0000_0000,
    ;
    let num: i128 = x * (ONE as i128);
    let q: i128 = if num >= 0 {
        num / d
    } else {
        -((-num) / d)
    };
    if q > ONE as i128 {
        ONE
    } else if q < 0 {
        0
    } else {
        q as i64
    }
}

impl LedSequence {
    /// The cursor and the restart point lie within the frames.
    pub open spec fn wf(&self) -> bool {
        &&& self.index <= self.colors@.len()
        &&& self.repeat_start <= self.colors@.len()
    }

    /// Where the next frame comes from.
    pub open spec fn spec_next_position(&self) -> Option<nat> {
        next_position(
            self.colors@.len(),
            self.info.repeat,
            self.repeat_start as nat,
            self.index as nat,
        )
    }

    /// The sequence is at its first frame, with restart point 0.
    pub open spec fn is_fresh(&self) -> bool {
        &&& self.wf()
        &&& self.index == 0
        &&& self.repeat_start == 0
    }

    /// The frames of a fade from `start` to black over `duration`
    /// milliseconds.
    pub open spec fn fade_to_black_frames(start: Color, duration: int) -> Seq<Color> {
        let n = frames_for(duration);
        Seq::new((n + 1) as nat, |i: int| fade_frame(start, frame_percent(i, n)))
    }

    /// Linear fade from `start_color` to `end_color` over `FADE_DURATION_MS`:
    /// `RESOLUTION + 1` frames, frame `i` at percent `i / RESOLUTION`.
    pub fn from_color_lerp(start_color: &Color, end_color: &Color) -> (s: LedSequence)
        ensures
            s.is_fresh(),
            s.colors@.len() == RESOLUTION + 1,
            forall|i: int|
                0 <= i <= RESOLUTION ==> s.colors@[i] == start_color.spec_lerp(
                    *end_color,
                    frame_percent(i, RESOLUTION as int),
                ),
            s.colors@ == lerp_frames(*start_color, *end_color),
            s.colors@[0] == *start_color,
            s.colors@[RESOLUTION as int] == *end_color,
            s.info.sequence_type == LedSequenceType::Color,
            s.info.name@ == "lerp"@,
            s.info.duration == FADE_DURATION_MS,
            !s.info.repeat,
    {
        let mut colors: Vec<Color> = Vec::new();
        let mut i: u64 = 0;
        while i <= RESOLUTION
            invariant
                i <= RESOLUTION + 1,
                colors@.len() == i,
                forall|j: int|
                    0 <= j < i ==> colors@[j] == start_color.spec_lerp(
                        *end_color,
                        frame_percent(j, RESOLUTION as int),
                    ),
            decreases RESOLUTION + 1 - i,
        {
            let percent: i64 = (i as i64) * ONE / (RESOLUTION as i64);
            proof {
                assert(0 <= percent <= ONE) by (nonlinear_arith)
                    requires
                        0 <= i <= RESOLUTION,
                        percent == i * ONE / (RESOLUTION as int),
                ;
                crate::color::lemma_lerp_in_range(*start_color, *end_color, percent as int);
            }
            colors.push(start_color.lerp(end_color, percent));
            i = i + 1;
        }
        proof {
            crate::color::lemma_lerp_endpoints(*start_color, *end_color, 0);
            assert(frame_percent(RESOLUTION as int, RESOLUTION as int) == ONE);
            assert(colors@ =~= lerp_frames(*start_color, *end_color));
        }
        LedSequence {
            colors,
            info: LedSequenceInfo {
                sequence_type: LedSequenceType::Color,
                name: "lerp".to_string(),
                duration: FADE_DURATION_MS,
                repeat: false,
            },
            index: 0,
            repeat_start: 0,
        }
    }

    /// Fade from `start_color` to black over `duration` milliseconds:
    /// `frames_for(duration) + 1` frames. Red, green and blue fade linearly;
    /// white follows the cube root of the fraction so that it dims sooner.
    pub fn fade_to_black(start_color: &Color, duration: u64) -> (s: LedSequence)
        ensures
            s.is_fresh(),
            s.colors@.len() == frames_for(duration as int) + 1,
            forall|i: int|
                0 <= i <= frames_for(duration as int) ==> s.colors@[i] == fade_frame(
                    *start_color,
                    frame_percent(i, frames_for(duration as int)),
                ),
            s.colors@[frames_for(duration as int)] == (Color { r: 0, g: 0, b: 0, w: 0 }),
            s.info.sequence_type == LedSequenceType::Color,
            s.info.name@ == "fade-to-black"@,
            s.info.duration == duration,
            !s.info.repeat,
    {
        let n = frame_count(duration);
        let black = Color { r: 0, g: 0, b: 0, w: 0 };
        let mut colors: Vec<Color> = Vec::new();
        let mut i: u64 = 0;
        while i <= n
            invariant
                n == frames_for(duration as int),
                n < 0x1000_0000_0000_0000,
                black == (Color { r: 0, g: 0, b: 0, w: 0 }),
                i <= n + 1,
                colors@.len() == i,
                forall|j: int|
                    0 <= j < i ==> colors@[j] == fade_frame(*start_color, frame_percent(j, n as int)),
            decreases n + 1 - i,
        {
            let p = percent_of(i, n);
            proof {
                crate::color::lemma_lerp_in_range(*start_color, black, p as int);
                assert(0 <= p * ONE * ONE <= ONE * ONE * ONE) by (nonlinear_arith)
                    requires
                        0 <= p <= ONE,
                ;
            }
            let ease = cube_root_floor((p as u64) * (ONE as u64) * (ONE as u64));
            proof {
                crate::color::lemma_lerp_channel_between(start_color.w as int, 0, ease as int);
            }
            let mut frame = start_color.lerp(&black, p);
            frame.w = lerp_component(start_color.w, 0, ease as i64);
            assert(p as u64 * ONE as u64 * ONE as u64 == p * ONE * ONE);
            assert(ease == white_ease(p as int));
            assert(frame == fade_frame(*start_color, frame_percent(i as int, n as int)));
            colors.push(frame);
            i = i + 1;
        }
        proof {
            let last = fade_frame(*start_color, frame_percent(n as int, n as int));
            assert(frame_percent(n as int, n as int) == ONE) by (nonlinear_arith)
                requires
                    n >= 0,
            ;
            assert(is_cube_root(ONE * ONE * ONE, ONE as int));
            lemma_cube_root_unique(ONE * ONE * ONE, ONE as int);
            crate::color::lemma_lerp_endpoints(*start_color, black, 0);
            crate::color::lemma_lerp_endpoints(
                Color { r: start_color.w, g: 0, b: 0, w: 0 },
                black,
                0,
            );
            assert(last == black);
        }
        LedSequence {
            colors,
            info: LedSequenceInfo {
                sequence_type: LedSequenceType::Color,
                name: "fade-to-black".to_string(),
                duration,
                repeat: false,
            },
            index: 0,
            repeat_start: 0,
        }
    }

    /// Removes noise: each channel goes through a running median of window
    /// `MEDIAN_FILTER_SIZE` (see `is_smoothed`). The number of frames and the
    /// cursor stay as they are.
    pub fn smooth_colors(self) -> (s: LedSequence)
        ensures
            s.index == self.index,
            s.repeat_start == self.repeat_start,
            s.info == self.info,
            is_smoothed(self.colors@, s.colors@),
            all_clamped(self.colors@) ==> all_clamped(s.colors@),
    {
        let r = running_median(&channel_values(&self.colors, 0), MEDIAN_FILTER_SIZE);
        let g = running_median(&channel_values(&self.colors, 1), MEDIAN_FILTER_SIZE);
        let b = running_median(&channel_values(&self.colors, 2), MEDIAN_FILTER_SIZE);
        let w = running_median(&channel_values(&self.colors, 3), MEDIAN_FILTER_SIZE);
        let ghost src = self.colors@;
        let mut out: Vec<Color> = Vec::new();
        let mut i: usize = 0;
        while i < self.colors.len()
            invariant
                src == self.colors@,
                r@.len() == src.len(),
                g@.len() == src.len(),
                b@.len() == src.len(),
                w@.len() == src.len(),
                i <= src.len(),
                out@.len() == i,
                forall|j: int|
                    0 <= j < i ==> #[trigger] out@[j] == (Color { r: r@[j], g: g@[j], b: b@[j], w: w@[j] }),
            decreases src.len() - i,
        {
            out.push(Color { r: r[i], g: g[i], b: b[i], w: w[i] });
            i = i + 1;
        }
        proof {
            assert forall|i: int, k: int|
                0 <= i < src.len() && 0 <= k < 4 implies is_lower_median(
                window_at(channel_seq(src, k), i, MEDIAN_FILTER_SIZE as int),
                #[trigger] channel(out@[i], k) as i64,
            ) by {
                assert(out@[i] == (Color { r: r@[i], g: g@[i], b: b@[i], w: w@[i] }));
            }
            if all_clamped(src) {
                assert forall|i: int| 0 <= i < out@.len() implies #[trigger] out@[i].is_clamped() by {
                    assert(channel(out@[i], 0) as i64 == out@[i].r);
                    assert(channel(out@[i], 1) as i64 == out@[i].g);
                    assert(channel(out@[i], 2) as i64 == out@[i].b);
                    assert(channel(out@[i], 3) as i64 == out@[i].w);
                    lemma_median_clamped(src, 0, i, out@[i].r);
                    lemma_median_clamped(src, 1, i, out@[i].g);
                    lemma_median_clamped(src, 2, i, out@[i].b);
                    lemma_median_clamped(src, 3, i, out@[i].w);
                }
            }
        }
        let mut s = self;
        s.colors = out;
        s
    }

    /// Resamples the frames to `frames_for(info.duration)` frames with a tent
    /// filter (see `resampled_frame`); the count holds whether that samples
    /// up or down. The cursor goes back to the first frame, and so does the
    /// restart point. Samples come from image columns, so there are fewer
    /// than 2^32 of them.
    pub fn resample(self) -> (s: LedSequence)
        requires
            all_clamped(self.colors@),
            self.colors@.len() < 0x1_0000_0000,
        ensures
            s.is_fresh(),
            s.info == self.info,
            s.colors@.len() == frames_for(self.info.duration as int),
            forall|i: int|
                0 <= i < s.colors@.len() ==> s.colors@[i] == resampled_frame(
                    self.colors@,
                    i,
                    frames_for(self.info.duration as int),
                ),
            all_clamped(s.colors@),
    {
        let m = frame_count(self.info.duration);
        let n: u64 = self.colors.len() as u64;
        let fs: u64 = if m == 0 {
            3
        } else {
            let w = ((2 * n as u128 + m as u128) / (2 * m as u128)) as u64;
            if w < 3 {
                3
            } else {
                w
            }
        };
        proof {
            if m > 0 {
                assert((2 * n + m) / (2 * m) <= n + 1) by (nonlinear_arith)
                    requires
                        m >= 1,
                        n >= 0,
                ;
            }
            assert(fs == filter_width(n as int, m as int));
        }
        let mut out: Vec<Color> = Vec::new();
        let mut i: u64 = 0;
        while i < m
            invariant
                all_clamped(self.colors@),
                n == self.colors@.len(),
                n < 0x1_0000_0000,
                m == frames_for(self.info.duration as int),
                fs == filter_width(n as int, m as int),
                3 <= fs <= 0x1_0000_0001,
                i <= m,
                out@.len() == i,
                forall|j: int| 0 <= j < i ==> out@[j] == resampled_frame(self.colors@, j, m as int),
                all_clamped(out@),
            decreases m - i,
        {
            assert(i * n <= 0xffff_ffff_ffff_ffff * 0xffff_ffff) by (nonlinear_arith)
                requires
                    i <= 0xffff_ffff_ffff_ffff,
                    n <= 0xffff_ffff,
            ;
            let q: u128 = (i as u128) * (n as u128) / (m as u128);
            assert(q <= n) by (nonlinear_arith)
                requires
                    i < m,
                    q == i * n / (m as int),
                    n >= 0,
            ;
            let center: u64 = q as u64;
            let c = tent_frame(&self.colors, center, fs);
            assert(c == resampled_frame(self.colors@, i as int, m as int));
            assert(c.is_clamped());
            out.push(c);
            i = i + 1;
        }
        let mut s = self;
        s.colors = out;
        s.index = 0;
        s.repeat_start = 0;
        s
    }

    /// A sequence from breakpoints. A single colour fades to its first
    /// colour; a gradient samples `breakpoint_frames` over its duration,
    /// `frames_for(duration)` frames (at least one), preceded by a fade from
    /// `fade_from` that a repeat skips.
    pub fn from_color_points(fade_from: &Color, points: LedColorPoints) -> (r: Result<LedSequence, SequenceError>)
        ensures
            points.info.sequence_type == LedSequenceType::Color ==> match r {
                Ok(s) => {
                    &&& points.color_points@.len() > 0
                    &&& s.is_fresh()
                    &&& s.colors@ == lerp_frames(*fade_from, points.color_points@[0])
                    &&& s.info.sequence_type == LedSequenceType::Color
                    &&& s.info.name@ == "lerp"@
                    &&& s.info.duration == FADE_DURATION_MS
                    &&& !s.info.repeat
                },
                Err(e) => e == SequenceError::BadBreakpoints && points.color_points@.len() == 0,
            },
            points.info.sequence_type == LedSequenceType::Gradient ==> {
                let c = points.color_points@;
                let p = points.percent_points@;
                let d = points.info.duration;
                match r {
                    Ok(s) => {
                        &&& c.len() == p.len() && c.len() >= 2
                        &&& d + FADE_DURATION_MS <= u64::MAX
                        &&& frames_for(d as int) > 0
                        &&& s.wf()
                        &&& s.index == 0
                        &&& s.repeat_start == RESOLUTION + 1
                        &&& s.colors@ == with_fade_in(*fade_from, breakpoint_frames(c, p, d as int))
                        &&& s.info.sequence_type == LedSequenceType::Gradient
                        &&& s.info.name@ == points.info.name@
                        &&& s.info.repeat == points.info.repeat
                        &&& s.info.duration == d + FADE_DURATION_MS
                    },
                    Err(e) => {
                        &&& (c.len() != p.len() || c.len() < 2) ==> e == SequenceError::BadBreakpoints
                        &&& (c.len() == p.len() && c.len() >= 2) ==> e == SequenceError::BadDuration
                            && (d + FADE_DURATION_MS > u64::MAX || frames_for(d as int) == 0)
                    },
                }
            },
    {
        match points.info.sequence_type {
            LedSequenceType::Color => {
                if points.color_points.len() == 0 {
                    return Err(SequenceError::BadBreakpoints);
                }
                Ok(LedSequence::from_color_lerp(fade_from, &points.color_points[0]))
            },
            LedSequenceType::Gradient => {
                let c = &points.color_points;
                let p = &points.percent_points;
                if c.len() != p.len() || c.len() < 2 {
                    return Err(SequenceError::BadBreakpoints);
                }
                if points.info.duration > u64::MAX - FADE_DURATION_MS {
                    return Err(SequenceError::BadDuration);
                }
                let n = frame_count(points.info.duration);
                if n == 0 {
                    return Err(SequenceError::BadDuration);
                }
                let ghost frames = breakpoint_frames(c@, p@, points.info.duration as int);
                let mut colors: Vec<Color> = Vec::new();
                let mut i: u64 = 0;
                while i < n
                    invariant
                        c@.len() == p@.len(),
                        c@.len() >= 2,
                        n == frames_for(points.info.duration as int),
                        n > 0,
                        frames == breakpoint_frames(c@, p@, points.info.duration as int),
                        i <= n,
                        colors@ =~= frames.subrange(0, i as int),
                    decreases n - i,
                {
                    let f = percent_of(i, n - 1);
                    let k = find_segment(p, f);
                    let t = segment_percent_of(p, k, f);
                    let len = c.len();
                    proof {
                        crate::color::lemma_lerp_in_range(c@[k as int], c@[k + 1], t as int);
                    }
                    colors.push(c[k].lerp(&c[k + 1], t));
                    i = i + 1;
                }
                let body = LedSequence { colors, info: points.info, index: 0, repeat_start: 0 };
                let fade = LedSequence::from_color_lerp(fade_from, &body.colors[0]);
                let fade_len = fade.colors.len();
                Ok(fade.chain(body).with_repeat_start(fade_len))
            },
        }
    }

    /// The next frame, advancing the cursor; at the end a repeating sequence
    /// resumes at its restart point, and any other returns `None`.
    pub fn next(&mut self) -> (r: Option<Color>)
        requires
            old(self).wf(),
        ensures
            final(self).wf(),
            final(self).colors@ == old(self).colors@,
            final(self).info == old(self).info,
            final(self).repeat_start == old(self).repeat_start,
            match old(self).spec_next_position() {
                Some(p) => r == Some(old(self).colors@[p as int]) && *final(self) == (LedSequence {
                    index: (p + 1) as usize,
                    ..*old(self)
                }),
                None => r is None && *final(self) == *old(self),
            },
    {
        if self.index >= self.colors.len() {
            if self.info.repeat && self.repeat_start < self.colors.len() {
                self.index = self.repeat_start;
            } else {
                return None;
            }
        }
        let color = self.colors[self.index];
        self.index = self.index + 1;
        Some(color)
    }

    /// Sets the frame that playback resumes at after the end.
    pub fn with_repeat_start(self, repeat_start: usize) -> (s: LedSequence)
        requires
            self.wf(),
            repeat_start <= self.colors@.len(),
        ensures
            s.wf(),
            s.colors@ == self.colors@,
            s.info == self.info,
            s.index == self.index,
            s.repeat_start == repeat_start,
    {
        let mut s = self;
        s.repeat_start = repeat_start;
        s
    }

    /// `self` followed by `other`; the result has `other`'s description, with
    /// the two durations added.
    pub(crate) fn chain(self, other: LedSequence) -> (s: LedSequence)
        requires
            self.is_fresh(),
            self.info.duration + other.info.duration <= u64::MAX,
        ensures
            s.is_fresh(),
            s.colors@ == self.colors@ + other.colors@,
            s.info.sequence_type == other.info.sequence_type,
            s.info.name@ == other.info.name@,
            s.info.repeat == other.info.repeat,
            s.info.duration == self.info.duration + other.info.duration,
    {
        let mut s = self;
        let mut other = other;
        s.colors.append(&mut other.colors);
        let duration = s.info.duration + other.info.duration;
        s.info = other.info;
        s.info.duration = duration;
        s
    }
}

impl Default for LedSequence {
    /// An empty colour sequence named `default`.
    fn default() -> (s: LedSequence)
        ensures
            s.is_fresh(),
            s.colors@.len() == 0,
            s.info.sequence_type == LedSequenceType::Color,
            s.info.name@ == "default"@,
            s.info.duration == 0,
            !s.info.repeat,
    {
        LedSequence {
            colors: Vec::new(),
            info: LedSequenceInfo {
                sequence_type: LedSequenceType::Color,
                name: "default".to_string(),
                duration: 0,
                repeat: false,
            },
            index: 0,
            repeat_start: 0,
        }
    }
}

/// A repeating sequence plays its frames once from the start; from then on
/// every request returns the frame at `repeat_start` followed by the rest in
/// order, so the cycle from `repeat_start` to the end has the same length on
/// every pass.
pub proof fn lemma_repeat_cycle(s: LedSequence, k: nat)
    requires
        s.wf(),
        s.info.repeat,
        s.repeat_start < s.colors@.len(),
    ensures
        ({
            let len = s.colors@.len();
            let rs = s.repeat_start as nat;
            &&& position_of_request(len, true, rs, k) == Some(
                if k < len {
                    k
                } else {
                    (rs + (k - len) % ((len - rs) as int)) as nat
                },
            )
            &&& position_of_request(len, true, rs, len) == Some(rs)
            &&& k >= len ==> position_of_request(len, true, rs, (k + len - rs) as nat) == position_of_request(len, true, rs, k)
        }),
{
    let len = s.colors@.len();
    let rs = s.repeat_start as nat;
    lemma_repeat_positions(len, rs, k);
    lemma_repeat_positions(len, rs, len);
    lemma_repeat_positions(len, rs, (k + (len - rs)) as nat);
    if k >= len {
        let c = (len - rs) as int;
        vstd::arithmetic::div_mod::lemma_mod_add_multiples_vanish(k - len, c);
    }
}

proof fn lemma_repeat_positions(len: nat, rs: nat, k: nat)
    requires
        rs < len,
    ensures
        cursor_after(len, true, rs, k) == if k <= len {
            k
        } else {
            (rs + (k - 1 - len) % ((len - rs) as int) + 1) as nat
        },
        position_of_request(len, true, rs, k) == Some(
            if k < len {
                k
            } else {
                (rs + (k - len) % ((len - rs) as int)) as nat
            },
        ),
    decreases k,
{
    let c = (len - rs) as int;
    if k > 0 {
        lemma_repeat_positions(len, rs, (k - 1) as nat);
        if k > len {
            let j = k - 1 - len;
            vstd::arithmetic::div_mod::lemma_mod_bound(j, c);
            vstd::arithmetic::div_mod::lemma_fundamental_div_mod(j, c);
            let q = j / c;
            let r = j % c;
            if r + 1 < c {
                vstd::arithmetic::div_mod::lemma_fundamental_div_mod_converse(j + 1, c, q, r + 1);
            } else {
                assert((q + 1) * c == c * q + c) by (nonlinear_arith);
                vstd::arithmetic::div_mod::lemma_fundamental_div_mod_converse(j + 1, c, q + 1, 0);
            }
        }
    }
    if k == len {
        vstd::arithmetic::div_mod::lemma_fundamental_div_mod_converse(0, c, 0, 0);
    }
}

/// A sequence that does not repeat plays each frame once, in order, and then
/// returns nothing on every later request.
pub proof fn lemma_play_once(s: LedSequence, k: nat)
    requires
        s.wf(),
        !s.info.repeat,
    ensures
        position_of_request(s.colors@.len(), false, s.repeat_start as nat, k) == if k < s.colors@.len() {
            Some(k)
        } else {
            None::<nat>
        },
    decreases k,
{
    let len = s.colors@.len();
    let rs = s.repeat_start as nat;
    lemma_play_once_cursor(len, rs, k);
}

proof fn lemma_play_once_cursor(len: nat, rs: nat, k: nat)
    ensures
        cursor_after(len, false, rs, k) == if k <= len {
            k
        } else {
            len
        },
    decreases k,
{
    if k > 0 {
        lemma_play_once_cursor(len, rs, (k - 1) as nat);
    }
}

} // verus!

verus! {

/// The transition from black to full red: `RESOLUTION + 1` frames whose red
/// channel rises strictly from frame to frame and ends at full red, with
/// green, blue and white at zero throughout.
pub proof fn lemma_red_ramp()
    ensures
        ({
            let black = Color { r: 0, g: 0, b: 0, w: 0 };
            let red = Color { r: ONE, g: 0, b: 0, w: 0 };
            let f = lerp_frames(black, red);
            &&& f.len() == RESOLUTION + 1
            &&& f[RESOLUTION as int] == red
            &&& forall|i: int| 0 <= i < RESOLUTION ==> #[trigger] f[i].r < f[i + 1].r
            &&& forall|i: int| 0 <= i <= RESOLUTION ==> #[trigger] f[i].g == 0 && f[i].b == 0 && f[i].w == 0
        }),
{
    let black = Color { r: 0, g: 0, b: 0, w: 0 };
    let red = Color { r: ONE, g: 0, b: 0, w: 0 };
    let f = lerp_frames(black, red);
    assert forall|i: int| 0 <= i <= RESOLUTION implies #[trigger] f[i].r == frame_percent(i, RESOLUTION as int) by {
        let p = frame_percent(i, RESOLUTION as int);
        vstd::arithmetic::div_mod::lemma_div_multiples_vanish(p, ONE as int);
        assert((ONE - 0) * p == ONE * p);
    }
    assert forall|i: int| 0 <= i < RESOLUTION implies #[trigger] f[i].r < f[i + 1].r by {
        assert(f[i + 1].r == frame_percent(i + 1, RESOLUTION as int));
    }
    assert forall|i: int| 0 <= i <= RESOLUTION implies #[trigger] f[i].g == 0 && f[i].b == 0 && f[i].w == 0 by {
        let p = frame_percent(i, RESOLUTION as int);
        assert((0 - 0) * p == 0);
    }
    crate::color::lemma_lerp_endpoints(black, red, 0);
}

} // verus!
