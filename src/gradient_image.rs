use vstd::prelude::*;

use crate::color::{byte_channel, Color};
use crate::led_sequence::{
    all_clamped, frame_count, frames_for, is_smoothed, resampled_frame, with_fade_in, LedSequence,
    LedSequenceInfo, LedSequenceType, SequenceError, FADE_DURATION_MS, RESOLUTION,
};
use crate::sequence_name::{info_matches, parse_sequence_name, parsed_name};

verus! {

/// What decoding a PNG file gives: the pixel bytes of its first frame, its
/// width and its height; `None` when the bytes are not a PNG image.
pub uninterp spec fn png_image(bytes: Seq<u8>) -> Option<(Seq<u8>, u32, u32)>;

/// Relies on png's `Decoder::read_info` and `Reader::next_frame`: the bytes
/// are decoded in memory, and the result depends on them alone.
#[verifier::external_body]
fn decode_png(bytes: &[u8]) -> (r: Option<(Vec<u8>, u32, u32)>)
    ensures
        r is None <==> png_image(bytes@) is None,
        r is Some ==> png_image(bytes@) == Some((r->Some_0.0@, r->Some_0.1, r->Some_0.2)),
{
    let mut reader = png::Decoder::new(bytes).read_info().ok()?;
    let mut buf = vec![0; reader.output_buffer_size()];
    let frame = reader.next_frame(&mut buf).ok()?;
    Some((buf, frame.width, frame.height))
}

/// Offset of the row at mid-height, whose pixels give the white channel.
pub open spec fn white_row_start(width: int, height: int) -> int {
    3 * width * (height / 2)
}

/// Colour of pixel column `j`: red, green and blue from the first row, white
/// from the red byte of the same column in the row at offset `white`.
pub open spec fn pixel_color(p: Seq<u8>, j: int, white: int) -> Color {
    Color {
        r: byte_channel(p[3 * j]) as i64,
        g: byte_channel(p[3 * j + 1]) as i64,
        b: byte_channel(p[3 * j + 2]) as i64,
        w: byte_channel(p[3 * j + white]) as i64,
    }
}

/// The raw gradient samples of an image, one per pixel column.
pub open spec fn gradient_samples(p: Seq<u8>, width: int, height: int) -> Seq<Color> {
    Seq::new(width as nat, |j: int| pixel_color(p, j, white_row_start(width, height)))
}

/// The pixel bytes cover every byte that the samples read.
pub open spec fn pixels_cover(len: int, width: int, height: int) -> bool {
    width == 0 || (3 * width <= len && 3 * (width - 1) + white_row_start(width, height) < len)
}

/// What a sequence built from decoded pixels is, given the description read
/// from its name: a single colour fades to the first pixel; a gradient is
/// denoised, resampled to its duration and opened by a fade from `from`
/// that a repeat skips.
pub open spec fn pixels_outcome(
    from: Color,
    kind: LedSequenceType,
    name: Seq<char>,
    duration: int,
    repeat: bool,
    p: Seq<u8>,
    width: int,
    height: int,
    r: Result<LedSequence, SequenceError>,
) -> bool {
    let white = white_row_start(width, height);
    match kind {
        LedSequenceType::Color => if 3 <= p.len() && white < p.len() {
            r is Ok && {
                let s = r->Ok_0;
                &&& s.is_fresh()
                &&& s.colors@ == crate::led_sequence::lerp_frames(from, pixel_color(p, 0, white))
                &&& s.info.sequence_type == LedSequenceType::Color
                &&& s.info.name@ == "lerp"@
                &&& s.info.duration == FADE_DURATION_MS
                &&& !s.info.repeat
            }
        } else {
            r == Err::<LedSequence, SequenceError>(SequenceError::ImageTooSmall)
        },
        LedSequenceType::Gradient => {
            let m = frames_for(duration);
            if !pixels_cover(p.len() as int, width, height) {
                r == Err::<LedSequence, SequenceError>(SequenceError::ImageTooSmall)
            } else if m == 0 || duration + FADE_DURATION_MS > u64::MAX {
                r == Err::<LedSequence, SequenceError>(SequenceError::BadDuration)
            } else {
                r is Ok && {
                    let s = r->Ok_0;
                    &&& s.wf()
                    &&& s.index == 0
                    &&& s.repeat_start == RESOLUTION + 1
                    &&& exists|smoothed: Seq<Color>|
                        is_smoothed(gradient_samples(p, width, height), smoothed) && s.colors@
                            == with_fade_in(
                            from,
                            Seq::new(m as nat, |i: int| resampled_frame(smoothed, i, m)),
                        )
                    &&& s.info.sequence_type == LedSequenceType::Gradient
                    &&& s.info.name@ == name
                    &&& s.info.repeat == repeat
                    &&& s.info.duration == duration + FADE_DURATION_MS
                }
            }
        },
    }
}

fn pixel_at(p: &Vec<u8>, j: usize, white: usize) -> (c: Color)
    requires
        3 * j + 2 < p@.len(),
        3 * j + white < p@.len(),
    ensures
        c == pixel_color(p@, j as int, white as int),
        c.is_clamped(),
{
    let n = p.len();
    Color::from([p[3 * j], p[3 * j + 1], p[3 * j + 2], p[3 * j + white]])
}

impl LedSequence {
    /// A sequence from decoded image pixels (see `pixels_outcome`).
    pub fn from_png_pixels(
        fade_from: &Color,
        info: LedSequenceInfo,
        pixels: &Vec<u8>,
        width: u32,
        height: u32,
    ) -> (r: Result<LedSequence, SequenceError>)
        ensures
            pixels_outcome(
                *fade_from,
                info.sequence_type,
                info.name@,
                info.duration as int,
                info.repeat,
                pixels@,
                width as int,
                height as int,
                r,
            ),
    {
        assert(3 * width * (height / 2) <= 3 * 0xffff_ffff * 0xffff_ffff) by (nonlinear_arith)
            requires
                width <= 0xffff_ffff,
                height / 2 <= 0xffff_ffff,
        ;
        let white128: u128 = 3 * (width as u128) * ((height / 2) as u128);
        let len = pixels.len();
        match info.sequence_type {
            LedSequenceType::Color => {
                if len < 3 || white128 >= len as u128 {
                    return Err(SequenceError::ImageTooSmall);
                }
                let first = pixel_at(pixels, 0, white128 as usize);
                Ok(LedSequence::from_color_lerp(fade_from, &first))
            },
            LedSequenceType::Gradient => {
                let w = width as usize;
                if w > 0 && (3 * (w as u128) > len as u128 || 3 * (w as u128 - 1) + white128 >= len as u128) {
                    return Err(SequenceError::ImageTooSmall);
                }
                let m = frame_count(info.duration);
                if m == 0 || info.duration > u64::MAX - FADE_DURATION_MS {
                    return Err(SequenceError::BadDuration);
                }
                assert(white128 < len || w == 0);
                if w == 0 {
                    assert(white128 == 0) by (nonlinear_arith)
                        requires
                            w == 0,
                            white128 == 3 * w * (height / 2),
                    ;
                }
                let white = white128 as usize;
                let ghost samples = gradient_samples(pixels@, width as int, height as int);
                let mut colors: Vec<Color> = Vec::new();
                let mut j: usize = 0;
                while j < w
                    invariant
                        w == width,
                        white == white_row_start(width as int, height as int),
                        pixels_cover(pixels@.len() as int, width as int, height as int),
                        samples == gradient_samples(pixels@, width as int, height as int),
                        j <= w,
                        colors@ =~= samples.subrange(0, j as int),
                        all_clamped(colors@),
                    decreases w - j,
                {
                    colors.push(pixel_at(pixels, j, white));
                    j = j + 1;
                }
                assert(samples.subrange(0, w as int) =~= samples);
                assert(colors@ == samples);
                let raw = LedSequence { colors, info, index: 0, repeat_start: 0 };
                let smooth = raw.smooth_colors();
                let body = smooth.resample();
                assert(body.colors@.len() == m);
                let fade = LedSequence::from_color_lerp(fade_from, &body.colors[0]);
                let fade_len = fade.colors.len();
                let s = fade.chain(body).with_repeat_start(fade_len);
                proof {
                    let frames = Seq::new(m as nat, |i: int| resampled_frame(smooth.colors@, i, m as int));
                    assert(body.colors@ =~= frames);
                    assert(is_smoothed(samples, smooth.colors@));
                }
                Ok(s)
            },
        }
    }

    /// A sequence from a PNG image held in memory, described by its file
    /// name `stem` (without extension): `{kind}_{name}_{duration?}_{repeat?}`
    /// with the duration in seconds, e.g. `gradient_sunrise_600`.
    pub fn from_png(fade_from: &Color, stem: &str, png: &[u8]) -> (r: Result<LedSequence, SequenceError>)
        ensures
            match parsed_name(stem@) {
                Err(e) => r == Err::<LedSequence, SequenceError>(e),
                Ok(d) => match png_image(png@) {
                    None => r == Err::<LedSequence, SequenceError>(SequenceError::BadImage),
                    Some(img) => pixels_outcome(
                        *fade_from,
                        d.0,
                        d.1,
                        d.2,
                        d.3,
                        img.0,
                        img.1 as int,
                        img.2 as int,
                        r,
                    ),
                },
            },
    {
        let info = match parse_sequence_name(stem) {
            Ok(info) => info,
            Err(e) => {
                return Err(e);
            },
        };
        match decode_png(png) {
            None => Err(SequenceError::BadImage),
            Some((pixels, width, height)) => LedSequence::from_png_pixels(fade_from, info, &pixels, width, height),
        }
    }
}

} // verus!
