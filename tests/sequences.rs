use led_foot::color::{Color, ONE};
use led_foot::led_sequence::{
    frame_count, LedColorPoints, LedSequence, LedSequenceInfo, LedSequenceType, SequenceError,
    FADE_DURATION_MS, RESOLUTION,
};
use led_foot::median_filter::running_median;
use led_foot::sequence_name::parse_sequence_name;

fn info(kind: LedSequenceType, duration: u64, repeat: bool) -> LedSequenceInfo {
    LedSequenceInfo { sequence_type: kind, name: "test".to_string(), duration, repeat }
}

fn sequence(colors: Vec<Color>, duration: u64, repeat: bool) -> LedSequence {
    LedSequence { colors, info: info(LedSequenceType::Gradient, duration, repeat), index: 0, repeat_start: 0 }
}

fn drain(s: &mut LedSequence) -> Vec<Color> {
    let mut out = Vec::new();
    while let Some(c) = s.next() {
        out.push(c);
    }
    out
}

#[test]
fn color_lerp_has_resolution_plus_one_frames() {
    let a = Color::new(0, ONE, 0, 100);
    let b = Color::new(ONE, 0, 0, 900);
    let mut s = LedSequence::from_color_lerp(&a, &b);
    assert_eq!(s.colors.len(), RESOLUTION as usize + 1);
    assert_eq!(s.colors[0], a);
    assert_eq!(s.colors[RESOLUTION as usize], b);
    assert_eq!(s.colors[15], Color::new(500_000, 500_000, 0, 500));
    assert_eq!(s.info.name, "lerp");
    assert_eq!(s.info.duration, FADE_DURATION_MS);
    assert!(!s.info.repeat);
    assert_eq!(drain(&mut s).len(), 31);
    assert_eq!(s.next(), None);
}

#[test]
fn fade_to_black_frames() {
    let start = Color::new(ONE, ONE / 2, 0, ONE);
    let s = LedSequence::fade_to_black(&start, 1000);
    assert_eq!(s.colors.len(), 31);
    assert_eq!(s.colors[0], start);
    assert_eq!(s.colors[30], Color::new(0, 0, 0, 0));
    // percent 1/8 of the way: white has dimmed by the cube root, a half
    let eighth = LedSequence::fade_to_black(&start, 266);
    assert_eq!(eighth.colors.len(), 9);
    assert_eq!(eighth.colors[1], Color::new(875_000, 437_500, 0, 500_000));
    assert_eq!(s.info.name, "fade-to-black");
    assert_eq!(s.info.duration, 1000);
}

#[test]
fn fade_to_black_rounds_frame_count() {
    assert_eq!(frame_count(0), 0);
    assert_eq!(frame_count(16), 0);
    assert_eq!(frame_count(17), 1);
    assert_eq!(frame_count(2500), 75);
    let s = LedSequence::fade_to_black(&Color::new(ONE, ONE, ONE, ONE), 0);
    assert_eq!(s.colors, vec![Color::new(0, 0, 0, 0)]);
    let t = LedSequence::fade_to_black(&Color::new(ONE, ONE, ONE, ONE), 50);
    assert_eq!(t.colors.len(), 3);
}

#[test]
fn resample_gives_target_count_up_and_down() {
    let src: Vec<Color> = (0..100).map(|i| Color::new(i * 10_000, 0, ONE - i * 10_000, ONE / 2)).collect();
    let down = sequence(src.clone(), 1000, false).resample();
    assert_eq!(down.colors.len(), 30);
    let up = sequence(src.clone(), 10_000, false).resample();
    assert_eq!(up.colors.len(), 300);
    let few = sequence(src[..2].to_vec(), 2000, false).resample();
    assert_eq!(few.colors.len(), 60);
    let none = sequence(src, 10, false).resample();
    assert_eq!(none.colors.len(), 0);
}

#[test]
fn resample_tent_weights() {
    let c = Color::new(300_000, 300_000, 300_000, 300_000);
    let s = sequence(vec![c; 10], 167, false).resample();
    assert_eq!(s.colors, vec![c; 5]);
    let ramp: Vec<Color> = (0..10).map(|j| Color::new(j * 100_000, 0, ONE, 0)).collect();
    let r = sequence(ramp, 167, false).resample();
    let reds: Vec<i64> = r.colors.iter().map(|c| c.r).collect();
    assert_eq!(reds, vec![0, 175_000, 375_000, 575_000, 775_000]);
    assert!(r.colors.iter().all(|c| c.g == 0 && c.b == ONE && c.w == 0));
}

#[test]
fn resample_resets_the_cursor() {
    let c = Color::new(1, 2, 3, 4);
    let mut s = sequence(vec![c; 10], 1000, true);
    s.index = 7;
    s.repeat_start = 5;
    let r = s.resample();
    assert_eq!((r.index, r.repeat_start), (0, 0));
}

#[test]
fn repeating_sequence_resumes_at_repeat_start() {
    let a = Color::new(1, 0, 0, 0);
    let b = Color::new(2, 0, 0, 0);
    let c = Color::new(3, 0, 0, 0);
    let mut s = sequence(vec![a, b, c], 100, true).with_repeat_start(1);
    let got: Vec<Color> = (0..9).map(|_| s.next().unwrap()).collect();
    assert_eq!(got, vec![a, b, c, b, c, b, c, b, c]);
}

#[test]
fn non_repeating_sequence_ends_once() {
    let a = Color::new(1, 0, 0, 0);
    let mut s = sequence(vec![a, a], 100, false);
    assert_eq!(drain(&mut s).len(), 2);
    assert_eq!(s.next(), None);
    assert_eq!(s.next(), None);
}

#[test]
fn running_median_removes_spikes() {
    let out = running_median(&vec![10, 10, 1000, 10, 10], 51);
    assert_eq!(out, vec![10, 10, 10, 10, 10]);
    let asc = running_median(&vec![10, 20, 30, 40, 50, 60, 70], 5);
    assert_eq!(asc, vec![10, 10, 20, 20, 30, 40, 50]);
    let desc = running_median(&vec![70, 60, 50, 40, 30, 20, 10], 4);
    assert_eq!(desc, vec![70, 60, 60, 50, 40, 30, 20]);
}

#[test]
fn smooth_colors_filters_each_channel() {
    let mut colors = vec![Color::new(100, 200, 300, 400); 5];
    colors[2] = Color::new(ONE, 0, ONE, 0);
    let s = sequence(colors, 100, false).smooth_colors();
    assert_eq!(s.colors, vec![Color::new(100, 200, 300, 400); 5]);
}

#[test]
fn breakpoint_gradient() {
    let points = LedColorPoints {
        color_points: vec![Color::new(0, 0, 0, 0), Color::new(ONE, 0, 0, 0), Color::new(ONE, ONE, 0, 0)],
        percent_points: vec![0, ONE / 2, ONE],
        info: info(LedSequenceType::Gradient, 1000, true),
    };
    let from = Color::new(0, 0, ONE, 0);
    let s = LedSequence::from_color_points(&from, points).unwrap();
    assert_eq!(s.colors.len(), 31 + 30);
    assert_eq!(s.colors[0], from);
    assert_eq!(s.colors[30], Color::new(0, 0, 0, 0));
    assert_eq!(s.colors[31], Color::new(0, 0, 0, 0));
    assert_eq!(s.colors[31 + 6], Color::new(413_792, 0, 0, 0));
    assert_eq!(s.colors[31 + 14], Color::new(965_516, 0, 0, 0));
    assert_eq!(s.colors[31 + 15], Color::new(ONE, 34_482, 0, 0));
    assert_eq!(s.colors[31 + 29], Color::new(ONE, ONE, 0, 0));
    assert_eq!(s.repeat_start, 31);
    assert_eq!(s.info.duration, 1500);
    assert!(s.info.repeat);
}

#[test]
fn breakpoint_errors() {
    let from = Color::new(0, 0, 0, 0);
    let bad = LedColorPoints {
        color_points: vec![from],
        percent_points: vec![0, ONE],
        info: info(LedSequenceType::Gradient, 1000, false),
    };
    assert_eq!(LedSequence::from_color_points(&from, bad).unwrap_err(), SequenceError::BadBreakpoints);
    let empty = LedColorPoints { color_points: vec![], percent_points: vec![], info: info(LedSequenceType::Color, 0, false) };
    assert_eq!(LedSequence::from_color_points(&from, empty).unwrap_err(), SequenceError::BadBreakpoints);
    let long = LedColorPoints {
        color_points: vec![from, from],
        percent_points: vec![0, ONE],
        info: info(LedSequenceType::Gradient, u64::MAX, false),
    };
    assert_eq!(LedSequence::from_color_points(&from, long).unwrap_err(), SequenceError::BadDuration);
    let short = LedColorPoints {
        color_points: vec![from, from],
        percent_points: vec![0, ONE],
        info: info(LedSequenceType::Gradient, 10, false),
    };
    assert_eq!(LedSequence::from_color_points(&from, short).unwrap_err(), SequenceError::BadDuration);
    let single = LedColorPoints {
        color_points: vec![Color::new(ONE, 0, 0, 0)],
        percent_points: vec![],
        info: info(LedSequenceType::Color, 0, false),
    };
    let s = LedSequence::from_color_points(&from, single).unwrap();
    assert_eq!(s.colors.len(), 31);
    assert_eq!(s.colors[30], Color::new(ONE, 0, 0, 0));
}

#[test]
fn sequence_names() {
    let c = parse_sequence_name("color_red").unwrap();
    assert_eq!(c.sequence_type, LedSequenceType::Color);
    assert_eq!(c.name, "red");
    assert_eq!(c.duration, 0);
    let g = parse_sequence_name("gradient_sunrise_600").unwrap();
    assert_eq!(g.sequence_type, LedSequenceType::Gradient);
    assert_eq!(g.name, "sunrise");
    assert_eq!(g.duration, 600_000);
    assert!(!g.repeat);
    let r = parse_sequence_name("gradient_rainbow_20_repeat").unwrap();
    assert!(r.repeat);
    assert_eq!(r.duration, 20_000);
    assert_eq!(parse_sequence_name("gradient_x_0.5").unwrap().duration, 500);
    assert_eq!(parse_sequence_name("gradient_x_1.2345").unwrap().duration, 1234);
    assert_eq!(parse_sequence_name("gradient_x_.25").unwrap().duration, 250);
}

#[test]
fn sequence_name_errors() {
    assert_eq!(parse_sequence_name("color").unwrap_err(), SequenceError::BadName);
    assert_eq!(parse_sequence_name("color_a_b").unwrap_err(), SequenceError::BadName);
    assert_eq!(parse_sequence_name("gradient_x").unwrap_err(), SequenceError::BadName);
    assert_eq!(parse_sequence_name("a_b_c_d_e").unwrap_err(), SequenceError::BadName);
    assert_eq!(parse_sequence_name("picture_x").unwrap_err(), SequenceError::UnknownKind);
    assert_eq!(parse_sequence_name("gradient_x_ten").unwrap_err(), SequenceError::BadDuration);
    assert_eq!(parse_sequence_name("gradient_x_").unwrap_err(), SequenceError::BadDuration);
    assert_eq!(parse_sequence_name("gradient_x_1.2.3").unwrap_err(), SequenceError::BadDuration);
    assert_eq!(parse_sequence_name("gradient_x_99999999999999999999").unwrap_err(), SequenceError::BadDuration);
}

fn naive_lower_median(window: &[i64]) -> i64 {
    let mut w = window.to_vec();
    w.sort();
    w[(w.len() - 1) / 2]
}

#[test]
fn running_median_matches_sorted_window() {
    let mut x: i64 = 12345;
    let values: Vec<i64> = (0..300)
        .map(|_| {
            x = (x * 1103515245 + 12345) % 2147483648;
            x % 1000
        })
        .collect();
    for size in [1usize, 2, 4, 5, 51] {
        let out = running_median(&values, size);
        for i in 0..values.len() {
            let lo = if i + 1 >= size { i + 1 - size } else { 0 };
            assert_eq!(out[i], naive_lower_median(&values[lo..=i]), "size {} at {}", size, i);
        }
    }
}

#[test]
fn default_sequence_is_empty() {
    let mut s = LedSequence::default();
    assert!(s.colors.is_empty());
    assert_eq!(s.info.name, "default");
    assert_eq!(s.next(), None);
}
