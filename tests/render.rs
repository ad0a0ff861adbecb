use led_foot::color::{Color, ONE};
use led_foot::led_sequence::{LedSequence, LedSequenceInfo, LedSequenceType, FADE_DURATION_MS};
use led_foot::led_state::{fade_request_duration, init_global_state};
use led_foot::led_system::{render_step, LedSystemStatus, NOMINAL_FRAME_US};
use led_foot::rooms::Rooms;

#[test]
fn transition_to_red_plays_then_settles() {
    let mut state = init_global_state();
    let mut last_rooms = state.current_rooms;
    let mut status = LedSystemStatus::new(0);
    let red = Color::new(ONE, 0, 0, 0);
    state.set_color(&red);
    assert_eq!(state.future_color(), red);
    let installed = state.current_sequence.as_ref().unwrap();
    assert!(!installed.info.repeat);
    assert_eq!(installed.info.name, "lerp");
    let mut reds = Vec::new();
    for step in 0..31u64 {
        let t = render_step(&mut state, &mut last_rooms, &mut status, step * NOMINAL_FRAME_US);
        let c = t.color.unwrap();
        assert_eq!((c.g, c.b, c.w), (0, 0, 0));
        reds.push(c.r);
        status.frame_sent(step * NOMINAL_FRAME_US);
    }
    assert_eq!(reds.len(), 31);
    assert!(reds.windows(2).all(|w| w[0] < w[1]));
    assert_eq!(reds[30], ONE);
    let t = render_step(&mut state, &mut last_rooms, &mut status, 31 * NOMINAL_FRAME_US);
    assert_eq!(t.color, None);
    assert!(state.current_sequence.is_none());
    assert_eq!(state.current_color, red);
    assert_eq!(status.index, 0);
}

#[test]
fn new_sequence_truncates_old_one() {
    let mut state = init_global_state();
    let mut last_rooms = state.current_rooms;
    let mut status = LedSystemStatus::new(0);
    state.set_color(&Color::new(ONE, 0, 0, 0));
    for step in 0..10u64 {
        render_step(&mut state, &mut last_rooms, &mut status, step);
        status.frame_sent(step);
    }
    assert_eq!(status.index, 10);
    let blue = Color::new(0, 0, ONE, 0);
    let seq = LedSequence {
        colors: vec![blue; 3],
        info: LedSequenceInfo { sequence_type: LedSequenceType::Color, name: "blue".to_string(), duration: 100, repeat: false },
        index: 0,
        repeat_start: 0,
    };
    state.install_sequence(seq);
    let mut frames = Vec::new();
    loop {
        let t = render_step(&mut state, &mut last_rooms, &mut status, 1000);
        match t.color {
            Some(c) => frames.push(c),
            None => break,
        }
    }
    assert_eq!(frames, vec![blue; 3]);
    assert_eq!(state.current_color, blue);
}

#[test]
fn late_frame_shortens_the_next_wait() {
    let mut status = LedSystemStatus::new(1_000);
    // frame 0 went out on time
    assert_eq!(status.frame_sent(1_000), NOMINAL_FRAME_US);
    // frame 1 took three intervals to write
    let sleep = status.frame_sent(1_000 + NOMINAL_FRAME_US + 3 * NOMINAL_FRAME_US);
    assert_eq!(sleep, 0);
    // the next frames go out at once, each catching up one interval
    assert_eq!(status.frame_sent(1_000 + 4 * NOMINAL_FRAME_US), 0);
    assert_eq!(status.frame_sent(1_000 + 4 * NOMINAL_FRAME_US), 0);
    // back on schedule: frame 5 is due one interval later
    assert_eq!(status.frame_sent(1_000 + 4 * NOMINAL_FRAME_US), NOMINAL_FRAME_US);
    // an early frame waits longer
    let sleep = status.frame_sent(1_000 + 5 * NOMINAL_FRAME_US - 100);
    assert_eq!(sleep, NOMINAL_FRAME_US + 100);
    assert_eq!(status.index, 6);
}

#[test]
fn rooms_are_forwarded_when_changed() {
    let mut state = init_global_state();
    let mut last_rooms = state.current_rooms;
    let mut status = LedSystemStatus::new(0);
    assert_eq!(render_step(&mut state, &mut last_rooms, &mut status, 0).rooms, None);
    state.current_rooms = Rooms { living_room: true, office: false, bedroom: false };
    let t = render_step(&mut state, &mut last_rooms, &mut status, 1);
    assert_eq!(t.rooms, Some(state.current_rooms));
    assert_eq!(render_step(&mut state, &mut last_rooms, &mut status, 2).rooms, None);
    state.shutdown = true;
    assert!(render_step(&mut state, &mut last_rooms, &mut status, 3).exit);
}

#[test]
fn future_color_and_names() {
    let mut state = init_global_state();
    assert_eq!(state.future_color(), Color::new(0, 0, 0, 0));
    assert_eq!(state.sequence_name(), None);
    state.current_color = Color::new(ONE, ONE, ONE, ONE);
    state.fade_to_black(1000);
    assert_eq!(state.future_color(), Color::new(0, 0, 0, 0));
    assert_eq!(state.sequence_name().unwrap(), "fade-to-black");
    assert!(state.interrupt);
}

#[test]
fn fade_requests() {
    assert_eq!(fade_request_duration("fade-to-black-2"), Some(2000));
    assert_eq!(fade_request_duration("fade-to-black-0.25"), Some(250));
    assert_eq!(fade_request_duration("fade-to-black-soon"), Some(FADE_DURATION_MS));
    assert_eq!(fade_request_duration("fade-to-black-"), Some(FADE_DURATION_MS));
    assert_eq!(fade_request_duration("gradient_sunrise_600.png"), None);
    assert_eq!(fade_request_duration("fade"), None);
}
