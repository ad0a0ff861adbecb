use led_foot::color::{Color, ONE};
use led_foot::rooms::{Room, Rooms, ScheduledRoomState};
use led_foot::serial_manager::{
    color_from_bytes, color_to_bytes, link_step, reply_is, rooms_to_bytes, LinkEvent, LinkState,
    COLOR_CMD, COLOR_TAG, READY_TAG, ROOM_CMD, ROOM_TAG,
};

#[test]
fn lerp_hits_both_end_points() {
    let a = Color::new(100, 200_000, ONE, 0);
    let b = Color::new(ONE, 0, 300, 777_777);
    assert_eq!(a.lerp(&b, 0), a);
    assert_eq!(a.lerp(&b, ONE), b);
}

#[test]
fn lerp_midpoint_and_extrapolation() {
    let a = Color::new(0, ONE, 0, 0);
    let b = Color::new(ONE, 0, 0, 0);
    assert_eq!(a.lerp(&b, ONE / 2), Color::new(500_000, 500_000, 0, 0));
    let far = a.lerp(&b, 2 * ONE);
    assert_eq!(far, Color::new(2 * ONE, -ONE, 0, 0));
    assert_eq!(far.clamped(), Color::new(ONE, 0, 0, 0));
}

#[test]
fn clamped_lerp_stays_in_range() {
    let a = Color::new(-5, ONE, 3, ONE);
    let b = Color::new(ONE, -ONE, 0, 2 * ONE);
    for t in [-ONE, -1, 0, 1, ONE / 3, ONE, 3 * ONE] {
        let c = a.lerp(&b, t).clamped();
        for v in [c.r, c.g, c.b, c.w] {
            assert!((0..=ONE).contains(&v));
        }
    }
}

#[test]
fn color_arithmetic() {
    let a = Color::new(100, 200, 300, 400);
    let b = Color::new(1, 2, 3, 4);
    assert_eq!(a.add(b), Color::new(101, 202, 303, 404));
    assert_eq!(a.sub(b), Color::new(99, 198, 297, 396));
    assert_eq!(a.mul(ONE / 2), Color::new(50, 100, 150, 200));
    assert_eq!(a.div(2 * ONE), Color::new(50, 100, 150, 200));
    assert_eq!(a.div(-2 * ONE), Color::new(-50, -100, -150, -200));
    let mut c = Color::new(0, 0, 0, 0);
    c.update_clone(&a);
    assert_eq!(c, a);
}

#[test]
fn color_from_bytes_rounds() {
    let c = Color::from([255u8, 0, 128, 1]);
    assert_eq!(c, Color::new(ONE, 0, 501_961, 3_922));
}

#[test]
fn color_frame_layout() {
    let f = color_to_bytes(&Color::new(ONE, 0, ONE / 2, ONE / 4));
    assert_eq!(f, [COLOR_CMD, 0xFF, 0xFF, 0x00, 0x00, 0x80, 0x00, 0x40, 0x00]);
    let clamped = color_to_bytes(&Color::new(2 * ONE, -7, 0, 0));
    assert_eq!(clamped, [COLOR_CMD, 0xFF, 0xFF, 0, 0, 0, 0, 0, 0]);
}

#[test]
fn color_frame_round_trip() {
    for c in [
        Color::new(0, ONE, ONE / 4, 333_333),
        Color::new(123_456, 654_321, 1, 999_999),
    ] {
        let back = color_from_bytes(&color_to_bytes(&c)).unwrap();
        for (x, y) in [(back.r, c.r), (back.g, c.g), (back.b, c.b), (back.w, c.w)] {
            assert!((x - y).abs() * 65535 <= ONE);
        }
    }
    assert_eq!(color_from_bytes(&[ROOM_CMD, 0, 0, 0, 0, 0, 0, 0, 0]), None);
}

#[test]
fn room_frame_layout() {
    let f = rooms_to_bytes(&Rooms { living_room: true, office: false, bedroom: true });
    assert_eq!(f, [ROOM_CMD, 0x1A, 0x00, 0x18, 0, 0, 0, 0, 0]);
    let g = rooms_to_bytes(&Rooms { living_room: false, office: true, bedroom: false });
    assert_eq!(g, [ROOM_CMD, 0x00, 0x1C, 0x00, 0, 0, 0, 0, 0]);
}

#[test]
fn replies_are_tag_then_crlf() {
    assert!(reply_is(b"I\r\n", READY_TAG));
    assert!(reply_is(b"C\r\n", COLOR_TAG));
    assert!(reply_is(b"R\r\n", ROOM_TAG));
    assert!(!reply_is(b"C\r\n", ROOM_TAG));
    assert!(!reply_is(b"C\n\r", COLOR_TAG));
}

#[test]
fn handshake_succeeds() {
    let (s, w) = link_step(LinkState::AwaitingReady, LinkEvent::Reply(*b"I\r\n"));
    assert_eq!(s, LinkState::AwaitingConfirm);
    assert_eq!(w, Some([COLOR_CMD, 0, 0, 0, 0, 0, 0, 0, 0]));
    let (s, w) = link_step(s, LinkEvent::Reply(*b"C\r\n"));
    assert_eq!(s, LinkState::Ready);
    assert_eq!(w, None);
    // a wrong confirmation at run time is tolerated
    let (s, _) = link_step(s, LinkEvent::Reply(*b"X\r\n"));
    assert_eq!(s, LinkState::Ready);
}

#[test]
fn handshake_failures_fall_back_to_mock() {
    assert_eq!(link_step(LinkState::AwaitingReady, LinkEvent::Reply(*b"C\r\n")), (LinkState::Mock, None));
    assert_eq!(link_step(LinkState::AwaitingReady, LinkEvent::Failed), (LinkState::Mock, None));
    assert_eq!(link_step(LinkState::AwaitingConfirm, LinkEvent::Reply(*b"I\r\n")), (LinkState::Mock, None));
    assert_eq!(link_step(LinkState::Ready, LinkEvent::Failed), (LinkState::Mock, None));
    assert_eq!(link_step(LinkState::Mock, LinkEvent::Reply(*b"I\r\n")), (LinkState::Mock, None));
}

#[test]
fn rooms_updates() {
    let mut r = Rooms::default();
    r.set_active_only(Room::Office);
    assert_eq!(r, Rooms { living_room: false, office: true, bedroom: false });
    r.set_active_rooms(&Rooms { living_room: true, office: true, bedroom: false });
    assert_eq!(*r.active_rooms(), Rooms { living_room: true, office: true, bedroom: false });
    r.set_active_rooms_option(&ScheduledRoomState { living_room: Some(false), office: None, bedroom: Some(true) });
    assert_eq!(r, Rooms { living_room: false, office: true, bedroom: true });
    let merged = r.from_scheduled(&ScheduledRoomState { living_room: None, office: Some(false), bedroom: None });
    assert_eq!(merged, Rooms { living_room: false, office: false, bedroom: true });
}
