use vstd::prelude::*;

use crate::color::{clamp_channel, Color, ONE};
use crate::rooms::Rooms;

verus! {

/// Command byte of a colour update.
pub const COLOR_CMD: u8 = 0xC0;
/// Command byte of a room relay update.
pub const ROOM_CMD: u8 = 0xF0;

/// Relay byte of each room when it is on.
pub const LIVING_ROOM: u8 = 0x1A;
pub const OFFICE: u8 = 0x1C;
pub const BEDROOM: u8 = 0x18;

/// Length of every command frame.
pub const UPDATE_BYTES: usize = 9;
/// Length of every reply of the device.
pub const CONFIRMATION_BYTES: usize = 3;

/// First byte of the device's replies: ready for the handshake, colour
/// accepted, rooms accepted. Each reply ends in `"\r\n"`.
pub const READY_TAG: u8 = 0x49;
pub const COLOR_TAG: u8 = 0x43;
pub const ROOM_TAG: u8 = 0x52;

/// Largest 16-bit level on the wire.
pub const WIRE_MAX: i64 = 65535;

/// The 16-bit level of a channel: clamped, scaled to `WIRE_MAX` and rounded
/// to the nearest step.
pub open spec fn wire_level(c: int) -> int {
    (clamp_channel(c) * WIRE_MAX + ONE / 2) / (ONE as int)
}

/// The channel value of a 16-bit level, rounded to the nearest step.
pub open spec fn level_channel(v: int) -> int {
    (v * ONE + WIRE_MAX / 2) / (WIRE_MAX as int)
}

/// The nine bytes of a colour update.
pub open spec fn color_frame(c: Color) -> Seq<u8> {
    let r = wire_level(c.r as int);
    let g = wire_level(c.g as int);
    let b = wire_level(c.b as int);
    let w = wire_level(c.w as int);
    seq![
        COLOR_CMD,
        (r / 256) as u8,
        (r % 256) as u8,
        (g / 256) as u8,
        (g % 256) as u8,
        (b / 256) as u8,
        (b % 256) as u8,
        (w / 256) as u8,
        (w % 256) as u8,
    ]
}

/// The nine bytes of a room relay update.
pub open spec fn rooms_frame(rooms: Rooms) -> Seq<u8> {
    seq![
        ROOM_CMD,
        if rooms.living_room { LIVING_ROOM } else { 0u8 },
        if rooms.office { OFFICE } else { 0u8 },
        if rooms.bedroom { BEDROOM } else { 0u8 },
        0u8,
        0u8,
        0u8,
        0u8,
        0u8,
    ]
}

/// The big-endian 16-bit value at `i` of a frame.
pub open spec fn frame_level(f: Seq<u8>, i: int) -> int {
    f[i] * 256 + f[i + 1]
}

/// The colour that a colour frame carries.
pub open spec fn frame_color(f: Seq<u8>) -> Color {
    Color {
        r: level_channel(frame_level(f, 1)) as i64,
        g: level_channel(frame_level(f, 3)) as i64,
        b: level_channel(frame_level(f, 5)) as i64,
        w: level_channel(frame_level(f, 7)) as i64,
    }
}

/// A reply of the device: `tag` followed by `"\r\n"`.
pub open spec fn is_reply(reply: Seq<u8>, tag: u8) -> bool {
    reply == seq![tag, 13u8, 10u8]
}

fn level_of(c: i64) -> (v: u16)
    ensures
        v == wire_level(c as int),
{
    let clamped: i64 = if c > ONE {
        ONE
    } else if c < 0 {
        0
    } else {
        c
    };
    assert(0 <= clamped * WIRE_MAX <= ONE * WIRE_MAX) by (nonlinear_arith)
        requires
            0 <= clamped <= ONE,
    ;
    ((clamped * WIRE_MAX + ONE / 2) / ONE) as u16
}

/// Encodes a colour, clamped first, as the frame the device expects:
/// `COLOR_CMD`, then red, green, blue and white as big-endian 16-bit levels.
pub fn color_to_bytes(color: &Color) -> (f: [u8; 9])
    ensures
        f@ == color_frame(*color),
{
    let r = level_of(color.r);
    let g = level_of(color.g);
    let b = level_of(color.b);
    let w = level_of(color.w);
    let f = [
        COLOR_CMD,
        (r / 256) as u8,
        (r % 256) as u8,
        (g / 256) as u8,
        (g % 256) as u8,
        (b / 256) as u8,
        (b % 256) as u8,
        (w / 256) as u8,
        (w % 256) as u8,
    ];
    assert(f@ =~= color_frame(*color));
    f
}

/// Encodes the room relays as the frame the device expects: `ROOM_CMD`, one
/// byte per room, then zeros.
pub fn rooms_to_bytes(rooms: &Rooms) -> (f: [u8; 9])
    ensures
        f@ == rooms_frame(*rooms),
{
    let f = [
        ROOM_CMD,
        if rooms.living_room { LIVING_ROOM } else { 0x00 },
        if rooms.office { OFFICE } else { 0x00 },
        if rooms.bedroom { BEDROOM } else { 0x00 },
        0x00,
        0x00,
        0x00,
        0x00,
        0x00,
    ];
    assert(f@ =~= rooms_frame(*rooms));
    f
}

fn channel_of(hi: u8, lo: u8) -> (c: i64)
    ensures
        c == level_channel(hi * 256 + lo),
{
    let v: i64 = hi as i64 * 256 + lo as i64;
    (v * ONE + WIRE_MAX / 2) / WIRE_MAX
}

/// Decodes a colour frame; `None` when the frame is not a colour command.
pub fn color_from_bytes(frame: &[u8; 9]) -> (c: Option<Color>)
    ensures
        frame@[0] == COLOR_CMD ==> c == Some(frame_color(frame@)),
        frame@[0] != COLOR_CMD ==> c is None,
{
    if frame[0] != COLOR_CMD {
        return None;
    }
    Some(
        Color {
            r: channel_of(frame[1], frame[2]),
            g: channel_of(frame[3], frame[4]),
            b: channel_of(frame[5], frame[6]),
            w: channel_of(frame[7], frame[8]),
        },
    )
}

/// Whether `reply` is `tag` followed by `"\r\n"`.
pub fn reply_is(reply: &[u8; 3], tag: u8) -> (ok: bool)
    ensures
        ok == is_reply(reply@, tag),
{
    let ok = reply[0] == tag && reply[1] == 13 && reply[2] == 10;
    assert(ok ==> reply@ =~= seq![tag, 13u8, 10u8]);
    ok
}

} // verus!

verus! {

proof fn lemma_level_round_trip(x: int)
    requires
        0 <= x <= ONE,
    ensures
        0 <= wire_level(x) <= WIRE_MAX,
        -(ONE as int) <= (level_channel(wire_level(x)) - x) * WIRE_MAX <= ONE,
{
    let v = wire_level(x);
    let n = x * WIRE_MAX + ONE / 2;
    assert(clamp_channel(x) == x);
    vstd::arithmetic::div_mod::lemma_fundamental_div_mod(n, ONE as int);
    assert(0 <= x * WIRE_MAX <= ONE * WIRE_MAX) by (nonlinear_arith)
        requires
            0 <= x <= ONE,
    ;
    assert(0 <= v <= WIRE_MAX) by (nonlinear_arith)
        requires
            v == n / (ONE as int),
            0 <= x * WIRE_MAX <= ONE * WIRE_MAX,
            n == x * WIRE_MAX + ONE / 2,
    ;
    let m = v * ONE + WIRE_MAX / 2;
    let c2 = level_channel(v);
    vstd::arithmetic::div_mod::lemma_fundamental_div_mod(m, WIRE_MAX as int);
    assert(-(ONE as int) <= (c2 - x) * WIRE_MAX <= ONE) by (nonlinear_arith)
        requires
            n == x * WIRE_MAX + ONE / 2,
            n == ONE * v + n % (ONE as int),
            0 <= n % (ONE as int) < ONE,
            m == v * ONE + WIRE_MAX / 2,
            c2 == m / (WIRE_MAX as int),
            m == WIRE_MAX * c2 + m % (WIRE_MAX as int),
            0 <= m % (WIRE_MAX as int) < WIRE_MAX,
    ;
}

proof fn lemma_split_level(v: int)
    requires
        0 <= v <= WIRE_MAX,
    ensures
        ((v / 256) as u8) * 256 + ((v % 256) as u8) == v,
{
}

/// Encoding a clamped colour into its frame and decoding the frame gives each
/// channel back within one 16-bit step: `|decoded - original| <= ONE / 65535`.
pub proof fn lemma_color_frame_round_trip(c: Color)
    requires
        c.is_clamped(),
    ensures
        color_frame(c)[0] == COLOR_CMD,
        forall|k: int|
            0 <= k < 4 ==> -(ONE as int) <= (#[trigger] crate::color::channel(
                frame_color(color_frame(c)),
                k,
            ) - crate::color::channel(c, k)) * WIRE_MAX <= ONE,
{
    lemma_level_round_trip(c.r as int);
    lemma_level_round_trip(c.g as int);
    lemma_level_round_trip(c.b as int);
    lemma_level_round_trip(c.w as int);
    lemma_split_level(wire_level(c.r as int));
    lemma_split_level(wire_level(c.g as int));
    lemma_split_level(wire_level(c.b as int));
    lemma_split_level(wire_level(c.w as int));
    let f = color_frame(c);
    assert(frame_level(f, 1) == wire_level(c.r as int));
    assert(frame_level(f, 3) == wire_level(c.g as int));
    assert(frame_level(f, 5) == wire_level(c.b as int));
    assert(frame_level(f, 7) == wire_level(c.w as int));
}

} // verus!

verus! {

/// State of the link to the device.
#[derive(Clone, Copy, Debug, PartialEq, Eq, Structural)]
pub enum LinkState {
    /// Waiting for the device's ready signal.
    AwaitingReady,
    /// The all-black colour frame was sent; waiting for its confirmation.
    AwaitingConfirm,
    /// The handshake succeeded: updates go to the device.
    Ready,
    /// No usable device: updates are shown on the console instead, for the
    /// rest of the link's life.
    Mock,
}

/// What the device did after the link last wrote or waited.
#[derive(Clone, Copy, Debug)]
pub enum LinkEvent {
    /// Three reply bytes arrived.
    Reply([u8; 3]),
    /// Reading or writing failed, or timed out.
    Failed,
}

/// The next state of the link, and the frame to write next, if any.
pub open spec fn link_transition(state: LinkState, event: LinkEvent) -> (LinkState, Option<Seq<u8>>) {
    match state {
        LinkState::AwaitingReady => match event {
            LinkEvent::Reply(r) => if is_reply(r@, READY_TAG) {
                (LinkState::AwaitingConfirm, Some(color_frame(Color { r: 0, g: 0, b: 0, w: 0 })))
            } else {
                (LinkState::Mock, None)
            },
            LinkEvent::Failed => (LinkState::Mock, None),
        },
        LinkState::AwaitingConfirm => match event {
            LinkEvent::Reply(r) => if is_reply(r@, COLOR_TAG) {
                (LinkState::Ready, None)
            } else {
                (LinkState::Mock, None)
            },
            LinkEvent::Failed => (LinkState::Mock, None),
        },
        LinkState::Ready => match event {
            LinkEvent::Reply(_) => (LinkState::Ready, None),
            LinkEvent::Failed => (LinkState::Mock, None),
        },
        LinkState::Mock => (LinkState::Mock, None),
    }
}

/// Advances the link on what the device did. During the handshake a wrong
/// reply or a failure falls back to `Mock` for good; the ready signal is
/// answered with an all-black colour frame. Once `Ready`, a wrong
/// confirmation is tolerated (the caller reports it) and a failure falls back
/// to `Mock`.
pub fn link_step(state: LinkState, event: LinkEvent) -> (r: (LinkState, Option<[u8; 9]>))
    ensures
        r.0 == link_transition(state, event).0,
        r.1 is Some <==> link_transition(state, event).1 is Some,
        r.1 is Some ==> r.1->Some_0@ == link_transition(state, event).1->Some_0,
{
    match state {
        LinkState::AwaitingReady => match event {
            LinkEvent::Reply(r) => if reply_is(&r, READY_TAG) {
                let black = Color { r: 0, g: 0, b: 0, w: 0 };
                (LinkState::AwaitingConfirm, Some(color_to_bytes(&black)))
            } else {
                (LinkState::Mock, None)
            },
            LinkEvent::Failed => (LinkState::Mock, None),
        },
        LinkState::AwaitingConfirm => match event {
            LinkEvent::Reply(r) => if reply_is(&r, COLOR_TAG) {
                (LinkState::Ready, None)
            } else {
                (LinkState::Mock, None)
            },
            LinkEvent::Failed => (LinkState::Mock, None),
        },
        LinkState::Ready => match event {
            LinkEvent::Reply(_) => (LinkState::Ready, None),
            LinkEvent::Failed => (LinkState::Mock, None),
        },
        LinkState::Mock => (LinkState::Mock, None),
    }
}

/// Once in `Mock`, the link stays there whatever happens.
pub proof fn lemma_mock_is_permanent(event: LinkEvent)
    ensures
        link_transition(LinkState::Mock, event) == (LinkState::Mock, Option::<Seq<u8>>::None),
{
}

} // verus!
