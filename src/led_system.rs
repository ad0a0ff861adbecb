use vstd::prelude::*;

use crate::color::Color;
use crate::led_sequence::{LedSequence, RESOLUTION};
use crate::led_state::{installed, LedState};
use crate::rooms::Rooms;

verus! {

/// Nominal time between two frames, in microseconds.
pub const NOMINAL_FRAME_US: u64 = 1_000_000 / RESOLUTION;

/// Timing of the sequence being played. Times are microseconds on a clock
/// that the caller reads.
#[derive(Clone, Copy, Debug, PartialEq, Eq, Structural)]
pub struct LedSystemStatus {
    /// Frames sent since the sequence started.
    pub index: u64,
    /// When the sequence started.
    pub start_time: u64,
    /// When the frame before the last one was sent.
    pub previous_time: u64,
    /// When the last frame was sent.
    pub current_time: u64,
    /// Time between frames when playback is on schedule.
    pub nominal_sleep_time: u64,
    /// Time to wait before the next frame.
    pub actual_sleep_time: u64,
}

/// The time to wait after frame `index` was sent, `elapsed` microseconds
/// after the sequence started: until frame `index + 1` is due, or not at all
/// when that time has passed.
pub open spec fn drift_sleep(index: int, elapsed: int) -> int {
    let due = NOMINAL_FRAME_US * (index + 1);
    if elapsed >= due {
        0
    } else {
        due - elapsed
    }
}

/// What one step of the render loop does to the playing sequence: the frame
/// it emits, and the sequence left playing (none once it is exhausted).
pub open spec fn render_next(seq: Option<LedSequence>) -> (Option<Color>, Option<LedSequence>) {
    match seq {
        None => (None, None),
        Some(s) => match s.spec_next_position() {
            Some(p) => (Some(s.colors@[p as int]), Some(LedSequence { index: (p + 1) as usize, ..s })),
            None => (None, None),
        },
    }
}

/// What the loop must do after one step.
#[derive(Clone, Copy, Debug, PartialEq, Eq, Structural)]
pub struct Tick {
    /// Room relays to send, when they changed.
    pub rooms: Option<Rooms>,
    /// Frame to send.
    pub color: Option<Color>,
    /// The controller is shutting down: the loop ends.
    pub exit: bool,
}

impl LedSystemStatus {
    /// Timing for a sequence starting at `now`.
    pub open spec fn spec_new(now: u64) -> LedSystemStatus {
        LedSystemStatus {
            index: 0,
            start_time: now,
            previous_time: now,
            current_time: now,
            nominal_sleep_time: NOMINAL_FRAME_US,
            actual_sleep_time: NOMINAL_FRAME_US,
        }
    }

    pub fn new(now: u64) -> (s: LedSystemStatus)
        ensures
            s == LedSystemStatus::spec_new(now),
    {
        LedSystemStatus {
            index: 0,
            start_time: now,
            previous_time: now,
            current_time: now,
            nominal_sleep_time: NOMINAL_FRAME_US,
            actual_sleep_time: NOMINAL_FRAME_US,
        }
    }

    pub fn reinitialize(&mut self, now: u64)
        ensures
            *final(self) == LedSystemStatus::spec_new(now),
    {
        *self = LedSystemStatus::new(now);
    }

    /// Records that a frame was sent at `now` and returns how long to wait
    /// before the next one (see `drift_sleep`): a late frame shortens the
    /// wait, an early one lengthens it, so that timing errors do not add up
    /// over a sequence.
    pub fn frame_sent(&mut self, now: u64) -> (sleep: u64)
        requires
            old(self).nominal_sleep_time == NOMINAL_FRAME_US,
            NOMINAL_FRAME_US * (old(self).index + 1) <= u64::MAX,
        ensures
            sleep == drift_sleep(
                old(self).index as int,
                if now >= old(self).start_time { now - old(self).start_time } else { 0 },
            ),
            final(self).actual_sleep_time == sleep,
            final(self).index == old(self).index + 1,
            final(self).previous_time == old(self).current_time,
            final(self).current_time == now,
            final(self).start_time == old(self).start_time,
            final(self).nominal_sleep_time == NOMINAL_FRAME_US,
    {
        let elapsed: u64 = if now >= self.start_time {
            now - self.start_time
        } else {
            0
        };
        let due: u128 = NOMINAL_FRAME_US as u128 * (self.index as u128 + 1);
        let sleep: u64 = if elapsed as u128 >= due {
            0
        } else {
            (due - elapsed as u128) as u64
        };
        self.actual_sleep_time = sleep;
        self.previous_time = self.current_time;
        self.current_time = now;
        self.index = self.index + 1;
        sleep
    }
}

/// One step of the render loop, taken under the state's lock at `now`.
/// An interrupt restarts the frame timing. Changed room relays are returned
/// for sending. The playing sequence gives its next frame, which becomes
/// the current colour; an exhausted sequence is dropped and the timing
/// reset. The caller sends what the tick holds without the lock, then calls
/// `frame_sent` after a frame, or waits `nominal_sleep_time` otherwise.
pub fn render_step(
    state: &mut LedState,
    last_rooms: &mut Rooms,
    status: &mut LedSystemStatus,
    now: u64,
) -> (t: Tick)
    requires
        old(state).wf(),
    ensures
        final(state).wf(),
        t.rooms == if old(state).current_rooms != *old(last_rooms) {
            Some(old(state).current_rooms)
        } else {
            None::<Rooms>
        },
        *final(last_rooms) == old(state).current_rooms,
        t.color == render_next(old(state).current_sequence).0,
        final(state).current_sequence == render_next(old(state).current_sequence).1,
        final(state).current_color == match t.color {
            Some(c) => c,
            None => old(state).current_color,
        },
        final(state).current_rooms == old(state).current_rooms,
        final(state).shutdown == old(state).shutdown,
        !final(state).interrupt,
        t.exit == old(state).shutdown,
        old(state).interrupt ==> final(status).index == 0,
        t.color is Some && (old(status).index == 0 || old(state).interrupt) ==> *final(status)
            == LedSystemStatus::spec_new(now),
        t.color is Some && old(status).index != 0 && !old(state).interrupt ==> *final(status)
            == *old(status),
        old(state).current_sequence is Some && t.color is None ==> *final(status)
            == LedSystemStatus::spec_new(now),
        old(state).current_sequence is None && !old(state).interrupt ==> *final(status)
            == *old(status),
{
    if state.interrupt {
        state.interrupt = false;
        status.reinitialize(now);
    }
    let rooms = if state.current_rooms != *last_rooms {
        Some(state.current_rooms)
    } else {
        None
    };
    *last_rooms = state.current_rooms;
    let mut color: Option<Color> = None;
    let mut exhausted = false;
    match &mut state.current_sequence {
        Some(seq) => {
            match seq.next() {
                Some(c) => {
                    color = Some(c);
                },
                None => {
                    exhausted = true;
                },
            }
        },
        None => {},
    }
    match color {
        Some(c) => {
            if status.index == 0 {
                status.reinitialize(now);
            }
            state.current_color = c;
        },
        None => {},
    }
    if exhausted {
        state.current_sequence = None;
        status.reinitialize(now);
    }
    Tick { rooms, color, exit: state.shutdown }
}

/// After each frame the loop waits until the next frame is due, or not at
/// all when it is late: the next frame starts at the later of now and its
/// nominal time, so lateness shrinks by a whole frame interval per frame
/// instead of adding up.
pub proof fn lemma_drift_correction(index: nat, elapsed: nat)
    ensures
        drift_sleep(index as int, elapsed as int) >= 0,
        elapsed + drift_sleep(index as int, elapsed as int) == if elapsed >= NOMINAL_FRAME_US * (
        index + 1) {
            elapsed as int
        } else {
            NOMINAL_FRAME_US * (index + 1)
        },
        ({
            let next_start = elapsed + drift_sleep(index as int, elapsed as int);
            let late = elapsed - NOMINAL_FRAME_US * index;
            let late_next = next_start - NOMINAL_FRAME_US * (index + 1);
            &&& late_next >= 0
            &&& late_next == if late > NOMINAL_FRAME_US { late - NOMINAL_FRAME_US } else { 0 }
        }),
{
    assert(NOMINAL_FRAME_US * (index + 1) == NOMINAL_FRAME_US * index + NOMINAL_FRAME_US) by (nonlinear_arith);
}

/// A sequence installed while another plays replaces it at once: the next
/// render step emits the new sequence's first frame, never one of the old
/// sequence, and leaves the new sequence playing from its second frame.
pub proof fn lemma_install_truncates(st: LedState, seq: LedSequence)
    requires
        seq.is_fresh(),
        seq.colors@.len() > 0,
    ensures
        render_next(installed(st, seq).current_sequence).0 == Some(seq.colors@[0]),
        render_next(installed(st, seq).current_sequence).1 == Some(LedSequence { index: 1, ..seq }),
{
}

} // verus!

verus! {

/// The sequence left playing after `k` render steps, when nothing else
/// changes the state.
pub open spec fn played(seq: Option<LedSequence>, k: nat) -> Option<LedSequence>
    decreases k,
{
    if k == 0 {
        seq
    } else {
        render_next(played(seq, (k - 1) as nat)).1
    }
}

/// A sequence that does not repeat, once installed with its cursor at the
/// start, is played by successive render steps frame by frame in order:
/// step `k` emits frame `k`, and the step after the last frame emits
/// nothing and drops the sequence. Nothing from an earlier sequence can be
/// emitted, since each step reads only the sequence in the state.
pub proof fn lemma_plays_in_order(s: LedSequence, k: nat)
    requires
        s.is_fresh(),
        !s.info.repeat,
        k <= s.colors@.len(),
    ensures
        played(Some(s), k) == Some(LedSequence { index: k as usize, ..s }),
        k < s.colors@.len() ==> render_next(played(Some(s), k)).0 == Some(s.colors@[k as int]),
        k == s.colors@.len() ==> render_next(played(Some(s), k)) == (None::<Color>, None::<LedSequence>),
    decreases k,
{
    assert(s.colors.len() == s.colors@.len());
    if k > 0 {
        lemma_plays_in_order(s, (k - 1) as nat);
    }
}

} // verus!
