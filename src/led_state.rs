use vstd::prelude::*;

use crate::color::Color;
use crate::led_sequence::{lerp_frames, LedSequence, LedSequenceType, FADE_DURATION_MS};
use crate::rooms::Rooms;
use crate::sequence_name::{chars_of, duration_ms, parse_duration, token_is};

verus! {

/// What the lights should be doing. One value exists per controller; the
/// request handlers and the render loop share it behind a lock.
#[derive(Clone, Debug)]
pub struct LedState {
    /// The colour the lights show now.
    pub current_color: Color,
    /// The room relays.
    pub current_rooms: Rooms,
    /// The sequence being played, if any.
    pub current_sequence: Option<LedSequence>,
    /// The controller is shutting down.
    pub shutdown: bool,
    /// A new sequence was installed: the render loop restarts its timing.
    pub interrupt: bool,
}

/// The state after `seq` replaced whatever was playing.
pub open spec fn installed(st: LedState, seq: LedSequence) -> LedState {
    LedState { current_sequence: Some(seq), interrupt: true, ..st }
}

/// The state at start-up: black, every room off, nothing playing.
pub fn init_global_state() -> (s: LedState)
    ensures
        s.current_color == (Color { r: 0, g: 0, b: 0, w: 0 }),
        s.current_rooms == (Rooms { living_room: false, office: false, bedroom: false }),
        s.current_sequence is None,
        !s.shutdown,
        !s.interrupt,
{
    LedState {
        current_color: Color::new(0, 0, 0, 0),
        current_rooms: Rooms { living_room: false, office: false, bedroom: false },
        current_sequence: None,
        shutdown: false,
        interrupt: false,
    }
}

impl LedState {
    /// Every installed sequence is well formed.
    pub open spec fn wf(&self) -> bool {
        match self.current_sequence {
            Some(s) => s.wf(),
            None => true,
        }
    }

    /// Replaces the playing sequence, whole, by `seq`, and asks the render
    /// loop to drop the old one.
    pub fn install_sequence(&mut self, seq: LedSequence)
        ensures
            *final(self) == installed(*old(self), seq),
    {
        self.current_sequence = Some(seq);
        self.interrupt = true;
    }

    /// Starts a smooth transition from the current colour to `target`.
    pub fn set_color(&mut self, target: &Color)
        ensures
            final(self).current_sequence is Some,
            final(self).current_sequence->Some_0.is_fresh(),
            final(self).current_sequence->Some_0.colors@ == lerp_frames(old(self).current_color, *target),
            final(self).current_sequence->Some_0.info.sequence_type == LedSequenceType::Color,
            final(self).current_sequence->Some_0.info.name@ == "lerp"@,
            final(self).current_sequence->Some_0.info.duration == FADE_DURATION_MS,
            !final(self).current_sequence->Some_0.info.repeat,
            *final(self) == installed(*old(self), final(self).current_sequence->Some_0),
    {
        let seq = LedSequence::from_color_lerp(&self.current_color, target);
        self.install_sequence(seq);
    }

    /// Starts a fade from the current colour to black over `duration`
    /// milliseconds.
    pub fn fade_to_black(&mut self, duration: u64)
        ensures
            final(self).current_sequence is Some,
            final(self).current_sequence->Some_0.is_fresh(),
            final(self).current_sequence->Some_0.colors@
                == LedSequence::fade_to_black_frames(old(self).current_color, duration as int),
            final(self).current_sequence->Some_0.info.sequence_type == LedSequenceType::Color,
            final(self).current_sequence->Some_0.info.name@ == "fade-to-black"@,
            final(self).current_sequence->Some_0.info.duration == duration,
            !final(self).current_sequence->Some_0.info.repeat,
            *final(self) == installed(*old(self), final(self).current_sequence->Some_0),
    {
        let seq = LedSequence::fade_to_black(&self.current_color, duration);
        proof {
            assert(seq.colors@ =~= LedSequence::fade_to_black_frames(self.current_color, duration as int));
        }
        self.install_sequence(seq);
    }

    /// The colour the lights settle on: the last frame of a playing sequence
    /// that does not repeat, else the current colour.
    pub open spec fn spec_future_color(&self) -> Color {
        match self.current_sequence {
            Some(s) => if !s.info.repeat && s.colors@.len() > 0 {
                s.colors@.last()
            } else {
                self.current_color
            },
            None => self.current_color,
        }
    }

    pub fn future_color(&self) -> (c: Color)
        ensures
            c == self.spec_future_color(),
    {
        match &self.current_sequence {
            Some(s) => {
                if !s.info.repeat && s.colors.len() > 0 {
                    s.colors[s.colors.len() - 1]
                } else {
                    self.current_color
                }
            },
            None => self.current_color,
        }
    }

    /// The name of the playing sequence, if any.
    pub fn sequence_name(&self) -> (n: Option<String>)
        ensures
            n is Some <==> self.current_sequence is Some,
            n is Some ==> n->Some_0@ == self.current_sequence->Some_0.info.name@,
    {
        match &self.current_sequence {
            Some(s) => Some(s.info.name.clone()),
            None => None,
        }
    }
}

/// The text after the last `-` of `s` (all of it when there is none).
pub open spec fn last_dash_token(s: Seq<char>) -> Seq<char>
    decreases s.len(),
{
    if s.len() == 0 {
        s
    } else if s.last() == '-' {
        Seq::empty()
    } else {
        last_dash_token(s.drop_last()).push(s.last())
    }
}

/// The duration that a request `fade-to-black-<seconds>` asks for, in
/// milliseconds: `None` for any other request, and `FADE_DURATION_MS` when
/// the seconds cannot be read.
pub open spec fn fade_request(payload: Seq<char>) -> Option<int> {
    let prefix = "fade-to-black-"@;
    if prefix.len() <= payload.len() && payload.subrange(0, prefix.len() as int) == prefix {
        match duration_ms(last_dash_token(payload)) {
            Some(d) => Some(d),
            None => Some(FADE_DURATION_MS as int),
        }
    } else {
        None
    }
}

/// Reads a fade-to-black request (see `fade_request`).
pub fn fade_request_duration(payload: &str) -> (d: Option<u64>)
    ensures
        d is None <==> fade_request(payload@) is None,
        d is Some ==> fade_request(payload@) == Some(d->Some_0 as int),
{
    let s = chars_of(payload);
    let prefix = "fade-to-black-";
    let n = prefix.unicode_len();
    if n > s.len() || !token_is(&s, 0, n, prefix) {
        return None;
    }
    let mut k: usize = s.len();
    assert(s@.subrange(0, k as int) =~= s@);
    assert(last_dash_token(s@) + s@.subrange(k as int, k as int) =~= last_dash_token(s@));
    while k > 0 && s[k - 1] != '-'
        invariant
            k <= s@.len(),
            last_dash_token(s@) == last_dash_token(s@.subrange(0, k as int)) + s@.subrange(
                k as int,
                s@.len() as int,
            ),
        decreases k,
    {
        proof {
            let pre = s@.subrange(0, k as int);
            assert(pre.drop_last() =~= s@.subrange(0, k - 1));
            assert(s@.subrange(k - 1, s@.len() as int) =~= seq![pre.last()] + s@.subrange(
                k as int,
                s@.len() as int,
            ));
            assert(last_dash_token(pre) == last_dash_token(pre.drop_last()).push(pre.last()));
            assert(last_dash_token(pre.drop_last()).push(pre.last()) + s@.subrange(k as int, s@.len() as int)
                =~= last_dash_token(pre.drop_last()) + s@.subrange(k - 1, s@.len() as int));
        }
        k = k - 1;
    }
    proof {
        let pre = s@.subrange(0, k as int);
        if k == 0 {
            assert(pre =~= Seq::<char>::empty());
        }
        assert(last_dash_token(pre) =~= Seq::<char>::empty());
        assert(last_dash_token(s@) =~= s@.subrange(k as int, s@.len() as int));
    }
    match parse_duration(&s, k, s.len()) {
        Some(d) => Some(d),
        None => Some(FADE_DURATION_MS),
    }
}

} // verus!
