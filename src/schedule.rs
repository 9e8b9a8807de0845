//! The timing of the tones of a Morse string.
//!
//! Times are whole numbers in the caller's clock unit, by convention
//! milliseconds. A dot sounds for one base unit and a dash for three; each is
//! followed by a one-unit gap, a space adds three units and the word separator
//! seven.
use vstd::prelude::*;

verus! {

/// The base unit at a speed of `wpm` words per minute.
pub open spec fn base_unit_of(wpm: nat) -> nat
    recommends
        wpm > 0,
{
    1200nat / wpm
}

/// How many base units the clock advances over the symbol `c`.
pub open spec fn advance_units(c: char) -> nat {
    if c == '.' {
        2
    } else if c == '-' {
        4
    } else if c == ' ' {
        3
    } else if c == '/' {
        7
    } else {
        0
    }
}

/// How many base units the tone of `c` lasts; 0 where `c` sounds no tone.
pub open spec fn tone_units(c: char) -> nat {
    if c == '.' {
        1
    } else if c == '-' {
        3
    } else {
        0
    }
}

/// How many base units the clock advances over the whole of `m`.
pub open spec fn span_units(m: Seq<char>) -> nat
    decreases m.len(),
{
    if m.len() == 0 {
        0
    } else {
        span_units(m.drop_last()) + advance_units(m.last())
    }
}

/// The tones of `m` as (start, duration) pairs, in order, from `start` on.
pub open spec fn tone_events(m: Seq<char>, unit: nat, start: nat) -> Seq<(nat, nat)>
    decreases m.len(),
{
    if m.len() == 0 {
        Seq::empty()
    } else {
        let prev = tone_events(m.drop_last(), unit, start);
        let c = m.last();
        if tone_units(c) > 0 {
            prev.push((start + span_units(m.drop_last()) * unit, tone_units(c) * unit))
        } else {
            prev
        }
    }
}

/// One tone: when it starts and how long it lasts.
#[derive(Clone, Copy, Debug, PartialEq, Eq, Structural)]
pub struct ToneEvent {
    pub start: u64,
    pub duration: u64,
}

/// `events` holds the tones `tones`, in order.
pub open spec fn events_are(events: Seq<ToneEvent>, tones: Seq<(nat, nat)>) -> bool {
    &&& events.len() == tones.len()
    &&& forall|i: int|
        0 <= i < events.len() ==> (#[trigger] events[i]).start == tones[i].0
            && events[i].duration == tones[i].1
}

/// The clock never goes back: a prefix of `m` spans no more units than `m`.
pub proof fn lemma_span_prefix(m: Seq<char>, i: int)
    requires
        0 <= i <= m.len(),
    ensures
        span_units(m.take(i)) <= span_units(m),
    decreases m.len(),
{
    if i < m.len() {
        assert(m.drop_last().take(i) == m.take(i));
        lemma_span_prefix(m.drop_last(), i);
    } else {
        assert(m.take(i) == m);
    }
}

/// A schedule depends on the speed only through the base unit: the tones of a
/// Morse string at any base unit are its tones at one unit from time 0,
/// stretched by the base unit and shifted to the start. So tones computed
/// before a change of speed keep their durations, and those computed after it
/// follow the new base unit.
pub proof fn lemma_tones_scale(m: Seq<char>, unit: nat, start: nat)
    ensures
        tone_events(m, unit, start).len() == tone_events(m, 1, 0).len(),
        forall|i: int|
            0 <= i < tone_events(m, 1, 0).len() ==> #[trigger] tone_events(m, unit, start)[i] == (
            start + tone_events(m, 1, 0)[i].0 * unit,
            tone_events(m, 1, 0)[i].1 * unit,
        ),
    decreases m.len(),
{
    if m.len() > 0 {
        let p = m.drop_last();
        lemma_tones_scale(p, unit, start);
        let a = span_units(p);
        let d = tone_units(m.last());
        assert((0 + a * 1) * unit == a * unit) by (nonlinear_arith);
        assert((d * 1) * unit == d * unit) by (nonlinear_arith);
    }
}

/// Every tone of `m`, with the one-unit gap after it, is over by the time the
/// clock has passed the whole of `m`.
pub proof fn lemma_tones_end(m: Seq<char>, unit: nat, start: nat)
    ensures
        forall|i: int|
            0 <= i < tone_events(m, unit, start).len() ==> #[trigger] tone_events(m, unit, start)[i].0
                + tone_events(m, unit, start)[i].1 + unit <= start + span_units(m) * unit,
    decreases m.len(),
{
    if m.len() > 0 {
        let p = m.drop_last();
        lemma_tones_end(p, unit, start);
        let a = span_units(p);
        let b = advance_units(m.last());
        let d = tone_units(m.last());
        assert((a + b) * unit == a * unit + b * unit) by (nonlinear_arith);
        assert(b * unit >= 0) by (nonlinear_arith);
        if d > 0 {
            assert(b == d + 1);
            assert((d + 1) * unit == d * unit + unit) by (nonlinear_arith);
        }
        let es = tone_events(m, unit, start);
        let ps = tone_events(p, unit, start);
        assert forall|i: int| 0 <= i < es.len() implies #[trigger] es[i].0 + es[i].1 + unit <= start
            + span_units(m) * unit by {
            if i < ps.len() {
                assert(es[i] == ps[i]);
            }
        }
    }
}

/// The tones come in order and never overlap: each starts at least one base
/// unit after the one before it has ended.
pub proof fn lemma_tones_ordered(m: Seq<char>, unit: nat, start: nat)
    ensures
        forall|i: int, j: int|
            0 <= i < j < tone_events(m, unit, start).len() ==> #[trigger] tone_events(
                m,
                unit,
                start,
            )[i].0 + tone_events(m, unit, start)[i].1 + unit <= #[trigger] tone_events(
                m,
                unit,
                start,
            )[j].0,
    decreases m.len(),
{
    if m.len() > 0 {
        let p = m.drop_last();
        lemma_tones_ordered(p, unit, start);
        lemma_tones_end(p, unit, start);
        let es = tone_events(m, unit, start);
        let ps = tone_events(p, unit, start);
        assert forall|i: int, j: int| 0 <= i < j < es.len() implies #[trigger] es[i].0 + es[i].1
            + unit <= #[trigger] es[j].0 by {
            assert(es[i] == ps[i]);
            if j < ps.len() {
                assert(es[j] == ps[j]);
            }
        }
    }
}

/// Turns Morse strings into timed tones at a speed that may change between
/// calls.
pub struct ToneScheduler {
    wpm: u32,
}

impl ToneScheduler {
    /// The speed, in words per minute.
    pub closed spec fn speed(self) -> nat {
        self.wpm as nat
    }

    /// The base unit at the current speed.
    pub open spec fn unit(self) -> nat {
        base_unit_of(self.speed())
    }

    /// The speed is positive, so the base unit is defined.
    pub open spec fn wf(self) -> bool {
        self.speed() > 0
    }

    /// A scheduler at `wpm` words per minute.
    pub fn new(wpm: u32) -> (r: Self)
        requires
            wpm > 0,
        ensures
            r.speed() == wpm,
            r.wf(),
    {
        ToneScheduler { wpm }
    }

    /// The speed, in words per minute.
    pub fn wpm(&self) -> (r: u32)
        ensures
            r == self.speed(),
    {
        self.wpm
    }

    /// The base unit, `1200 / wpm` rounded down.
    pub fn base_unit(&self) -> (r: u64)
        requires
            self.wf(),
        ensures
            r == self.unit(),
            r <= 1200,
    {
        1200 / self.wpm as u64
    }

    /// Sets the speed for the tones computed from now on.
    pub fn set_speed(&mut self, wpm: u32)
        requires
            wpm > 0,
        ensures
            final(self).speed() == wpm,
            final(self).wf(),
    {
        self.wpm = wpm;
    }

    /// The tones of `morse` from `start` on, at the current speed. Symbols
    /// other than dot, dash, space and slash are passed over.
    pub fn schedule(&self, morse: &str, start: u64) -> (r: Vec<ToneEvent>)
        requires
            self.wf(),
            start + span_units(morse@) * self.unit() <= u64::MAX,
        ensures
            events_are(r@, tone_events(morse@, self.unit(), start as nat)),
    {
        let unit = self.base_unit();
        let mut events: Vec<ToneEvent> = Vec::new();
        let mut time: u64 = start;
        assert(morse@.take(0) == Seq::<char>::empty());
        for c in it: morse.chars()
            invariant
                it.seq() == morse@,
                unit == self.unit(),
                unit <= 1200,
                start + span_units(morse@) * unit <= u64::MAX,
                time == start + span_units(morse@.take(it.index() as int)) * unit,
                events_are(events@, tone_events(morse@.take(it.index() as int), unit as nat, start as nat)),
        {
            let ghost prev = morse@.take(it.index() as int);
            let ghost next = morse@.take(it.index() + 1);
            proof {
                assert(next.drop_last() == prev);
                assert(next.last() == c);
                lemma_span_prefix(morse@, it.index() + 1);
                let a = span_units(prev);
                let b = advance_units(c);
                let s = span_units(morse@);
                let u = unit as nat;
                assert((a + b) * u == a * u + b * u) by (nonlinear_arith);
                assert(a + b <= s ==> (a + b) * u <= s * u) by (nonlinear_arith);
            }
            let ghost old_events = events@;
            if c == '.' {
                events.push(ToneEvent { start: time, duration: unit });
                time = time + 2 * unit;
            } else if c == '-' {
                events.push(ToneEvent { start: time, duration: 3 * unit });
                time = time + 4 * unit;
            } else if c == ' ' {
                time = time + 3 * unit;
            } else if c == '/' {
                time = time + 7 * unit;
            }
            proof {
                let tones = tone_events(next, unit as nat, start as nat);
                assert forall|i: int| 0 <= i < events@.len() implies (#[trigger] events@[i]).start
                    == tones[i].0 && events@[i].duration == tones[i].1 by {
                    if i < old_events.len() {
                        assert(events@[i] == old_events[i]);
                    }
                }
            }
        }
        assert(morse@.take(morse@.len() as int) == morse@);
        events
    }
}

} // verus!
