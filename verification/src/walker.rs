//! Lowering: turns a syntax tree into the intermediate representation.
//! Pitches become MIDI note numbers, durations become tick counts,
//! tuplets scale time by exact rationals, dynamics set velocities, and
//! same-named parts merge into one track.

use vstd::prelude::*;
use crate::ast::{Accidental, BaseDuration, ContextChange, ContextChangeView, Duration, Event, EventView, Measure, MeasureBlock, MeasureBlockView, MeasureView, Score, NoteView, Part, PartView, Pitch, Ratio, TupletView, event_deep_view, events_deep_view, lemma_events_deep_view};
use crate::ir::{IrScore, IrTrack, IrTrackView};
use crate::instruments::{get_instrument_program, spec_instrument_program};
use crate::ir::{IrEvent, IrEventKind, IrEventView, IrEventKindView};
use crate::text::str_eq;

verus! {

/// Ticks per quarter note, the fixed resolution of the representation.
pub const PPQ: u32 = 480;

/// Why lowering failed. `ArithmeticOverflow` is not a musical error: it
/// marks a value that does not fit the fixed-width tick arithmetic
/// (times and durations are 32-bit, tuplet scale factors 64-bit).
#[derive(Debug, PartialEq, Eq, Structural, Clone, Copy)]
pub enum LoweringError {
    UnsupportedDuration,
    InvalidPitchStep,
    PitchOutOfRange,
    InvalidTuplet,
    InvalidSwingRatio,
    ArithmeticOverflow,
}

impl LoweringError {
    /// A short description of the error.
    pub fn message(&self) -> &'static str {
        match self {
            LoweringError::UnsupportedDuration => "Unsupported duration type",
            LoweringError::InvalidPitchStep => "Invalid pitch step",
            LoweringError::PitchOutOfRange => "Pitch out of MIDI range",
            LoweringError::InvalidTuplet => "Tuplet ratio divides by zero",
            LoweringError::InvalidSwingRatio => "Swing ratio not strictly between 0 and 1",
            LoweringError::ArithmeticOverflow => "Tick arithmetic overflow",
        }
    }
}

/// Ticks of an un-dotted base duration at the given resolution.
pub open spec fn spec_base_ticks(base: BaseDuration, ppq: int) -> int {
    match base {
        BaseDuration::Whole => ppq * 4,
        BaseDuration::Half => ppq * 2,
        BaseDuration::Quarter => ppq,
        BaseDuration::Eighth => ppq / 2,
        BaseDuration::Sixteenth => ppq / 4,
    }
}

/// Classic dotted-rhythm summation: each dot adds half of the previous
/// increment, starting from half the base value.
pub open spec fn spec_dots(ticks: int, add: int, dots: int) -> int
    decreases dots,
{
    if dots <= 0 {
        ticks
    } else {
        spec_dots(ticks + add, add / 2, dots - 1)
    }
}

/// Tick count of an optional duration: an absent duration is one quarter
/// note; `Subdivision` and `Fraction` have no lowering.
pub open spec fn spec_duration_ticks(duration_opt: Option<Duration>, ppq: int) -> Result<
    int,
    LoweringError,
> {
    match duration_opt {
        None => Ok(ppq),
        Some(Duration::Base(base, dots)) => Ok(
            spec_dots(
                spec_base_ticks(base, ppq),
                spec_base_ticks(base, ppq) / 2,
                dots as int,
            ),
        ),
        Some(_) => Err(LoweringError::UnsupportedDuration),
    }
}

/// The dotted sum never shrinks and never exceeds the base plus twice
/// the first increment (the geometric series is bounded by it).
pub proof fn lemma_dots_bound(ticks: int, add: int, dots: int)
    requires
        ticks >= 0,
        add >= 0,
    ensures
        ticks <= spec_dots(ticks, add, dots) <= ticks + 2 * add,
    decreases dots,
{
    if dots > 0 {
        lemma_dots_bound(ticks + add, add / 2, dots - 1);
    }
}

/// Resolves an optional duration to ticks.
pub fn calculate_duration(duration_opt: &Option<Duration>, ppq: u32) -> (r: Result<
    u32,
    LoweringError,
>)
    requires
        ppq <= u32::MAX / 8,
    ensures
        (match spec_duration_ticks(*duration_opt, ppq as int) {
            Ok(t) => r == Ok::<u32, LoweringError>(t as u32) && 0 <= t <= u32::MAX,
            Err(e) => r == Err::<u32, LoweringError>(e),
        }),
{
    match duration_opt {
        None => Ok(ppq),
        Some(Duration::Base(base, dots)) => {
            let base_t: u32 = match base {
                BaseDuration::Whole => ppq * 4,
                BaseDuration::Half => ppq * 2,
                BaseDuration::Quarter => ppq,
                BaseDuration::Eighth => ppq / 2,
                BaseDuration::Sixteenth => ppq / 4,
            };
            let mut ticks: u32 = base_t;
            let mut add_t: u32 = base_t / 2;
            let mut i: u8 = 0;
            proof {
                lemma_dots_bound(base_t as int, (base_t / 2) as int, *dots as int);
            }
            while i < *dots
                invariant
                    i <= *dots,
                    ticks + 2 * add_t <= 2 * (base_t as int),
                    base_t <= 4 * (ppq as int),
                    ppq <= u32::MAX / 8,
                    spec_dots(ticks as int, add_t as int, (*dots - i) as int) == spec_dots(
                        base_t as int,
                        (base_t / 2) as int,
                        *dots as int,
                    ),
                decreases *dots - i,
            {
                ticks = ticks + add_t;
                add_t = add_t / 2;
                i = i + 1;
            }
            Ok(ticks)
        },
        Some(_) => Err(LoweringError::UnsupportedDuration),
    }
}

/// Semitone offset of a step letter within the octave, if the letter is
/// one of A-G.
pub open spec fn spec_step_offset(step: char) -> Option<int> {
    if step == 'C' {
        Some(0int)
    } else if step == 'D' {
        Some(2int)
    } else if step == 'E' {
        Some(4int)
    } else if step == 'F' {
        Some(5int)
    } else if step == 'G' {
        Some(7int)
    } else if step == 'A' {
        Some(9int)
    } else if step == 'B' {
        Some(11int)
    } else {
        None
    }
}

/// Offset contributed by an accidental.
pub open spec fn spec_accidental_offset(accidental: Option<Accidental>) -> int {
    match accidental {
        Some(Accidental::Sharp) => 1,
        Some(Accidental::Flat) => -1,
        None => 0,
    }
}

/// The MIDI note number a pitch denotes, before the range check.
pub open spec fn spec_midi_value(p: Pitch) -> int {
    (p.octave + 1) * 12 + (spec_step_offset(p.step)->0) + spec_accidental_offset(p.accidental)
}

/// Maps a pitch to its MIDI note number: rejected when the step letter
/// is not A-G or the value falls outside [0, 127]; never clamped.
pub fn calculate_pitch(pitch: &Pitch) -> (r: Result<u8, LoweringError>)
    ensures
        spec_step_offset(pitch.step) is None ==> r == Err::<u8, LoweringError>(
            LoweringError::InvalidPitchStep,
        ),
        spec_step_offset(pitch.step) is Some && !(0 <= spec_midi_value(*pitch) <= 127) ==> r
            == Err::<u8, LoweringError>(LoweringError::PitchOutOfRange),
        spec_step_offset(pitch.step) is Some && 0 <= spec_midi_value(*pitch) <= 127 ==> r
            == Ok::<u8, LoweringError>(spec_midi_value(*pitch) as u8),
{
    let base: i64 = match pitch.step {
        'C' => 0,
        'D' => 2,
        'E' => 4,
        'F' => 5,
        'G' => 7,
        'A' => 9,
        'B' => 11,
        _ => {
            return Err(LoweringError::InvalidPitchStep);
        },
    };
    let accidental: i64 = match &pitch.accidental {
        Some(Accidental::Sharp) => 1,
        Some(Accidental::Flat) => -1,
        None => 0,
    };
    let midi: i64 = (pitch.octave as i64 + 1) * 12 + base + accidental;
    if midi < 0 || midi > 127 {
        return Err(LoweringError::PitchOutOfRange);
    }
    Ok(midi as u8)
}

/// The velocity a dynamic marking denotes; unknown markings fall back to
/// the mezzo-forte value.
pub open spec fn spec_velocity(s: Seq<char>) -> u8 {
    if s == "fff"@ {
        127u8
    } else if s == "ff"@ {
        112u8
    } else if s == "f"@ {
        96u8
    } else if s == "mf"@ {
        80u8
    } else if s == "mp"@ {
        64u8
    } else if s == "p"@ {
        48u8
    } else if s == "pp"@ {
        32u8
    } else if s == "ppp"@ {
        16u8
    } else {
        80u8
    }
}

/// Maps a dynamic marking to a velocity by the fixed table.
pub fn dynamic_to_velocity(dynamic: &str) -> (r: u8)
    ensures
        r == spec_velocity(dynamic@),
{
    if str_eq(dynamic, "fff") {
        127
    } else if str_eq(dynamic, "ff") {
        112
    } else if str_eq(dynamic, "f") {
        96
    } else if str_eq(dynamic, "mf") {
        80
    } else if str_eq(dynamic, "mp") {
        64
    } else if str_eq(dynamic, "p") {
        48
    } else if str_eq(dynamic, "pp") {
        32
    } else if str_eq(dynamic, "ppp") {
        16
    } else {
        80
    }
}

} // verus!

use vstd::prelude::*;

verus! {

/// Lowering state threaded through one part: the absolute time cursor,
/// the running velocity, and the swing state — the active unit and
/// ratio, plus whether the next matching event starts a swing pair.
#[derive(Debug, Clone, Copy)]
pub struct LowerState {
    pub current_time: u32,
    pub current_velocity: u8,
    pub swing: Option<(BaseDuration, Ratio)>,
    pub swing_first: bool,
}

/// A lowering state is well formed when any active swing ratio lies
/// strictly between 0 and 1.
pub open spec fn spec_state_inv(st: LowerState) -> bool {
    match st.swing {
        Some((unit, r)) => r.valid(),
        None => true,
    }
}

/// First-of-pair swing duration: `2 * d * ratio`, rounded half up.
pub open spec fn spec_swing_long(d: int, r: Ratio) -> int {
    (4 * d * r.num + r.den) / (2 * r.den)
}

/// The duration an event receives under the current swing state, and
/// the pair parity after it: an event whose nominal duration equals the
/// active unit takes the long or the short side of the pair; any other
/// duration breaks the run.
pub open spec fn spec_apply_swing(st: LowerState, d: int, ppq: int) -> (int, bool) {
    match st.swing {
        Some((unit, r)) => {
            if d == spec_base_ticks(unit, ppq) {
                if st.swing_first {
                    (spec_swing_long(d, r), false)
                } else {
                    (2 * d - spec_swing_long(d, r), true)
                }
            } else {
                (d, true)
            }
        },
        None => (d, true),
    }
}

/// The long side of a swing pair is nonnegative and never exceeds the
/// whole pair.
pub proof fn lemma_swing_long_bound(d: int, r: Ratio)
    requires
        0 <= d,
        r.valid(),
    ensures
        0 <= spec_swing_long(d, r) <= 2 * d,
{
    let n = r.num as int;
    let den = r.den as int;
    assert(4 * d * n + den <= 4 * d * den + den) by (nonlinear_arith)
        requires
            0 <= d,
            0 < n < den,
    ;
    vstd::arithmetic::div_mod::lemma_div_is_ordered(4 * d * n + den, 4 * d * den + den, 2 * den);
    assert((4 * d * den + den) / (2 * den) <= 2 * d) by (nonlinear_arith)
        requires
            0 <= d,
            0 < den,
    ;
    vstd::arithmetic::div_mod::lemma_div_is_ordered(0, 4 * d * n + den, 2 * den);
    vstd::arithmetic::div_mod::lemma_div_of0(2 * den);
}

/// Note events of a chord: one per pitch, all sharing one start time,
/// velocity and duration; the first invalid pitch aborts.
pub open spec fn spec_chord_events(pitches: Seq<Pitch>, time: u32, vel: u8, dur: u32) -> Result<
    Seq<IrEventView>,
    LoweringError,
>
    decreases pitches.len(),
{
    if pitches.len() == 0 {
        Ok(Seq::empty())
    } else if spec_step_offset(pitches[0].step) is None {
        Err(LoweringError::InvalidPitchStep)
    } else if !(0 <= spec_midi_value(pitches[0]) <= 127) {
        Err(LoweringError::PitchOutOfRange)
    } else {
        match spec_chord_events(pitches.drop_first(), time, vel, dur) {
            Err(e) => Err(e),
            Ok(rest) => Ok(
                seq![
                    IrEventView {
                        time,
                        kind: IrEventKindView::Note {
                            pitch: spec_midi_value(pitches[0]) as u8,
                            velocity: vel,
                            duration: dur,
                        },
                    },
                ] + rest,
            ),
        }
    }
}

/// Lowers one event under the given state and tuplet scale `num / den`:
/// the new state and the events emitted, or the first error.
pub open spec fn spec_process_event(
    e: EventView,
    st: LowerState,
    num: int,
    den: int,
    ppq: int,
) -> Result<(LowerState, Seq<IrEventView>), LoweringError>
    decreases e,
{
    match e {
        EventView::Note(n) => match spec_duration_ticks(n.duration, ppq) {
            Err(er) => Err(er),
            Ok(d) => {
                let (swung, first2) = spec_apply_swing(st, d, ppq);
                let scaled = swung * num / den;
                if scaled > u32::MAX {
                    Err(LoweringError::ArithmeticOverflow)
                } else if spec_step_offset(n.pitch.step) is None {
                    Err(LoweringError::InvalidPitchStep)
                } else if !(0 <= spec_midi_value(n.pitch) <= 127) {
                    Err(LoweringError::PitchOutOfRange)
                } else {
                    let vel = match n.dynamic {
                        Some(s) => spec_velocity(s),
                        None => st.current_velocity,
                    };
                    if st.current_time + scaled > u32::MAX {
                        Err(LoweringError::ArithmeticOverflow)
                    } else {
                        Ok(
                            (
                                LowerState {
                                    current_time: (st.current_time + scaled) as u32,
                                    current_velocity: vel,
                                    swing: st.swing,
                                    swing_first: first2,
                                },
                                seq![
                                    IrEventView {
                                        time: st.current_time,
                                        kind: IrEventKindView::Note {
                                            pitch: spec_midi_value(n.pitch) as u8,
                                            velocity: vel,
                                            duration: scaled as u32,
                                        },
                                    },
                                ],
                            ),
                        )
                    }
                }
            },
        },
        EventView::Chord(pitches, duration, dynamic, articulation) => match spec_duration_ticks(
            duration,
            ppq,
        ) {
            Err(er) => Err(er),
            Ok(d) => {
                let (swung, first2) = spec_apply_swing(st, d, ppq);
                let scaled = swung * num / den;
                if scaled > u32::MAX {
                    Err(LoweringError::ArithmeticOverflow)
                } else {
                    let vel = match dynamic {
                        Some(s) => spec_velocity(s),
                        None => st.current_velocity,
                    };
                    match spec_chord_events(pitches, st.current_time, vel, scaled as u32) {
                        Err(e) => Err(e),
                        Ok(evs) => {
                            if st.current_time + scaled > u32::MAX {
                                Err(LoweringError::ArithmeticOverflow)
                            } else {
                                Ok(
                                    (
                                        LowerState {
                                            current_time: (st.current_time + scaled) as u32,
                                            current_velocity: vel,
                                            swing: st.swing,
                                            swing_first: first2,
                                        },
                                        evs,
                                    ),
                                )
                            }
                        },
                    }
                }
            },
        },
        EventView::Rest(duration) => match spec_duration_ticks(duration, ppq) {
            Err(er) => Err(er),
            Ok(d) => {
                let (swung, first2) = spec_apply_swing(st, d, ppq);
                let scaled = swung * num / den;
                if scaled > u32::MAX {
                    Err(LoweringError::ArithmeticOverflow)
                } else if st.current_time + scaled > u32::MAX {
                    Err(LoweringError::ArithmeticOverflow)
                } else {
                    Ok(
                        (
                            LowerState {
                                current_time: (st.current_time + scaled) as u32,
                                current_velocity: st.current_velocity,
                                swing: st.swing,
                                swing_first: first2,
                            },
                            Seq::empty(),
                        ),
                    )
                }
            },
        },
        EventView::Tie => Ok((st, Seq::empty())),
        EventView::Tuplet(t) => {
            if t.p == 0 {
                Err(LoweringError::InvalidTuplet)
            } else if num * t.q > u64::MAX || den * t.p > u64::MAX {
                Err(LoweringError::ArithmeticOverflow)
            } else {
                spec_process_events(t.events, st, num * t.q, den * t.p, ppq)
            }
        },
        EventView::Dynamic(s) => Ok(
            (
                LowerState {
                    current_time: st.current_time,
                    current_velocity: spec_velocity(s),
                    swing: st.swing,
                    swing_first: st.swing_first,
                },
                Seq::empty(),
            ),
        ),
    }
}

/// Lowers a sequence of events left to right, threading the state and
/// concatenating what they emit.
pub open spec fn spec_process_events(
    events: Seq<EventView>,
    st: LowerState,
    num: int,
    den: int,
    ppq: int,
) -> Result<(LowerState, Seq<IrEventView>), LoweringError>
    decreases events,
{
    if events.len() == 0 {
        Ok((st, Seq::empty()))
    } else {
        match spec_process_event(events[0], st, num, den, ppq) {
            Err(e) => Err(e),
            Ok(res) => match spec_process_events(events.drop_first(), res.0, num, den, ppq) {
                Err(e) => Err(e),
                Ok(res2) => Ok((res2.0, res.1 + res2.1)),
            },
        }
    }
}

} // verus!

verus! {

/// Ticks of an un-dotted base duration at the fixed resolution.
pub fn base_ticks(base: BaseDuration) -> (r: u32)
    ensures
        r as int == spec_base_ticks(base, PPQ as int),
{
    match base {
        BaseDuration::Whole => PPQ * 4,
        BaseDuration::Half => PPQ * 2,
        BaseDuration::Quarter => PPQ,
        BaseDuration::Eighth => PPQ / 2,
        BaseDuration::Sixteenth => PPQ / 4,
    }
}

/// Applies the swing state to a nominal duration; returns the duration
/// to use and the pair parity after this event.
fn apply_swing(st: &LowerState, d: u32) -> (r: (u64, bool))
    requires
        spec_state_inv(*st),
    ensures
        ({
            let (sd, first2) = spec_apply_swing(*st, d as int, PPQ as int);
            r.0 as int == sd && r.1 == first2 && 0 <= sd <= 2 * (d as int)
        }),
{
    match &st.swing {
        Some((unit, ratio)) => {
            let base = base_ticks(*unit);
            if d == base {
                proof {
                    lemma_swing_long_bound(d as int, *ratio);
                    assert(4 * (d as int) * (ratio.num as int) + (ratio.den as int) < u128::MAX)
                        by (nonlinear_arith)
                        requires
                            d <= u32::MAX,
                            ratio.num <= u32::MAX,
                            ratio.den <= u32::MAX,
                    ;
                }
                let long_wide: u128 = (4 * (d as u128) * (ratio.num as u128) + (ratio.den as u128))
                    / (2 * (ratio.den as u128));
                let long: u64 = long_wide as u64;
                if st.swing_first {
                    (long, false)
                } else {
                    ((2 * (d as u64)) - long, true)
                }
            } else {
                (d as u64, true)
            }
        },
        None => (d as u64, true),
    }
}

/// Emits the note events of a chord, one per pitch from index `i` on,
/// all sharing one start time, velocity and duration.
fn emit_chord_notes(
    pitches: &Vec<Pitch>,
    i: usize,
    time: u32,
    vel: u8,
    dur: u32,
    events: &mut Vec<IrEvent>,
) -> (r: Result<(), LoweringError>)
    requires
        i <= pitches@.len(),
    ensures
        match spec_chord_events(pitches@.skip(i as int), time, vel, dur) {
            Ok(evs) => r is Ok && final(events).deep_view() == old(events).deep_view() + evs,
            Err(e) => r == Err::<(), LoweringError>(e),
        },
        final(events)@.len() >= old(events)@.len(),
        forall|k: int| 0 <= k < old(events)@.len() ==> final(events)@[k] == old(events)@[k],
    decreases pitches@.len() - i,
{
    if i == pitches.len() {
        proof {
            assert(final(events).deep_view() =~= old(events).deep_view() + Seq::empty());
        }
        Ok(())
    } else {
        let midi = calculate_pitch(&pitches[i])?;
        let ghost before = events.deep_view();
        events.push(
            IrEvent {
                time,
                kind: IrEventKind::Note { pitch: midi, velocity: vel, duration: dur },
            },
        );
        proof {
            assert(events.deep_view() =~= before + seq![
                IrEventView {
                    time,
                    kind: IrEventKindView::Note {
                        pitch: spec_midi_value(pitches@[i as int]) as u8,
                        velocity: vel,
                        duration: dur,
                    },
                },
            ]);
            assert(pitches@.skip(i as int).drop_first() =~= pitches@.skip(i as int + 1));
        }
        let r = emit_chord_notes(pitches, i + 1, time, vel, dur, events);
        proof {
            if r is Ok {
                assert(final(events).deep_view() =~= old(events).deep_view() + (seq![
                    IrEventView {
                        time,
                        kind: IrEventKindView::Note {
                            pitch: spec_midi_value(pitches@[i as int]) as u8,
                            velocity: vel,
                            duration: dur,
                        },
                    },
                ] + spec_chord_events(pitches@.skip(i as int + 1), time, vel, dur)->Ok_0));
            }
        }
        r
    }
}

} // verus!

verus! {

/// Lowers one event: resolves its duration (with swing and tuplet
/// scaling), updates the running velocity, and appends what it emits.
/// The event buffer is only ever appended to, on the error path too;
/// on an error the state may have advanced partway and the caller
/// abandons it.
pub fn process_event(
    event: &Event,
    state: &mut LowerState,
    events: &mut Vec<IrEvent>,
    scale_num: u64,
    scale_den: u64,
) -> (r: Result<(), LoweringError>)
    requires
        scale_den >= 1,
        spec_state_inv(*old(state)),
    ensures
        match spec_process_event(
            event.deep_view(),
            *old(state),
            scale_num as int,
            scale_den as int,
            PPQ as int,
        ) {
            Ok(res) => r is Ok && *final(state) == res.0 && final(events).deep_view() == old(
                events,
            ).deep_view() + res.1 && spec_state_inv(res.0),
            Err(e) => r == Err::<(), LoweringError>(e),
        },
        final(events)@.len() >= old(events)@.len(),
        forall|k: int| 0 <= k < old(events)@.len() ==> final(events)@[k] == old(events)@[k],
    decreases *event, 0int,
{
    match event {
        Event::Note(note) => {
            let duration = calculate_duration(&note.duration, PPQ)?;
            let (swung, first2) = apply_swing(state, duration);
            proof {
                assert((swung as int) * (scale_num as int) <= u128::MAX) by (nonlinear_arith)
                    requires
                        swung <= 2 * (u32::MAX as int),
                        scale_num <= u64::MAX,
                ;
            }
            let scaled_wide: u128 = (swung as u128) * (scale_num as u128) / (scale_den as u128);
            if scaled_wide > u32::MAX as u128 {
                return Err(LoweringError::ArithmeticOverflow);
            }
            let scaled: u32 = scaled_wide as u32;
            let midi = calculate_pitch(&note.pitch)?;
            if let Some(dyn_str) = &note.dynamic {
                state.current_velocity = dynamic_to_velocity(dyn_str.as_str());
            }
            if state.current_time > u32::MAX - scaled {
                return Err(LoweringError::ArithmeticOverflow);
            }
            let ghost before = events.deep_view();
            events.push(
                IrEvent {
                    time: state.current_time,
                    kind: IrEventKind::Note {
                        pitch: midi,
                        velocity: state.current_velocity,
                        duration: scaled,
                    },
                },
            );
            state.current_time = state.current_time + scaled;
            state.swing_first = first2;
            proof {
                let res = spec_process_event(
                    event.deep_view(),
                    *old(state),
                    scale_num as int,
                    scale_den as int,
                    PPQ as int,
                )->Ok_0;
                assert(events.deep_view() =~= before + res.1);
            }
            Ok(())
        },
        Event::Chord(pitches, duration_opt, dynamic_opt, _articulation) => {
            let duration = calculate_duration(duration_opt, PPQ)?;
            let (swung, first2) = apply_swing(state, duration);
            proof {
                assert((swung as int) * (scale_num as int) <= u128::MAX) by (nonlinear_arith)
                    requires
                        swung <= 2 * (u32::MAX as int),
                        scale_num <= u64::MAX,
                ;
            }
            let scaled_wide: u128 = (swung as u128) * (scale_num as u128) / (scale_den as u128);
            if scaled_wide > u32::MAX as u128 {
                return Err(LoweringError::ArithmeticOverflow);
            }
            let scaled: u32 = scaled_wide as u32;
            if let Some(dyn_str) = &dynamic_opt {
                state.current_velocity = dynamic_to_velocity(dyn_str.as_str());
            }
            proof {
                assert(pitches@.skip(0) =~= pitches@);
                assert(pitches.deep_view() =~= pitches@);
            }
            emit_chord_notes(pitches, 0, state.current_time, state.current_velocity, scaled, events)?;
            if state.current_time > u32::MAX - scaled {
                return Err(LoweringError::ArithmeticOverflow);
            }
            state.current_time = state.current_time + scaled;
            state.swing_first = first2;
            Ok(())
        },
        Event::Rest(duration_opt) => {
            let duration = calculate_duration(duration_opt, PPQ)?;
            let (swung, first2) = apply_swing(state, duration);
            proof {
                assert((swung as int) * (scale_num as int) <= u128::MAX) by (nonlinear_arith)
                    requires
                        swung <= 2 * (u32::MAX as int),
                        scale_num <= u64::MAX,
                ;
            }
            let scaled_wide: u128 = (swung as u128) * (scale_num as u128) / (scale_den as u128);
            if scaled_wide > u32::MAX as u128 {
                return Err(LoweringError::ArithmeticOverflow);
            }
            let scaled: u32 = scaled_wide as u32;
            if state.current_time > u32::MAX - scaled {
                return Err(LoweringError::ArithmeticOverflow);
            }
            state.current_time = state.current_time + scaled;
            state.swing_first = first2;
            proof {
                assert(final(events).deep_view() =~= old(events).deep_view() + Seq::<
                    IrEventView,
                >::empty());
            }
            Ok(())
        },
        Event::Tie => {
            proof {
                assert(final(events).deep_view() =~= old(events).deep_view() + Seq::<
                    IrEventView,
                >::empty());
            }
            Ok(())
        },
        Event::Tuplet(tuplet) => {
            if tuplet.p == 0 {
                return Err(LoweringError::InvalidTuplet);
            }
            if tuplet.q != 0 && scale_num > u64::MAX / (tuplet.q as u64) {
                proof {
                    assert((scale_num as int) * (tuplet.q as int) > u64::MAX) by (nonlinear_arith)
                        requires
                            tuplet.q >= 1,
                            scale_num > u64::MAX as int / (tuplet.q as int),
                    ;
                }
                return Err(LoweringError::ArithmeticOverflow);
            }
            if scale_den > u64::MAX / (tuplet.p as u64) {
                proof {
                    assert((scale_den as int) * (tuplet.p as int) > u64::MAX) by (nonlinear_arith)
                        requires
                            tuplet.p >= 1,
                            scale_den > u64::MAX as int / (tuplet.p as int),
                    ;
                }
                return Err(LoweringError::ArithmeticOverflow);
            }
            proof {
                assert((scale_num as int) * (tuplet.q as int) <= u64::MAX) by (nonlinear_arith)
                    requires
                        tuplet.q == 0 || (tuplet.q >= 1 && scale_num <= u64::MAX as int
                            / (tuplet.q as int)),
                        scale_num >= 0,
                        tuplet.q >= 0,
                ;
                assert((scale_den as int) * (tuplet.p as int) <= u64::MAX) by (nonlinear_arith)
                    requires
                        tuplet.p >= 1 && scale_den <= u64::MAX as int / (tuplet.p as int),
                        scale_den >= 0,
                ;
                assert((scale_den as int) * (tuplet.p as int) >= 1) by (nonlinear_arith)
                    requires
                        tuplet.p >= 1,
                        scale_den >= 1,
                ;
                assert(tuplet.events@.skip(0) =~= tuplet.events@);
            }
            process_events(
                &tuplet.events,
                0,
                state,
                events,
                scale_num * (tuplet.q as u64),
                scale_den * (tuplet.p as u64),
            )
        },
        Event::Dynamic(dyn_str) => {
            state.current_velocity = dynamic_to_velocity(dyn_str.as_str());
            proof {
                assert(final(events).deep_view() =~= old(events).deep_view() + Seq::<
                    IrEventView,
                >::empty());
            }
            Ok(())
        },
    }
}

/// Lowers the events of a list from index `i` on, left to right.
pub fn process_events(
    list: &Vec<Event>,
    i: usize,
    state: &mut LowerState,
    events: &mut Vec<IrEvent>,
    scale_num: u64,
    scale_den: u64,
) -> (r: Result<(), LoweringError>)
    requires
        i <= list@.len(),
        scale_den >= 1,
        spec_state_inv(*old(state)),
    ensures
        match spec_process_events(
            events_deep_view(list@.skip(i as int)),
            *old(state),
            scale_num as int,
            scale_den as int,
            PPQ as int,
        ) {
            Ok(res) => r is Ok && *final(state) == res.0 && final(events).deep_view() == old(
                events,
            ).deep_view() + res.1 && spec_state_inv(res.0),
            Err(e) => r == Err::<(), LoweringError>(e),
        },
        final(events)@.len() >= old(events)@.len(),
        forall|k: int| 0 <= k < old(events)@.len() ==> final(events)@[k] == old(events)@[k],
    decreases *list, list@.len() - i,
{
    proof {
        lemma_events_deep_view(list@.skip(i as int));
    }
    if i == list.len() {
        proof {
            assert(final(events).deep_view() =~= old(events).deep_view() + Seq::<
                IrEventView,
            >::empty());
        }
        Ok(())
    } else {
        proof {
            assert(list@.skip(i as int)[0] == list@[i as int]);
            assert(events_deep_view(list@.skip(i as int))[0] == event_deep_view(list@[i as int]));
            assert(events_deep_view(list@.skip(i as int)).drop_first() =~= events_deep_view(
                list@.skip(i as int).drop_first(),
            )) by {
                lemma_events_deep_view(list@.skip(i as int).drop_first());
            }
            assert(list@.skip(i as int).drop_first() =~= list@.skip(i as int + 1));
        }
        let ghost before = events.deep_view();
        process_event(&list[i], state, events, scale_num, scale_den)?;
        let r = process_events(list, i + 1, state, events, scale_num, scale_den);
        proof {
            if r is Ok {
                let full = spec_process_events(
                    events_deep_view(list@.skip(i as int)),
                    *old(state),
                    scale_num as int,
                    scale_den as int,
                    PPQ as int,
                );
                assert(final(events).deep_view() =~= old(events).deep_view() + full->Ok_0.1);
            }
        }
        r
    }
}

} // verus!

verus! {

/// A swing directive is acceptable when it is off, or its ratio lies
/// strictly between 0 and 1.
pub open spec fn spec_swing_opt_valid(sw: Option<(BaseDuration, Ratio)>) -> bool {
    match sw {
        Some((unit, r)) => r.valid(),
        None => true,
    }
}

/// Lowers a sequence of measure blocks: measures lower their events;
/// inline context changes emit a local event at the current time (tempo,
/// time signature, key signature) or switch the swing state.
pub open spec fn spec_process_blocks(
    blocks: Seq<MeasureBlockView>,
    st: LowerState,
    ppq: int,
) -> Result<(LowerState, Seq<IrEventView>), LoweringError>
    decreases blocks.len(),
{
    if blocks.len() == 0 {
        Ok((st, Seq::empty()))
    } else {
        let step = match blocks[0] {
            MeasureBlockView::Measure(m) => spec_process_events(m.events, st, 1, 1, ppq),
            MeasureBlockView::ContextChange(cc) => match cc {
                ContextChangeView::Tempo(bpm) => Ok(
                    (
                        st,
                        seq![
                            IrEventView { time: st.current_time, kind: IrEventKindView::Tempo(bpm) },
                        ],
                    ),
                ),
                ContextChangeView::TimeSignature(n, d) => Ok(
                    (
                        st,
                        seq![
                            IrEventView {
                                time: st.current_time,
                                kind: IrEventKindView::TimeSignature(n, d),
                            },
                        ],
                    ),
                ),
                ContextChangeView::KeySignature(root, scale) => Ok(
                    (
                        st,
                        seq![
                            IrEventView {
                                time: st.current_time,
                                kind: IrEventKindView::KeySignature { root, scale },
                            },
                        ],
                    ),
                ),
                ContextChangeView::Swing(sw) => {
                    if spec_swing_opt_valid(sw) {
                        Ok(
                            (
                                LowerState {
                                    current_time: st.current_time,
                                    current_velocity: st.current_velocity,
                                    swing: sw,
                                    swing_first: true,
                                },
                                Seq::empty(),
                            ),
                        )
                    } else {
                        Err(LoweringError::InvalidSwingRatio)
                    }
                },
            },
        };
        match step {
            Err(e) => Err(e),
            Ok(res) => match spec_process_blocks(blocks.drop_first(), res.0, ppq) {
                Err(e) => Err(e),
                Ok(res2) => Ok((res2.0, res.1 + res2.1)),
            },
        }
    }
}

/// Lowers the measure blocks of a part from index `i` on.
pub fn process_blocks(
    blocks: &Vec<MeasureBlock>,
    i: usize,
    state: &mut LowerState,
    events: &mut Vec<IrEvent>,
) -> (r: Result<(), LoweringError>)
    requires
        i <= blocks@.len(),
        spec_state_inv(*old(state)),
    ensures
        match spec_process_blocks(blocks.deep_view().skip(i as int), *old(state), PPQ as int) {
            Ok(res) => r is Ok && *final(state) == res.0 && final(events).deep_view() == old(
                events,
            ).deep_view() + res.1 && spec_state_inv(res.0),
            Err(e) => r == Err::<(), LoweringError>(e),
        },
        final(events)@.len() >= old(events)@.len(),
        forall|k: int| 0 <= k < old(events)@.len() ==> final(events)@[k] == old(events)@[k],
    decreases blocks@.len() - i,
{
    if i == blocks.len() {
        proof {
            assert(final(events).deep_view() =~= old(events).deep_view() + Seq::<
                IrEventView,
            >::empty());
        }
        return Ok(());
    }
    proof {
        assert(blocks.deep_view().skip(i as int).drop_first() =~= blocks.deep_view().skip(
            i as int + 1,
        ));
        assert(blocks.deep_view().skip(i as int)[0] == blocks@[i as int].deep_view());
    }
    let ghost before = events.deep_view();
    match &blocks[i] {
        MeasureBlock::Measure(measure) => {
            proof {
                assert(measure.events@.skip(0) =~= measure.events@);
            }
            process_events(&measure.events, 0, state, events, 1, 1)?;
        },
        MeasureBlock::ContextChange(cc) => match cc {
            ContextChange::Tempo(bpm) => {
                events.push(IrEvent { time: state.current_time, kind: IrEventKind::Tempo(*bpm) });
                proof {
                    assert(events.deep_view() =~= before + seq![
                        IrEventView {
                            time: state.current_time,
                            kind: IrEventKindView::Tempo(*bpm),
                        },
                    ]);
                }
            },
            ContextChange::TimeSignature(n, d) => {
                events.push(
                    IrEvent { time: state.current_time, kind: IrEventKind::TimeSignature(*n, *d) },
                );
                proof {
                    assert(events.deep_view() =~= before + seq![
                        IrEventView {
                            time: state.current_time,
                            kind: IrEventKindView::TimeSignature(*n, *d),
                        },
                    ]);
                }
            },
            ContextChange::KeySignature(root, scale) => {
                events.push(
                    IrEvent {
                        time: state.current_time,
                        kind: IrEventKind::KeySignature {
                            root: root.clone(),
                            scale: scale.clone(),
                        },
                    },
                );
                proof {
                    assert(events.deep_view() =~= before + seq![
                        IrEventView {
                            time: state.current_time,
                            kind: IrEventKindView::KeySignature { root: root@, scale: scale@ },
                        },
                    ]);
                }
            },
            ContextChange::Swing(sw) => {
                if let Some((unit, ratio)) = sw {
                    if !(ratio.num > 0 && ratio.num < ratio.den) {
                        return Err(LoweringError::InvalidSwingRatio);
                    }
                }
                state.swing = *sw;
                state.swing_first = true;
                proof {
                    assert(events.deep_view() =~= before + Seq::<IrEventView>::empty());
                }
            },
        },
    }
    let r = process_blocks(blocks, i + 1, state, events);
    proof {
        if r is Ok {
            let full = spec_process_blocks(
                blocks.deep_view().skip(i as int),
                *old(state),
                PPQ as int,
            );
            assert(final(events).deep_view() =~= old(events).deep_view() + full->Ok_0.1);
        }
    }
    r
}

/// Removes each event equal to its immediate predecessor, keeping the
/// first of every run, as the representation's event equality sees them.
pub open spec fn spec_dedup_events(s: Seq<IrEventView>) -> Seq<IrEventView>
    decreases s.len(),
{
    if s.len() <= 1 {
        s
    } else {
        let rest = spec_dedup_events(s.drop_last());
        if s.last() == s[s.len() - 2] {
            rest
        } else {
            rest.push(s.last())
        }
    }
}

/// Removes consecutive duplicate events.
pub fn dedup_events(v: Vec<IrEvent>) -> (r: Vec<IrEvent>)
    ensures
        r.deep_view() == spec_dedup_events(v.deep_view()),
    decreases v@.len(),
{
    let mut v = v;
    if v.len() <= 1 {
        return v;
    }
    let ghost whole = v.deep_view();
    let last = match v.pop() {
        Some(e) => e,
        None => {
            return v;
        },
    };
    proof {
        assert(v.deep_view() =~= whole.drop_last());
    }
    let keep = !last.eq(&v[v.len() - 1]);
    let mut rest = dedup_events(v);
    if keep {
        rest.push(last);
    }
    rest
}

/// Removing consecutive duplicates keeps a sequence's first element
/// first; when the second element differs from the first, it stays
/// second.
pub proof fn lemma_dedup_events_head(s: Seq<IrEventView>)
    ensures
        s.len() > 0 ==> spec_dedup_events(s).len() > 0 && spec_dedup_events(s)[0] == s[0],
        s.len() > 1 && s[1] != s[0] ==> spec_dedup_events(s).len() > 1 && spec_dedup_events(s)[1]
            == s[1],
    decreases s.len(),
{
    if s.len() > 1 {
        lemma_dedup_events_head(s.drop_last());
        assert(s.drop_last()[0] == s[0]);
        if s.len() > 2 {
            assert(s.drop_last()[1] == s[1]);
        }
    }
}

/// An event that restates the time signature at the given start tick.
pub open spec fn spec_is_initial_ts(e: IrEventView, start: u32) -> bool {
    e.time == start && e.kind is TimeSignature
}

/// How many time-signature events sit at the start tick.
pub open spec fn spec_count_initial_ts(s: Seq<IrEventView>, start: u32) -> int
    decreases s.len(),
{
    if s.len() == 0 {
        0
    } else {
        spec_count_initial_ts(s.drop_last(), start) + if spec_is_initial_ts(s.last(), start) {
            1int
        } else {
            0int
        }
    }
}

/// The index of the last time-signature event at the start tick, or -1.
pub open spec fn spec_last_initial_ts(s: Seq<IrEventView>, start: u32) -> int
    decreases s.len(),
{
    if s.len() == 0 {
        -1
    } else if spec_is_initial_ts(s.last(), start) {
        s.len() - 1
    } else {
        spec_last_initial_ts(s.drop_last(), start)
    }
}

/// Drops every time-signature event at the start tick.
pub open spec fn spec_remove_initial_ts(s: Seq<IrEventView>, start: u32) -> Seq<IrEventView>
    decreases s.len(),
{
    if s.len() == 0 {
        s
    } else {
        let rest = spec_remove_initial_ts(s.drop_last(), start);
        if spec_is_initial_ts(s.last(), start) {
            rest
        } else {
            rest.push(s.last())
        }
    }
}

/// Removal keeps a leading event that is no start-tick time signature
/// in place.
pub proof fn lemma_remove_initial_ts_head(s: Seq<IrEventView>, start: u32)
    requires
        s.len() > 0,
        !spec_is_initial_ts(s[0], start),
    ensures
        spec_remove_initial_ts(s, start).len() > 0,
        spec_remove_initial_ts(s, start)[0] == s[0],
    decreases s.len(),
{
    if s.len() > 1 {
        assert(s.drop_last()[0] == s[0]);
        lemma_remove_initial_ts_head(s.drop_last(), start);
    } else {
        assert(spec_remove_initial_ts(s.drop_last(), start) =~= Seq::<IrEventView>::empty());
    }
}

/// True of a time-signature event at the given start tick.
fn is_initial_ts(e: &IrEvent, start: u32) -> (r: bool)
    ensures
        r == spec_is_initial_ts(e.deep_view(), start),
{
    e.time == start && match &e.kind {
        IrEventKind::TimeSignature(_, _) => true,
        _ => false,
    }
}

/// Counts the time-signature events at the start tick among the first
/// `n` events.
fn count_initial_ts(v: &Vec<IrEvent>, n: usize, start: u32) -> (c: usize)
    requires
        n <= v@.len(),
    ensures
        c as int == spec_count_initial_ts(v.deep_view().take(n as int), start),
        c <= n,
    decreases n,
{
    if n == 0 {
        proof {
            assert(v.deep_view().take(0) =~= Seq::<IrEventView>::empty());
        }
        0
    } else {
        let c = count_initial_ts(v, n - 1, start);
        proof {
            assert(v.deep_view().take(n as int).drop_last() =~= v.deep_view().take(n as int - 1));
        }
        if is_initial_ts(&v[n - 1], start) {
            c + 1
        } else {
            c
        }
    }
}

/// The index of the last time-signature event at the start tick among
/// the first `n` events, if any.
fn last_initial_ts(v: &Vec<IrEvent>, n: usize, start: u32) -> (r: Option<usize>)
    requires
        n <= v@.len(),
    ensures
        ({
            let f = spec_last_initial_ts(v.deep_view().take(n as int), start);
            (f == -1 ==> r is None) && (f >= 0 ==> r == Some(f as usize))
        }),
    decreases n,
{
    if n == 0 {
        None
    } else {
        proof {
            assert(v.deep_view().take(n as int).drop_last() =~= v.deep_view().take(n as int - 1));
        }
        if is_initial_ts(&v[n - 1], start) {
            Some(n - 1)
        } else {
            last_initial_ts(v, n - 1, start)
        }
    }
}

/// Drops every time-signature event at the start tick.
fn remove_initial_ts(v: Vec<IrEvent>, start: u32) -> (r: Vec<IrEvent>)
    ensures
        r.deep_view() == spec_remove_initial_ts(v.deep_view(), start),
    decreases v@.len(),
{
    let mut v = v;
    if v.len() == 0 {
        return v;
    }
    let ghost whole = v.deep_view();
    let last = match v.pop() {
        Some(e) => e,
        None => {
            return v;
        },
    };
    proof {
        assert(v.deep_view() =~= whole.drop_last());
    }
    let keep_it = !is_initial_ts(&last, start);
    let mut rest = remove_initial_ts(v, start);
    if keep_it {
        rest.push(last);
    }
    rest
}

} // verus!

verus! {

/// Lowers one declared block of a part into a track fragment starting
/// at `start_time`: a program-change and a time-signature event first,
/// then the lowered content, consecutive duplicates removed, and of
/// several time signatures restated at the start tick only the last
/// kept, restored to the second position so the track always begins
/// with the program change and the surviving time signature. Returns
/// the track and the absolute tick where its content ends.
pub open spec fn spec_walk_part(
    p: PartView,
    channel: u8,
    start_time: u32,
    init_ts: (u32, u32),
    init_swing: Option<(BaseDuration, Ratio)>,
    ppq: int,
) -> Result<(IrTrackView, u32), LoweringError> {
    let program = match spec_instrument_program(p.instrument) {
        Some(pr) => pr,
        None => 0u8,
    };
    let init_events = seq![
        IrEventView { time: start_time, kind: IrEventKindView::ProgramChange(program) },
        IrEventView { time: start_time, kind: IrEventKindView::TimeSignature(init_ts.0, init_ts.1) },
    ];
    if !spec_swing_opt_valid(init_swing) {
        Err(LoweringError::InvalidSwingRatio)
    } else {
        let st0 = LowerState {
            current_time: start_time,
            current_velocity: 100u8,
            swing: init_swing,
            swing_first: true,
        };
        match spec_process_blocks(p.content, st0, ppq) {
            Err(e) => Err(e),
            Ok(res) => {
                let deduped = spec_dedup_events(init_events + res.1);
                let out = if spec_count_initial_ts(deduped, start_time) > 1 {
                    spec_remove_initial_ts(deduped, start_time).insert(
                        1,
                        deduped[spec_last_initial_ts(deduped, start_time)],
                    )
                } else {
                    deduped
                };
                Ok((IrTrackView { name: p.name, channel, events: out }, res.0.current_time))
            },
        }
    }
}

/// Where some event at the start tick restates the time signature, the
/// last such index exists.
pub proof fn lemma_count_last_initial_ts(s: Seq<IrEventView>, start: u32)
    ensures
        (spec_count_initial_ts(s, start) > 0) <==> (spec_last_initial_ts(s, start) >= 0),
        spec_count_initial_ts(s, start) >= 0,
        spec_last_initial_ts(s, start) < s.len(),
        spec_last_initial_ts(s, start) >= 0 ==> spec_is_initial_ts(
            s[spec_last_initial_ts(s, start)],
            start,
        ),
    decreases s.len(),
{
    if s.len() > 0 {
        lemma_count_last_initial_ts(s.drop_last(), start);
    }
}

/// Every successfully lowered part block begins with exactly its
/// program change and one time-signature event at the start tick, in
/// that order, whatever the content declared.
pub proof fn lemma_walk_part_track_shape(
    p: PartView,
    channel: u8,
    start_time: u32,
    init_ts: (u32, u32),
    init_swing: Option<(BaseDuration, Ratio)>,
    ppq: int,
)
    ensures
        (match spec_walk_part(p, channel, start_time, init_ts, init_swing, ppq) {
            Ok(res) => res.0.events.len() >= 2 && res.0.events[0].time == start_time && (
            res.0.events[0].kind is ProgramChange) && res.0.events[1].time == start_time && (
            res.0.events[1].kind is TimeSignature),
            Err(e) => true,
        }),
{
    let sp = spec_walk_part(p, channel, start_time, init_ts, init_swing, ppq);
    if sp is Ok {
        let program = match spec_instrument_program(p.instrument) {
            Some(pr) => pr,
            None => 0u8,
        };
        let init_events = seq![
            IrEventView { time: start_time, kind: IrEventKindView::ProgramChange(program) },
            IrEventView {
                time: start_time,
                kind: IrEventKindView::TimeSignature(init_ts.0, init_ts.1),
            },
        ];
        let st0 = LowerState {
            current_time: start_time,
            current_velocity: 100u8,
            swing: init_swing,
            swing_first: true,
        };
        let res = spec_process_blocks(p.content, st0, ppq)->Ok_0;
        let all = init_events + res.1;
        let dd = spec_dedup_events(all);
        assert(all[0] == init_events[0] && all[1] == init_events[1]);
        lemma_dedup_events_head(all);
        let cnt = spec_count_initial_ts(dd, start_time);
        if cnt > 1 {
            lemma_count_last_initial_ts(dd, start_time);
            lemma_remove_initial_ts_head(dd, start_time);
            let removed = spec_remove_initial_ts(dd, start_time);
            let kept = dd[spec_last_initial_ts(dd, start_time)];
            let out = removed.insert(1, kept);
            assert(out[0] == removed[0]);
            assert(out[1] == kept);
        }
    }
}

/// Lowers one declared block of a part; see `spec_walk_part`.
pub fn walk_part(
    part: &Part,
    channel: u8,
    start_time: u32,
    initial_time_signature: (u32, u32),
    initial_swing: Option<(BaseDuration, Ratio)>,
) -> (r: Result<(IrTrack, u32), LoweringError>)
    ensures
        match spec_walk_part(
            part.deep_view(),
            channel,
            start_time,
            initial_time_signature,
            initial_swing,
            PPQ as int,
        ) {
            Ok(res) => r is Ok && r->Ok_0.0.deep_view() == res.0 && r->Ok_0.1 == res.1,
            Err(e) => r == Err::<(IrTrack, u32), LoweringError>(e),
        },
{
    let mut events: Vec<IrEvent> = Vec::new();
    let program = match get_instrument_program(part.instrument.as_str()) {
        Some(p) => p,
        None => 0,
    };
    events.push(IrEvent { time: start_time, kind: IrEventKind::ProgramChange(program) });
    events.push(
        IrEvent {
            time: start_time,
            kind: IrEventKind::TimeSignature(
                initial_time_signature.0,
                initial_time_signature.1,
            ),
        },
    );
    if let Some((unit, ratio)) = &initial_swing {
        if !(ratio.num > 0 && ratio.num < ratio.den) {
            return Err(LoweringError::InvalidSwingRatio);
        }
    }
    let mut state = LowerState {
        current_time: start_time,
        current_velocity: 100,
        swing: initial_swing,
        swing_first: true,
    };
    let ghost st0 = state;
    let ghost spec_program = (match spec_instrument_program(part.instrument@) {
        Some(pr) => pr,
        None => 0u8,
    });
    let ghost init_spec = seq![
        IrEventView { time: start_time, kind: IrEventKindView::ProgramChange(spec_program) },
        IrEventView {
            time: start_time,
            kind: IrEventKindView::TimeSignature(
                initial_time_signature.0,
                initial_time_signature.1,
            ),
        },
    ];
    proof {
        assert(events.deep_view() =~= init_spec);
        assert(part.content.deep_view().skip(0) =~= part.content.deep_view());
    }
    process_blocks(&part.content, 0, &mut state, &mut events)?;
    let ghost blocks_out = spec_process_blocks(part.content.deep_view(), st0, PPQ as int)->Ok_0.1;
    let ghost spec_deduped = spec_dedup_events(init_spec + blocks_out);
    proof {
        assert(events.deep_view() =~= init_spec + blocks_out);
    }
    let deduped = dedup_events(events);
    let count = count_initial_ts(&deduped, deduped.len(), start_time);
    proof {
        assert(deduped.deep_view() == spec_deduped);
        assert(deduped.deep_view().take(deduped@.len() as int) =~= deduped.deep_view());
        lemma_count_last_initial_ts(deduped.deep_view(), start_time);
        assert(count as int == spec_count_initial_ts(spec_deduped, start_time));
    }
    let result_events = if count > 1 {
        match last_initial_ts(&deduped, deduped.len(), start_time) {
            Some(keep) => {
                let (kept_num, kept_den) = match &deduped[keep].kind {
                    IrEventKind::TimeSignature(n, d) => (*n, *d),
                    _ => {
                        proof {
                            assert(false);
                        }
                        (4, 4)
                    },
                };
                let ghost kept_view = deduped.deep_view()[keep as int];
                proof {
                    lemma_dedup_events_head(init_spec + blocks_out);
                    assert(kept_view == IrEventView {
                        time: start_time,
                        kind: IrEventKindView::TimeSignature(kept_num, kept_den),
                    });
                    lemma_remove_initial_ts_head(spec_deduped, start_time);
                }
                let mut stripped = remove_initial_ts(deduped, start_time);
                stripped.insert(
                    1,
                    IrEvent {
                        time: start_time,
                        kind: IrEventKind::TimeSignature(kept_num, kept_den),
                    },
                );
                proof {
                    assert(stripped.deep_view() =~= spec_remove_initial_ts(
                        spec_deduped,
                        start_time,
                    ).insert(1, kept_view));
                }
                stripped
            },
            None => {
                proof {
                    assert(false);
                }
                deduped
            },
        }
    } else {
        deduped
    };
    proof {
        let sp = spec_walk_part(
            part.deep_view(),
            channel,
            start_time,
            initial_time_signature,
            initial_swing,
            PPQ as int,
        );
        assert(sp is Ok);
        let res = sp->Ok_0;
        assert(res.0.events == (if spec_count_initial_ts(spec_deduped, start_time) > 1 {
            spec_remove_initial_ts(spec_deduped, start_time).insert(
                1,
                spec_deduped[spec_last_initial_ts(spec_deduped, start_time)],
            )
        } else {
            spec_deduped
        }));
        assert(result_events.deep_view() == res.0.events);
        assert(state.current_time == res.1);
    }
    Ok(
        (
            IrTrack { name: part.name.clone(), channel, events: result_events },
            state.current_time,
        ),
    )
}

} // verus!

verus! {

/// Conductor events from the headers: tempo and time-signature headers
/// become events at tick 0, in header order.
pub open spec fn spec_header_events(headers: Seq<crate::ast::HeaderView>) -> Seq<IrEventView>
    decreases headers.len(),
{
    if headers.len() == 0 {
        Seq::empty()
    } else {
        let rest = spec_header_events(headers.drop_last());
        match headers.last() {
            crate::ast::HeaderView::Tempo(bpm) => rest.push(
                IrEventView { time: 0, kind: IrEventKindView::Tempo(bpm) },
            ),
            crate::ast::HeaderView::TimeSignature(n, d) => rest.push(
                IrEventView { time: 0, kind: IrEventKindView::TimeSignature(n, d) },
            ),
            _ => rest,
        }
    }
}

/// Whether some header declares a time signature.
pub open spec fn spec_has_ts_header(headers: Seq<crate::ast::HeaderView>) -> bool
    decreases headers.len(),
{
    if headers.len() == 0 {
        false
    } else {
        spec_has_ts_header(headers.drop_last()) || headers.last() is TimeSignature
    }
}

/// The globally active time signature: the last one declared, else 4/4.
pub open spec fn spec_global_ts(headers: Seq<crate::ast::HeaderView>) -> (u32, u32)
    decreases headers.len(),
{
    if headers.len() == 0 {
        (4u32, 4u32)
    } else {
        match headers.last() {
            crate::ast::HeaderView::TimeSignature(n, d) => (n, d),
            _ => spec_global_ts(headers.drop_last()),
        }
    }
}

/// The globally active swing: the last swing header's payload, else off.
pub open spec fn spec_global_swing(headers: Seq<crate::ast::HeaderView>) -> Option<
    (BaseDuration, Ratio),
>
    decreases headers.len(),
{
    if headers.len() == 0 {
        None
    } else {
        match headers.last() {
            crate::ast::HeaderView::Swing(sw) => sw,
            _ => spec_global_swing(headers.drop_last()),
        }
    }
}

/// The index of the first track with the given name, or -1.
pub open spec fn spec_find_track(tracks: Seq<IrTrackView>, name: Seq<char>) -> int
    decreases tracks.len(),
{
    if tracks.len() == 0 {
        -1
    } else if tracks[0].name == name {
        0
    } else {
        let r = spec_find_track(tracks.drop_first(), name);
        if r == -1 {
            -1
        } else {
            r + 1
        }
    }
}

/// Processes the declared parts in order: the first block of a name
/// opens a track on the next round-robin channel; a later block of the
/// same name is lowered starting at that track's end tick and appended.
pub open spec fn spec_walk_parts(
    parts: Seq<PartView>,
    tracks: Seq<IrTrackView>,
    ends: Seq<u32>,
    next_channel: u8,
    global_ts: (u32, u32),
    global_swing: Option<(BaseDuration, Ratio)>,
    ppq: int,
) -> Result<Seq<IrTrackView>, LoweringError>
    decreases parts.len(),
{
    if parts.len() == 0 {
        Ok(tracks)
    } else {
        let p = parts[0];
        let j = spec_find_track(tracks, p.name);
        if 0 <= j < tracks.len() && j < ends.len() {
            match spec_walk_part(p, tracks[j].channel, ends[j], global_ts, global_swing, ppq) {
                Err(e) => Err(e),
                Ok(res) => {
                    let merged = IrTrackView {
                        name: tracks[j].name,
                        channel: tracks[j].channel,
                        events: tracks[j].events + res.0.events,
                    };
                    spec_walk_parts(
                        parts.drop_first(),
                        tracks.update(j, merged),
                        ends.update(j, res.1),
                        next_channel,
                        global_ts,
                        global_swing,
                        ppq,
                    )
                },
            }
        } else {
            match spec_walk_part(p, next_channel, 0, global_ts, global_swing, ppq) {
                Err(e) => Err(e),
                Ok(res) => spec_walk_parts(
                    parts.drop_first(),
                    tracks.push(res.0),
                    ends.push(res.1),
                    (if next_channel >= 15 {
                        0u8
                    } else {
                        (next_channel + 1) as u8
                    }),
                    global_ts,
                    global_swing,
                    ppq,
                ),
            }
        }
    }
}

/// Lowers a whole score; see `walk`.
pub open spec fn spec_walk(s: crate::ast::ScoreView, ppq: int) -> Result<
    crate::ir::IrScoreView,
    LoweringError,
> {
    let hdr_events = spec_header_events(s.headers);
    let cond_events = if spec_has_ts_header(s.headers) {
        hdr_events
    } else {
        hdr_events.push(IrEventView { time: 0, kind: IrEventKindView::TimeSignature(4, 4) })
    };
    let conductor = IrTrackView {
        name: "Conductor"@,
        channel: 0,
        events: spec_dedup_events(cond_events),
    };
    match spec_walk_parts(
        s.parts,
        Seq::empty(),
        Seq::empty(),
        0,
        spec_global_ts(s.headers),
        spec_global_swing(s.headers),
        ppq,
    ) {
        Err(e) => Err(e),
        Ok(tracks) => Ok(
            crate::ir::IrScoreView { tracks: seq![conductor] + tracks, ppq: 480u32 },
        ),
    }
}

/// The index of the first track named `name`, if any.
fn find_track(tracks: &Vec<IrTrack>, i: usize, name: &String) -> (r: Option<usize>)
    requires
        i <= tracks@.len(),
    ensures
        ({
            let f = spec_find_track(tracks.deep_view().skip(i as int), name@);
            &&& f >= -1
            &&& (f == -1 <==> r is None)
            &&& (f >= 0 ==> i + f <= usize::MAX && r == Some((i + f) as usize) && i + f
                < tracks@.len())
        }),
    decreases tracks@.len() - i,
{
    if i == tracks.len() {
        None
    } else {
        proof {
            assert(tracks.deep_view().skip(i as int)[0] == tracks@[i as int].deep_view());
            assert(tracks.deep_view().skip(i as int).drop_first() =~= tracks.deep_view().skip(
                i as int + 1,
            ));
        }
        if tracks[i].name.eq(name) {
            Some(i)
        } else {
            find_track(tracks, i + 1, name)
        }
    }
}

/// Processes the declared parts from index `i` on; see `spec_walk_parts`.
fn walk_parts(
    parts: &Vec<Part>,
    i: usize,
    tracks: &mut Vec<IrTrack>,
    ends: &mut Vec<u32>,
    next_channel: u8,
    global_ts: (u32, u32),
    global_swing: Option<(BaseDuration, Ratio)>,
) -> (r: Result<(), LoweringError>)
    requires
        i <= parts@.len(),
        old(tracks)@.len() == old(ends)@.len(),
    ensures
        match spec_walk_parts(
            parts.deep_view().skip(i as int),
            old(tracks).deep_view(),
            old(ends)@,
            next_channel,
            global_ts,
            global_swing,
            PPQ as int,
        ) {
            Ok(ts) => r is Ok && final(tracks).deep_view() == ts,
            Err(e) => r == Err::<(), LoweringError>(e),
        },
    decreases parts@.len() - i,
{
    if i == parts.len() {
        return Ok(());
    }
    proof {
        assert(parts.deep_view().skip(i as int)[0] == parts@[i as int].deep_view());
        assert(parts.deep_view().skip(i as int).drop_first() =~= parts.deep_view().skip(
            i as int + 1,
        ));
    }
    let part = &parts[i];
    match find_track(tracks, 0, &part.name) {
        Some(j) => {
            proof {
                assert(tracks.deep_view().skip(0) =~= tracks.deep_view());
            }
            let start = ends[j];
            let channel = tracks[j].channel;
            proof {
                let f = spec_find_track(tracks.deep_view(), part.name@);
                assert(f == j as int && 0 <= f < tracks.deep_view().len());
                assert((j as int) < ends@.len());
            }
            let (new_track, end) = walk_part(part, channel, start, global_ts, global_swing)?;
            let ghost tracks_before = tracks.deep_view();
            let mut merged = tracks.remove(j);
            let mut new_events = new_track.events;
            merged.events.append(&mut new_events);
            tracks.insert(j, merged);
            proof {
                let sp_res = spec_walk_part(
                    parts@[i as int].deep_view(),
                    channel,
                    start,
                    global_ts,
                    global_swing,
                    PPQ as int,
                )->Ok_0;
                let spec_merged = IrTrackView {
                    name: tracks_before[j as int].name,
                    channel: tracks_before[j as int].channel,
                    events: tracks_before[j as int].events + sp_res.0.events,
                };
                assert(merged.events.deep_view() =~= tracks_before[j as int].events
                    + sp_res.0.events);
                assert(merged.deep_view() == spec_merged);
                assert(tracks.deep_view() =~= tracks_before.update(j as int, spec_merged));
            }
            let ghost ends_before = ends@;
            let end_old = ends.remove(j);
            ends.insert(j, end);
            proof {
                assert(ends@ =~= ends_before.update(j as int, end));
            }
            walk_parts(parts, i + 1, tracks, ends, next_channel, global_ts, global_swing)
        },
        None => {
            proof {
                assert(tracks.deep_view().skip(0) =~= tracks.deep_view());
            }
            let (new_track, end) = walk_part(part, next_channel, 0, global_ts, global_swing)?;
            let ghost tracks_before = tracks.deep_view();
            tracks.push(new_track);
            ends.push(end);
            proof {
                let sp_res = spec_walk_part(
                    parts@[i as int].deep_view(),
                    next_channel,
                    0,
                    global_ts,
                    global_swing,
                    PPQ as int,
                )->Ok_0;
                assert(tracks.deep_view() =~= tracks_before.push(sp_res.0));
            }
            let next2: u8 = if next_channel >= 15 {
                0
            } else {
                next_channel + 1
            };
            walk_parts(parts, i + 1, tracks, ends, next2, global_ts, global_swing)
        },
    }
}

/// Lowers a score to the intermediate representation: a conductor track
/// with the global tempo and time signature (4/4 injected when none is
/// declared), then one track per distinct part name, same-named blocks
/// merged end to end. The result is exactly `spec_walk` of the score.
pub fn walk(score: &Score) -> (r: Result<IrScore, LoweringError>)
    ensures
        match spec_walk(score.deep_view(), PPQ as int) {
            Ok(irv) => r is Ok && r->Ok_0.deep_view() == irv,
            Err(e) => r == Err::<IrScore, LoweringError>(e),
        },
{
    let mut conductor_events: Vec<IrEvent> = Vec::new();
    let mut has_time_signature = false;
    let mut global_ts: (u32, u32) = (4, 4);
    let mut global_swing: Option<(BaseDuration, Ratio)> = None;
    let mut i: usize = 0;
    proof {
        assert(score.headers.deep_view().take(0) =~= Seq::<crate::ast::HeaderView>::empty());
    }
    while i < score.headers.len()
        invariant
            i <= score.headers@.len(),
            conductor_events.deep_view() == spec_header_events(
                score.headers.deep_view().take(i as int),
            ),
            has_time_signature == spec_has_ts_header(score.headers.deep_view().take(i as int)),
            global_ts == spec_global_ts(score.headers.deep_view().take(i as int)),
            global_swing == spec_global_swing(score.headers.deep_view().take(i as int)),
        decreases score.headers@.len() - i,
    {
        proof {
            assert(score.headers.deep_view().take(i as int + 1).drop_last()
                =~= score.headers.deep_view().take(i as int));
            assert(score.headers.deep_view().take(i as int + 1).last() == score.headers@[
                i as int
            ].deep_view());
        }
        let ghost before = conductor_events.deep_view();
        match &score.headers[i] {
            crate::ast::Header::Tempo(bpm) => {
                conductor_events.push(IrEvent { time: 0, kind: IrEventKind::Tempo(*bpm) });
                proof {
                    assert(conductor_events.deep_view() =~= before.push(
                        IrEventView { time: 0, kind: IrEventKindView::Tempo(*bpm) },
                    ));
                }
            },
            crate::ast::Header::TimeSignature(n, d) => {
                has_time_signature = true;
                global_ts = (*n, *d);
                conductor_events.push(
                    IrEvent { time: 0, kind: IrEventKind::TimeSignature(*n, *d) },
                );
                proof {
                    assert(conductor_events.deep_view() =~= before.push(
                        IrEventView { time: 0, kind: IrEventKindView::TimeSignature(*n, *d) },
                    ));
                }
            },
            crate::ast::Header::Swing(sw) => {
                global_swing = *sw;
            },
            _ => {},
        }
        i = i + 1;
    }
    proof {
        assert(score.headers.deep_view().take(score.headers@.len() as int)
            =~= score.headers.deep_view());
    }
    if !has_time_signature {
        let ghost before = conductor_events.deep_view();
        conductor_events.push(IrEvent { time: 0, kind: IrEventKind::TimeSignature(4, 4) });
        proof {
            assert(conductor_events.deep_view() =~= before.push(
                IrEventView { time: 0, kind: IrEventKindView::TimeSignature(4, 4) },
            ));
        }
    }
    let conductor_events = dedup_events(conductor_events);
    let mut tracks: Vec<IrTrack> = Vec::new();
    let mut ends: Vec<u32> = Vec::new();
    proof {
        assert(score.parts.deep_view().skip(0) =~= score.parts.deep_view());
        assert(tracks.deep_view() =~= Seq::<IrTrackView>::empty());
        assert(ends@ =~= Seq::<u32>::empty());
    }
    walk_parts(&score.parts, 0, &mut tracks, &mut ends, 0, global_ts, global_swing)?;
    let conductor = IrTrack {
        name: String::from_str("Conductor"),
        channel: 0,
        events: conductor_events,
    };
    let ghost tracks_before = tracks.deep_view();
    tracks.insert(0, conductor);
    proof {
        let sp_tracks = spec_walk_parts(
            score.parts.deep_view(),
            Seq::empty(),
            Seq::empty(),
            0,
            spec_global_ts(score.headers.deep_view()),
            spec_global_swing(score.headers.deep_view()),
            PPQ as int,
        )->Ok_0;
        assert(tracks.deep_view() =~= seq![
            IrTrackView {
                name: "Conductor"@,
                channel: 0u8,
                events: spec_dedup_events(
                    if spec_has_ts_header(score.headers.deep_view()) {
                        spec_header_events(score.headers.deep_view())
                    } else {
                        spec_header_events(score.headers.deep_view()).push(
                            IrEventView { time: 0, kind: IrEventKindView::TimeSignature(4, 4) },
                        )
                    },
                ),
            },
        ] + sp_tracks);
    }
    Ok(IrScore { tracks, ppq: PPQ })
}

} // verus!

verus! {

/// Nominal tick length of one event: notes, chords and rests take their
/// duration; a tuplet takes its content scaled by q/p; anything else
/// takes no time. Sums are capped at the 32-bit range.
pub open spec fn spec_event_duration(e: EventView, ppq: int) -> Result<int, LoweringError>
    decreases e,
{
    match e {
        EventView::Note(n) => spec_duration_ticks(n.duration, ppq),
        EventView::Chord(pitches, duration, dynamic, articulation) => spec_duration_ticks(
            duration,
            ppq,
        ),
        EventView::Rest(duration) => spec_duration_ticks(duration, ppq),
        EventView::Tuplet(t) => match spec_events_total_duration(t.events, ppq) {
            Err(e) => Err(e),
            Ok(content) => {
                if t.p == 0 {
                    Err(LoweringError::InvalidTuplet)
                } else {
                    let scaled = content * (t.q as int) / (t.p as int);
                    if scaled > u32::MAX {
                        Err(LoweringError::ArithmeticOverflow)
                    } else {
                        Ok(scaled)
                    }
                }
            },
        },
        EventView::Dynamic(s) => Ok(0),
        EventView::Tie => Ok(0),
    }
}

/// Total nominal tick length of a sequence of events, left to right.
pub open spec fn spec_events_total_duration(events: Seq<EventView>, ppq: int) -> Result<
    int,
    LoweringError,
>
    decreases events,
{
    if events.len() == 0 {
        Ok(0)
    } else {
        match spec_event_duration(events[0], ppq) {
            Err(e) => Err(e),
            Ok(d) => match spec_events_total_duration(events.drop_first(), ppq) {
                Err(e) => Err(e),
                Ok(rest) => {
                    if d + rest > u32::MAX {
                        Err(LoweringError::ArithmeticOverflow)
                    } else {
                        Ok(d + rest)
                    }
                },
            },
        }
    }
}

/// Every successfully computed event duration is a 32-bit tick count.
pub proof fn lemma_event_duration_bounds(e: EventView, ppq: int)
    requires
        0 <= ppq <= u32::MAX as int / 8,
    ensures
        spec_event_duration(e, ppq) matches Ok(d) ==> 0 <= d <= u32::MAX,
    decreases e, 0int,
{
    match e {
        EventView::Note(n) => {
            lemma_duration_ticks_bounds(n.duration, ppq);
        },
        EventView::Chord(pitches, duration, dynamic, articulation) => {
            lemma_duration_ticks_bounds(duration, ppq);
        },
        EventView::Rest(duration) => {
            lemma_duration_ticks_bounds(duration, ppq);
        },
        EventView::Tuplet(t) => {
            lemma_events_total_duration_bounds(t.events, ppq);
            match spec_events_total_duration(t.events, ppq) {
                Ok(content) => {
                    if t.p != 0 {
                        assert(content * t.q >= 0) by (nonlinear_arith)
                            requires
                                content >= 0,
                                t.q >= 0,
                        ;
                        vstd::arithmetic::div_mod::lemma_div_is_ordered(
                            0,
                            content * t.q,
                            t.p as int,
                        );
                        vstd::arithmetic::div_mod::lemma_div_of0(t.p as int);
                    }
                },
                Err(e2) => {},
            }
        },
        _ => {},
    }
}

/// Every successfully computed total is a 32-bit tick count.
pub proof fn lemma_events_total_duration_bounds(events: Seq<EventView>, ppq: int)
    requires
        0 <= ppq <= u32::MAX as int / 8,
    ensures
        spec_events_total_duration(events, ppq) matches Ok(d) ==> 0 <= d <= u32::MAX,
    decreases events, 1int,
{
    if events.len() > 0 {
        lemma_event_duration_bounds(events[0], ppq);
        lemma_events_total_duration_bounds(events.drop_first(), ppq);
    }
}

/// Every successfully resolved duration is a 32-bit tick count.
pub proof fn lemma_duration_ticks_bounds(duration_opt: Option<Duration>, ppq: int)
    requires
        0 <= ppq <= u32::MAX as int / 8,
    ensures
        spec_duration_ticks(duration_opt, ppq) matches Ok(d) ==> 0 <= d <= u32::MAX,
{
    if let Some(Duration::Base(base, dots)) = duration_opt {
        lemma_dots_bound(
            spec_base_ticks(base, ppq),
            spec_base_ticks(base, ppq) / 2,
            dots as int,
        );
    }
}

/// Nominal tick length of one event; see `spec_event_duration`.
pub fn calculate_event_duration(event: &Event, ppq: u32) -> (r: Result<u32, LoweringError>)
    requires
        ppq <= u32::MAX / 8,
    ensures
        (match spec_event_duration(event.deep_view(), ppq as int) {
            Ok(t) => r == Ok::<u32, LoweringError>(t as u32) && 0 <= t <= u32::MAX,
            Err(e) => r == Err::<u32, LoweringError>(e),
        }),
    decreases *event, 0int,
{
    proof {
        lemma_event_duration_bounds(event.deep_view(), ppq as int);
    }
    match event {
        Event::Note(note) => calculate_duration(&note.duration, ppq),
        Event::Chord(pitches, duration_opt, dynamic_opt, articulation_opt) => calculate_duration(
            duration_opt,
            ppq,
        ),
        Event::Rest(duration_opt) => calculate_duration(duration_opt, ppq),
        Event::Tuplet(tuplet) => {
            proof {
                assert(tuplet.events@.skip(0) =~= tuplet.events@);
            }
            let content = calculate_events_total_duration(&tuplet.events, 0, ppq)?;
            if tuplet.p == 0 {
                return Err(LoweringError::InvalidTuplet);
            }
            proof {
                assert((content as int) * (tuplet.q as int) <= u64::MAX) by (nonlinear_arith)
                    requires
                        content <= u32::MAX,
                        tuplet.q <= u32::MAX,
                ;
            }
            let scaled: u64 = (content as u64) * (tuplet.q as u64) / (tuplet.p as u64);
            if scaled > u32::MAX as u64 {
                return Err(LoweringError::ArithmeticOverflow);
            }
            Ok(scaled as u32)
        },
        Event::Dynamic(s) => Ok(0),
        Event::Tie => Ok(0),
    }
}

/// Total nominal tick length of the events of a list from index `i` on.
pub fn calculate_events_total_duration(list: &Vec<Event>, i: usize, ppq: u32) -> (r: Result<
    u32,
    LoweringError,
>)
    requires
        i <= list@.len(),
        ppq <= u32::MAX / 8,
    ensures
        (match spec_events_total_duration(events_deep_view(list@.skip(i as int)), ppq as int) {
            Ok(t) => r == Ok::<u32, LoweringError>(t as u32) && 0 <= t <= u32::MAX,
            Err(e) => r == Err::<u32, LoweringError>(e),
        }),
    decreases *list, list@.len() - i, 1int,
{
    proof {
        lemma_events_deep_view(list@.skip(i as int));
    }
    if i == list.len() {
        Ok(0)
    } else {
        proof {
            assert(events_deep_view(list@.skip(i as int))[0] == event_deep_view(list@[i as int]));
            assert(events_deep_view(list@.skip(i as int)).drop_first() =~= events_deep_view(
                list@.skip(i as int).drop_first(),
            )) by {
                lemma_events_deep_view(list@.skip(i as int).drop_first());
            }
            assert(list@.skip(i as int).drop_first() =~= list@.skip(i as int + 1));
        }
        let d = calculate_event_duration(&list[i], ppq)?;
        let rest = calculate_events_total_duration(list, i + 1, ppq)?;
        if d > u32::MAX - rest {
            return Err(LoweringError::ArithmeticOverflow);
        }
        Ok(d + rest)
    }
}

/// Total nominal tick length of a measure's events, for the
/// measure-length diagnostic: callers compare it with the tick length
/// the active time signature prescribes.
pub fn calculate_measure_duration(measure: &Measure, ppq: u32) -> (r: Result<u32, LoweringError>)
    requires
        ppq <= u32::MAX / 8,
    ensures
        (match spec_events_total_duration(measure.deep_view().events, ppq as int) {
            Ok(t) => r == Ok::<u32, LoweringError>(t as u32) && 0 <= t <= u32::MAX,
            Err(e) => r == Err::<u32, LoweringError>(e),
        }),
{
    proof {
        assert(measure.events@.skip(0) =~= measure.events@);
    }
    calculate_events_total_duration(&measure.events, 0, ppq)
}

} // verus!

verus! {

/// The un-dotted base durations resolve to the fixed table at the
/// 480-tick resolution: whole 1920, half 960, quarter 480, eighth 240,
/// sixteenth 120.
pub proof fn lemma_base_duration_table(unit: BaseDuration)
    ensures
        spec_duration_ticks(Some(Duration::Base(unit, 0)), 480) == Ok::<int, LoweringError>(
            match unit {
                BaseDuration::Whole => 1920int,
                BaseDuration::Half => 960int,
                BaseDuration::Quarter => 480int,
                BaseDuration::Eighth => 240int,
                BaseDuration::Sixteenth => 120int,
            },
        ),
{
}

/// Dots add the classic fractions at the 480-tick resolution: one dot
/// adds half the base value, a second dot a further quarter.
pub proof fn lemma_dotted_duration(unit: BaseDuration)
    ensures
        spec_duration_ticks(Some(Duration::Base(unit, 1)), 480)->Ok_0 == spec_base_ticks(unit, 480)
            + spec_base_ticks(unit, 480) / 2,
        spec_duration_ticks(Some(Duration::Base(unit, 2)), 480)->Ok_0 == spec_base_ticks(unit, 480)
            + spec_base_ticks(unit, 480) / 2 + spec_base_ticks(unit, 480) / 4,
{
    let base = spec_base_ticks(unit, 480);
    assert(spec_dots(base, base / 2, 1) == base + base / 2) by {
        reveal_with_fuel(spec_dots, 3);
    }
    assert(spec_dots(base, base / 2, 2) == base + base / 2 + (base / 2) / 2) by {
        reveal_with_fuel(spec_dots, 4);
    }
    assert((base / 2) / 2 == base / 4) by {
        assert(base == 1920 || base == 960 || base == 480 || base == 240 || base == 120);
    }
}

/// A swing pair always sums to exactly twice the nominal duration, for
/// every ratio strictly between 0 and 1: no drift accumulates.
pub proof fn lemma_swing_pair_sum(d: int, r: Ratio)
    requires
        0 <= d,
        r.valid(),
    ensures
        ({
            let d1 = spec_swing_long(d, r);
            let d2 = 2 * d - d1;
            d1 + d2 == 2 * d && 0 <= d1 <= 2 * d && 0 <= d2 <= 2 * d
        }),
{
    lemma_swing_long_bound(d, r);
}

/// For a ratio above one half, when the nominal duration is large
/// enough for the rounding to show it, the first of a swing pair is
/// strictly longer than nominal and the second strictly shorter.
pub proof fn lemma_swing_pair_uneven(d: int, r: Ratio)
    requires
        0 <= d,
        r.valid(),
        2 * r.num > r.den,
        2 * d * (2 * r.num - r.den) >= r.den,
    ensures
        spec_swing_long(d, r) > d,
        2 * d - spec_swing_long(d, r) < d,
{
    let n = r.num as int;
    let den = r.den as int;
    assert(4 * d * n + den >= (2 * den) * (d + 1)) by (nonlinear_arith)
        requires
            2 * d * (2 * n - den) >= den,
            den >= 1,
            d >= 0,
    ;
    assert((2 * den) * (d + 1) / (2 * den) == d + 1) by (nonlinear_arith)
        requires
            den >= 1,
    ;
    vstd::arithmetic::div_mod::lemma_div_is_ordered((2 * den) * (d + 1), 4 * d * n + den, 2 * den);
}

/// Every note of a chord shares the chord's single start time,
/// velocity and duration.
pub proof fn lemma_chord_shared_timing(pitches: Seq<Pitch>, time: u32, vel: u8, dur: u32)
    ensures
        (match spec_chord_events(pitches, time, vel, dur) {
            Ok(evs) => evs.len() == pitches.len() && forall|i: int|
                0 <= i < evs.len() ==> (#[trigger] evs[i]).time == time && (evs[i].kind matches
                IrEventKindView::Note { pitch: p, velocity: v, duration: du } && v == vel && du
                == dur),
            Err(e) => true,
        }),
    decreases pitches.len(),
{
    if pitches.len() > 0 {
        lemma_chord_shared_timing(pitches.drop_first(), time, vel, dur);
    }
}

/// Two declared blocks of one part name produce a single track: the
/// first opens it on channel 0 and the second is lowered starting at
/// the tick where the first ended, its events appended to the same
/// track.
pub proof fn lemma_same_name_parts_merge(s: crate::ast::ScoreView, ppq: int)
    requires
        s.parts.len() == 2,
        s.parts[0].name == s.parts[1].name,
    ensures
        (match spec_walk(s, ppq) {
            Ok(ir) => ({
                let gts = spec_global_ts(s.headers);
                let gsw = spec_global_swing(s.headers);
                match spec_walk_part(s.parts[0], 0, 0, gts, gsw, ppq) {
                    Ok(res1) => match spec_walk_part(s.parts[1], 0, res1.1, gts, gsw, ppq) {
                        Ok(res2) => ir.tracks.len() == 2 && ir.tracks[1] == (IrTrackView {
                            name: res1.0.name,
                            channel: 0,
                            events: res1.0.events + res2.0.events,
                        }),
                        Err(e) => false,
                    },
                    Err(e) => false,
                }
            }),
            Err(e) => true,
        }),
{
    let gts = spec_global_ts(s.headers);
    let gsw = spec_global_swing(s.headers);
    reveal_with_fuel(spec_walk_parts, 4);
    reveal_with_fuel(spec_find_track, 3);
    if spec_walk(s, ppq) is Ok {
        match spec_walk_part(s.parts[0], 0, 0, gts, gsw, ppq) {
            Ok(res1) => {
                let t1 = res1.0;
                let tracks1 = Seq::<IrTrackView>::empty().push(t1);
                let ends1 = Seq::<u32>::empty().push(res1.1);
                assert(s.parts.drop_first().len() == 1);
                assert(s.parts.drop_first()[0] == s.parts[1]);
                assert(spec_find_track(tracks1, s.parts[1].name) == 0) by {
                    assert(tracks1[0].name == s.parts[1].name);
                }
                assert(ends1[0] == res1.1);
                match spec_walk_part(s.parts[1], 0, res1.1, gts, gsw, ppq) {
                    Ok(res2) => {
                        let merged = IrTrackView {
                            name: t1.name,
                            channel: t1.channel,
                            events: t1.events + res2.0.events,
                        };
                        assert(s.parts.drop_first().drop_first() =~= Seq::<
                            crate::ast::PartView,
                        >::empty());
                        assert(tracks1.update(0, merged) =~= seq![merged]);
                        assert(spec_walk_parts(
                            s.parts,
                            Seq::empty(),
                            Seq::empty(),
                            0,
                            gts,
                            gsw,
                            ppq,
                        ) == Ok::<Seq<IrTrackView>, LoweringError>(seq![merged]));
                        let ir = spec_walk(s, ppq)->Ok_0;
                        assert(ir.tracks[1] == merged);
                    },
                    Err(e) => {
                        assert(spec_walk(s, ppq) is Err);
                    },
                }
            },
            Err(e) => {
                assert(spec_walk(s, ppq) is Err);
            },
        }
    }
}

} // verus!

verus! {

/// No two tracks carry the same name.
pub open spec fn spec_track_names_distinct(tracks: Seq<IrTrackView>) -> bool {
    forall|a: int, b: int| 0 <= a < b < tracks.len() ==> tracks[a].name != tracks[b].name
}

/// Finding a track returns -1 exactly when no track has the name, and
/// otherwise a valid index that has it.
proof fn lemma_find_track_spec(tracks: Seq<IrTrackView>, name: Seq<char>)
    ensures
        (spec_find_track(tracks, name) == -1) <==> (forall|a: int|
            0 <= a < tracks.len() ==> (#[trigger] tracks[a]).name != name),
        spec_find_track(tracks, name) >= 0 ==> spec_find_track(tracks, name) < tracks.len()
            && tracks[spec_find_track(tracks, name)].name == name,
        spec_find_track(tracks, name) >= -1,
    decreases tracks.len(),
{
    if tracks.len() > 0 && tracks[0].name != name {
        lemma_find_track_spec(tracks.drop_first(), name);
        let f2 = spec_find_track(tracks.drop_first(), name);
        if f2 == -1 {
            assert forall|a: int| 0 <= a < tracks.len() implies (#[trigger] tracks[a]).name
                != name by {
                if a > 0 {
                    assert(tracks.drop_first()[a - 1] == tracks[a]);
                }
            }
        } else {
            assert(tracks.drop_first()[f2] == tracks[f2 + 1]);
        }
    }
}

/// Processing parts never introduces two tracks of one name: a later
/// block of a seen name merges into its existing track, so each name
/// keeps exactly one track.
pub proof fn lemma_walk_parts_distinct(
    parts: Seq<PartView>,
    tracks: Seq<IrTrackView>,
    ends: Seq<u32>,
    next_channel: u8,
    global_ts: (u32, u32),
    global_swing: Option<(BaseDuration, Ratio)>,
    ppq: int,
)
    requires
        spec_track_names_distinct(tracks),
        tracks.len() == ends.len(),
    ensures
        (match spec_walk_parts(parts, tracks, ends, next_channel, global_ts, global_swing, ppq) {
            Ok(ts) => spec_track_names_distinct(ts),
            Err(e) => true,
        }),
    decreases parts.len(),
{
    if parts.len() > 0 {
        let p = parts[0];
        let j = spec_find_track(tracks, p.name);
        lemma_find_track_spec(tracks, p.name);
        if 0 <= j < tracks.len() && j < ends.len() {
            match spec_walk_part(p, tracks[j].channel, ends[j], global_ts, global_swing, ppq) {
                Ok(res) => {
                    let merged = IrTrackView {
                        name: tracks[j].name,
                        channel: tracks[j].channel,
                        events: tracks[j].events + res.0.events,
                    };
                    let updated = tracks.update(j, merged);
                    assert forall|a: int, b: int| 0 <= a < b < updated.len() implies updated[a].name
                        != updated[b].name by {
                        assert(updated[a].name == tracks[a].name);
                        assert(updated[b].name == tracks[b].name);
                    }
                    lemma_walk_parts_distinct(
                        parts.drop_first(),
                        updated,
                        ends.update(j, res.1),
                        next_channel,
                        global_ts,
                        global_swing,
                        ppq,
                    );
                },
                Err(e) => {},
            }
        } else {
            match spec_walk_part(p, next_channel, 0, global_ts, global_swing, ppq) {
                Ok(res) => {
                    let pushed = tracks.push(res.0);
                    assert(res.0.name == p.name);
                    assert forall|a: int, b: int| 0 <= a < b < pushed.len() implies pushed[a].name
                        != pushed[b].name by {
                        assert(pushed[a] == tracks[a]);
                        if b < tracks.len() {
                            assert(pushed[b] == tracks[b]);
                        } else {
                            assert(pushed[b] == res.0);
                        }
                    }
                    lemma_walk_parts_distinct(
                        parts.drop_first(),
                        pushed,
                        ends.push(res.1),
                        (if next_channel >= 15 {
                            0u8
                        } else {
                            (next_channel + 1) as u8
                        }),
                        global_ts,
                        global_swing,
                        ppq,
                    );
                },
                Err(e) => {},
            }
        }
    }
}

/// However many blocks share one part name, the lowered score holds
/// exactly one track for that name: among the tracks after the
/// conductor, no name repeats.
pub proof fn lemma_walk_one_track_per_name(s: crate::ast::ScoreView, ppq: int)
    ensures
        (match spec_walk(s, ppq) {
            Ok(ir) => spec_track_names_distinct(ir.tracks.drop_first()),
            Err(e) => true,
        }),
{
    if spec_walk(s, ppq) is Ok {
        lemma_walk_parts_distinct(
            s.parts,
            Seq::empty(),
            Seq::empty(),
            0,
            spec_global_ts(s.headers),
            spec_global_swing(s.headers),
            ppq,
        );
        let parts_tracks = spec_walk_parts(
            s.parts,
            Seq::empty(),
            Seq::empty(),
            0,
            spec_global_ts(s.headers),
            spec_global_swing(s.headers),
            ppq,
        )->Ok_0;
        let ir = spec_walk(s, ppq)->Ok_0;
        assert(ir.tracks.drop_first() =~= parts_tracks);
    }
}

} // verus!

verus! {

/// A track that opens with its program change and one time signature,
/// both at the given start tick.
pub open spec fn spec_track_begins_pc_ts(t: IrTrackView, start: u32) -> bool {
    t.events.len() >= 2 && t.events[0].time == start && (t.events[0].kind is ProgramChange)
        && t.events[1].time == start && (t.events[1].kind is TimeSignature)
}

/// Processing parts preserves the opening shape of every track: a
/// merge appends after the existing opening, and a fresh track gets
/// its own.
pub proof fn lemma_walk_parts_shape(
    parts: Seq<PartView>,
    tracks: Seq<IrTrackView>,
    ends: Seq<u32>,
    next_channel: u8,
    global_ts: (u32, u32),
    global_swing: Option<(BaseDuration, Ratio)>,
    ppq: int,
)
    requires
        forall|k: int|
            0 <= k < tracks.len() ==> spec_track_begins_pc_ts(#[trigger] tracks[k], 0),
    ensures
        (match spec_walk_parts(parts, tracks, ends, next_channel, global_ts, global_swing, ppq) {
            Ok(ts) => forall|k: int|
                0 <= k < ts.len() ==> spec_track_begins_pc_ts(#[trigger] ts[k], 0),
            Err(e) => true,
        }),
    decreases parts.len(),
{
    if parts.len() > 0 {
        let p = parts[0];
        let j = spec_find_track(tracks, p.name);
        if 0 <= j < tracks.len() && j < ends.len() {
            match spec_walk_part(p, tracks[j].channel, ends[j], global_ts, global_swing, ppq) {
                Ok(res) => {
                    let merged = IrTrackView {
                        name: tracks[j].name,
                        channel: tracks[j].channel,
                        events: tracks[j].events + res.0.events,
                    };
                    assert(merged.events[0] == tracks[j].events[0]);
                    assert(merged.events[1] == tracks[j].events[1]);
                    let updated = tracks.update(j, merged);
                    assert forall|k: int| 0 <= k < updated.len() implies spec_track_begins_pc_ts(
                        #[trigger] updated[k],
                        0,
                    ) by {
                        if k != j {
                            assert(updated[k] == tracks[k]);
                        }
                    }
                    lemma_walk_parts_shape(
                        parts.drop_first(),
                        updated,
                        ends.update(j, res.1),
                        next_channel,
                        global_ts,
                        global_swing,
                        ppq,
                    );
                },
                Err(e) => {},
            }
        } else {
            match spec_walk_part(p, next_channel, 0, global_ts, global_swing, ppq) {
                Ok(res) => {
                    lemma_walk_part_track_shape(p, next_channel, 0, global_ts, global_swing, ppq);
                    let pushed = tracks.push(res.0);
                    assert forall|k: int| 0 <= k < pushed.len() implies spec_track_begins_pc_ts(
                        #[trigger] pushed[k],
                        0,
                    ) by {
                        if k < tracks.len() {
                            assert(pushed[k] == tracks[k]);
                        } else {
                            assert(pushed[k] == res.0);
                        }
                    }
                    lemma_walk_parts_shape(
                        parts.drop_first(),
                        pushed,
                        ends.push(res.1),
                        (if next_channel >= 15 {
                            0u8
                        } else {
                            (next_channel + 1) as u8
                        }),
                        global_ts,
                        global_swing,
                        ppq,
                    );
                },
                Err(e) => {},
            }
        }
    }
}

/// In every lowered score, each track after the conductor begins with
/// exactly its program change and one time signature at tick 0,
/// however many blocks were merged into it.
pub proof fn lemma_walk_tracks_begin_pc_ts(s: crate::ast::ScoreView, ppq: int)
    ensures
        (match spec_walk(s, ppq) {
            Ok(ir) => forall|k: int|
                1 <= k < ir.tracks.len() ==> spec_track_begins_pc_ts(#[trigger] ir.tracks[k], 0),
            Err(e) => true,
        }),
{
    if spec_walk(s, ppq) is Ok {
        lemma_walk_parts_shape(
            s.parts,
            Seq::empty(),
            Seq::empty(),
            0,
            spec_global_ts(s.headers),
            spec_global_swing(s.headers),
            ppq,
        );
        let parts_tracks = spec_walk_parts(
            s.parts,
            Seq::empty(),
            Seq::empty(),
            0,
            spec_global_ts(s.headers),
            spec_global_swing(s.headers),
            ppq,
        )->Ok_0;
        let ir = spec_walk(s, ppq)->Ok_0;
        assert forall|k: int| 1 <= k < ir.tracks.len() implies spec_track_begins_pc_ts(
            #[trigger] ir.tracks[k],
            0,
        ) by {
            assert(ir.tracks[k] == parts_tracks[k - 1]);
        }
    }
}

} // verus!
