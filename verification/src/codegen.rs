//! The binary codec: turns the intermediate representation into the
//! delta-time event lists of a Standard MIDI File. Every note becomes a
//! note-on and a note-off, meta events carry tempo and time signature,
//! events are stably sorted by absolute tick and then converted to
//! successive deltas, and every track ends with an end-of-track event.

use vstd::prelude::*;
use crate::ir::{IrEventKindView, IrEventView, IrScore, IrScoreView, IrTrackView};

verus! {

/// An encode failure: a value that does not fit its field in the file
/// format. A well-formed representation coming out of lowering never
/// triggers one.
#[derive(Debug, PartialEq, Eq, Structural, Clone, Copy)]
pub enum EncodeError {
    ValueOutOfRange,
    TimeOverflow,
}

impl EncodeError {
    /// A short description of the error.
    pub fn message(&self) -> &'static str {
        match self {
            EncodeError::ValueOutOfRange => "value out of range for the file format",
            EncodeError::TimeOverflow => "tick arithmetic overflow while encoding",
        }
    }
}

/// One track event with the ticks elapsed since the previous event.
#[derive(Debug, PartialEq, Eq, Clone, Copy)]
pub struct MidiEvent {
    pub delta: u32,
    pub kind: MidiEventKind,
}

/// The channel and meta messages the codec emits.
#[derive(Debug, PartialEq, Eq, Clone, Copy)]
pub enum MidiEventKind {
    NoteOn { channel: u8, key: u8, vel: u8 },
    NoteOff { channel: u8, key: u8 },
    ProgramChange { channel: u8, program: u8 },
    Tempo { microseconds_per_quarter: u32 },
    TimeSignature { numerator: u8, denominator_pow2: u8, clocks_per_click: u8, thirty_seconds_per_quarter: u8 },
    EndOfTrack,
}

/// An in-memory Standard MIDI File: multi-track format with a metrical
/// division of `ppq` ticks per quarter note.
#[derive(Debug, PartialEq, Clone)]
pub struct MidiFile {
    pub ppq: u16,
    pub tracks: Vec<Vec<MidiEvent>>,
}

/// The spec-level image of a file: tracks as sequences.
pub struct MidiFileView {
    pub ppq: u16,
    pub tracks: Seq<Seq<MidiEvent>>,
}

impl DeepView for MidiEvent {
    type V = MidiEvent;

    open spec fn deep_view(&self) -> MidiEvent {
        *self
    }
}

impl DeepView for MidiFile {
    type V = MidiFileView;

    open spec fn deep_view(&self) -> MidiFileView {
        MidiFileView { ppq: self.ppq, tracks: self.tracks.deep_view() }
    }
}

/// One expanded event at an absolute tick, before delta conversion.
#[derive(Debug, PartialEq, Eq, Clone, Copy)]
pub struct AbsEvent {
    pub time: u32,
    pub kind: MidiEventKind,
}

/// The largest power of two at most `n`, as an exponent.
pub open spec fn spec_floor_log2(n: int) -> int
    decreases n,
{
    if n < 2 {
        0
    } else {
        1 + spec_floor_log2(n / 2)
    }
}

/// Expands one representation event into absolute-time messages: a note
/// becomes a note-on and a note-off at its end; tempo carries
/// `60_000_000 / bpm` microseconds per quarter; a time signature
/// carries the two's logarithm of its denominator with 24 clocks per
/// click and 8 thirty-seconds per quarter; a key signature has no
/// channel encoding here and is dropped.
pub open spec fn spec_expand_event(e: IrEventView, channel: u8) -> Result<
    Seq<AbsEvent>,
    EncodeError,
> {
    match e.kind {
        IrEventKindView::Note { pitch, velocity, duration } => {
            if pitch > 127 || velocity > 127 {
                Err(EncodeError::ValueOutOfRange)
            } else if e.time + duration > u32::MAX {
                Err(EncodeError::TimeOverflow)
            } else {
                Ok(
                    seq![
                        AbsEvent {
                            time: e.time,
                            kind: MidiEventKind::NoteOn { channel, key: pitch, vel: velocity },
                        },
                        AbsEvent {
                            time: (e.time + duration) as u32,
                            kind: MidiEventKind::NoteOff { channel, key: pitch },
                        },
                    ],
                )
            }
        },
        IrEventKindView::Tempo(bpm) => {
            if bpm == 0 {
                Err(EncodeError::ValueOutOfRange)
            } else if 60_000_000 as int / bpm as int > 0xFFFFFF {
                Err(EncodeError::ValueOutOfRange)
            } else {
                Ok(
                    seq![
                        AbsEvent {
                            time: e.time,
                            kind: MidiEventKind::Tempo {
                                microseconds_per_quarter: (60_000_000 as int / bpm as int) as u32,
                            },
                        },
                    ],
                )
            }
        },
        IrEventKindView::ProgramChange(program) => {
            if program > 127 {
                Err(EncodeError::ValueOutOfRange)
            } else {
                Ok(
                    seq![
                        AbsEvent {
                            time: e.time,
                            kind: MidiEventKind::ProgramChange { channel, program },
                        },
                    ],
                )
            }
        },
        IrEventKindView::TimeSignature(num, den) => {
            if num > 255 || den == 0 {
                Err(EncodeError::ValueOutOfRange)
            } else {
                Ok(
                    seq![
                        AbsEvent {
                            time: e.time,
                            kind: MidiEventKind::TimeSignature {
                                numerator: num as u8,
                                denominator_pow2: spec_floor_log2(den as int) as u8,
                                clocks_per_click: 24,
                                thirty_seconds_per_quarter: 8,
                            },
                        },
                    ],
                )
            }
        },
        IrEventKindView::KeySignature { root, scale } => Ok(Seq::empty()),
    }
}

/// Expands a track's events in order.
pub open spec fn spec_expand_events(events: Seq<IrEventView>, channel: u8) -> Result<
    Seq<AbsEvent>,
    EncodeError,
>
    decreases events.len(),
{
    if events.len() == 0 {
        Ok(Seq::empty())
    } else {
        match spec_expand_event(events[0], channel) {
            Err(e) => Err(e),
            Ok(first) => match spec_expand_events(events.drop_first(), channel) {
                Err(e) => Err(e),
                Ok(rest) => Ok(first + rest),
            },
        }
    }
}

/// Inserts an event after every event at or before its tick: the
/// insertion step of a stable sort.
pub open spec fn spec_insert_by_time(sorted: Seq<AbsEvent>, e: AbsEvent) -> Seq<AbsEvent>
    decreases sorted.len(),
{
    if sorted.len() == 0 {
        seq![e]
    } else if sorted[0].time <= e.time {
        seq![sorted[0]] + spec_insert_by_time(sorted.drop_first(), e)
    } else {
        seq![e] + sorted
    }
}

/// Stable insertion sort by absolute tick.
pub open spec fn spec_sort_by_time(s: Seq<AbsEvent>) -> Seq<AbsEvent>
    decreases s.len(),
{
    if s.len() == 0 {
        s
    } else {
        spec_insert_by_time(spec_sort_by_time(s.drop_last()), s.last())
    }
}

/// Whether a sequence is ordered by absolute tick.
pub open spec fn spec_time_sorted(s: Seq<AbsEvent>) -> bool {
    forall|i: int, j: int| 0 <= i < j < s.len() ==> s[i].time <= s[j].time
}

/// Insertion keeps the order.
pub proof fn lemma_insert_sorted(sorted: Seq<AbsEvent>, e: AbsEvent)
    requires
        spec_time_sorted(sorted),
    ensures
        spec_time_sorted(spec_insert_by_time(sorted, e)),
        spec_insert_by_time(sorted, e).len() == sorted.len() + 1,
        spec_insert_by_time(sorted, e)[0].time == (if sorted.len() > 0 && sorted[0].time
            <= e.time {
            sorted[0].time
        } else {
            e.time
        }),
    decreases sorted.len(),
{
    let r = spec_insert_by_time(sorted, e);
    if sorted.len() == 0 {
    } else if sorted[0].time <= e.time {
        assert(spec_time_sorted(sorted.drop_first())) by {
            assert forall|i: int, j: int|
                0 <= i < j < sorted.drop_first().len() implies sorted.drop_first()[i].time
                <= sorted.drop_first()[j].time by {
                assert(sorted.drop_first()[i] == sorted[i + 1]);
                assert(sorted.drop_first()[j] == sorted[j + 1]);
            }
        }
        lemma_insert_sorted(sorted.drop_first(), e);
        let ins = spec_insert_by_time(sorted.drop_first(), e);
        assert(sorted[0].time <= ins[0].time);
        assert forall|i: int, j: int| 0 <= i < j < r.len() implies r[i].time <= r[j].time by {
            if i == 0 {
                assert(r[j] == ins[j - 1]);
                if j - 1 > 0 {
                    assert(ins[0].time <= ins[j - 1].time);
                }
            } else {
                assert(r[i] == ins[i - 1]);
                assert(r[j] == ins[j - 1]);
            }
        }
    } else {
        assert forall|i: int, j: int| 0 <= i < j < r.len() implies r[i].time <= r[j].time by {
            if i == 0 {
                assert(r[j] == sorted[j - 1]);
                if j - 1 > 0 {
                    assert(sorted[0].time <= sorted[j - 1].time);
                }
            } else {
                assert(r[i] == sorted[i - 1]);
                assert(r[j] == sorted[j - 1]);
            }
        }
    }
}

/// The sorted sequence is ordered by tick.
pub proof fn lemma_sort_sorted(s: Seq<AbsEvent>)
    ensures
        spec_time_sorted(spec_sort_by_time(s)),
        spec_sort_by_time(s).len() == s.len(),
    decreases s.len(),
{
    if s.len() > 0 {
        lemma_sort_sorted(s.drop_last());
        lemma_insert_sorted(spec_sort_by_time(s.drop_last()), s.last());
    }
}

/// Converts ordered absolute-time events into successive deltas:
/// each event carries the ticks since the previous one, the first
/// since tick zero. A step back in time or a delta beyond the
/// variable-length range is an error.
pub open spec fn spec_deltas(s: Seq<AbsEvent>, last: u32) -> Result<Seq<MidiEvent>, EncodeError>
    decreases s.len(),
{
    if s.len() == 0 {
        Ok(Seq::empty())
    } else if s[0].time < last {
        Err(EncodeError::TimeOverflow)
    } else if s[0].time - last > 0x0FFFFFFF {
        Err(EncodeError::ValueOutOfRange)
    } else {
        match spec_deltas(s.drop_first(), s[0].time) {
            Err(e) => Err(e),
            Ok(rest) => Ok(
                seq![MidiEvent { delta: (s[0].time - last) as u32, kind: s[0].kind }] + rest,
            ),
        }
    }
}

/// Encodes one track: expand, sort stably by tick, convert to deltas,
/// and terminate with an end-of-track event.
pub open spec fn spec_encode_track(t: IrTrackView) -> Result<Seq<MidiEvent>, EncodeError> {
    if t.channel > 15 {
        Err(EncodeError::ValueOutOfRange)
    } else {
        match spec_expand_events(t.events, t.channel) {
            Err(e) => Err(e),
            Ok(abs) => match spec_deltas(spec_sort_by_time(abs), 0) {
                Err(e) => Err(e),
                Ok(deltas) => Ok(
                    deltas.push(MidiEvent { delta: 0, kind: MidiEventKind::EndOfTrack }),
                ),
            },
        }
    }
}

/// Encodes the tracks in order.
pub open spec fn spec_encode_tracks(tracks: Seq<IrTrackView>) -> Result<
    Seq<Seq<MidiEvent>>,
    EncodeError,
>
    decreases tracks.len(),
{
    if tracks.len() == 0 {
        Ok(Seq::empty())
    } else {
        match spec_encode_track(tracks[0]) {
            Err(e) => Err(e),
            Ok(first) => match spec_encode_tracks(tracks.drop_first()) {
                Err(e) => Err(e),
                Ok(rest) => Ok(seq![first] + rest),
            },
        }
    }
}

/// Encodes a whole score; see `generate`.
pub open spec fn spec_generate(ir: IrScoreView) -> Result<MidiFileView, EncodeError> {
    if ir.ppq > 32767 {
        Err(EncodeError::ValueOutOfRange)
    } else {
        match spec_encode_tracks(ir.tracks) {
            Err(e) => Err(e),
            Ok(tracks) => Ok(MidiFileView { ppq: ir.ppq as u16, tracks }),
        }
    }
}

} // verus!

use crate::ir::{IrEvent, IrTrack};

verus! {

/// The exponent of the largest power of two at most `n`.
fn floor_log2(n: u32) -> (r: u8)
    ensures
        r as int == spec_floor_log2(n as int),
        r <= 31,
    decreases n,
{
    if n < 2 {
        0
    } else {
        let rest = floor_log2(n / 2);
        proof {
            vstd::arithmetic::power2::lemma2_to64();
            lemma_floor_log2_bound(n as int / 2, 31);
        }
        1 + rest
    }
}

/// The exponent is bounded by the bit width.
proof fn lemma_floor_log2_bound(n: int, k: nat)
    requires
        k >= 1,
        0 <= n < vstd::arithmetic::power2::pow2(k),
    ensures
        spec_floor_log2(n) <= k - 1,
    decreases k,
{
    if n >= 2 {
        vstd::arithmetic::power2::lemma2_to64();
        assert(vstd::arithmetic::power2::pow2(k) == 2 * vstd::arithmetic::power2::pow2(
            (k - 1) as nat,
        )) by {
            vstd::arithmetic::power2::lemma_pow2_unfold(k);
        }
        lemma_floor_log2_bound(n / 2, (k - 1) as nat);
    }
}

/// Expands the events of one track into absolute-time messages.
fn expand_events(
    events: &Vec<IrEvent>,
    i: usize,
    channel: u8,
    out: &mut Vec<AbsEvent>,
) -> (r: Result<(), EncodeError>)
    requires
        i <= events@.len(),
    ensures
        (match spec_expand_events(events.deep_view().skip(i as int), channel) {
            Ok(abs) => r is Ok && final(out)@ == old(out)@ + abs,
            Err(e) => r == Err::<(), EncodeError>(e),
        }),
    decreases events@.len() - i,
{
    if i == events.len() {
        proof {
            assert(final(out)@ =~= old(out)@ + Seq::<AbsEvent>::empty());
        }
        return Ok(());
    }
    proof {
        assert(events.deep_view().skip(i as int)[0] == events@[i as int].deep_view());
        assert(events.deep_view().skip(i as int).drop_first() =~= events.deep_view().skip(
            i as int + 1,
        ));
    }
    let ghost before = out@;
    let ev = &events[i];
    match &ev.kind {
        crate::ir::IrEventKind::Note { pitch, velocity, duration } => {
            if *pitch > 127 || *velocity > 127 {
                return Err(EncodeError::ValueOutOfRange);
            }
            if ev.time > u32::MAX - *duration {
                return Err(EncodeError::TimeOverflow);
            }
            out.push(
                AbsEvent {
                    time: ev.time,
                    kind: MidiEventKind::NoteOn { channel, key: *pitch, vel: *velocity },
                },
            );
            out.push(
                AbsEvent {
                    time: ev.time + *duration,
                    kind: MidiEventKind::NoteOff { channel, key: *pitch },
                },
            );
        },
        crate::ir::IrEventKind::Tempo(bpm) => {
            if *bpm == 0 {
                return Err(EncodeError::ValueOutOfRange);
            }
            let mpq: u32 = 60_000_000 / *bpm;
            if mpq > 0xFFFFFF {
                return Err(EncodeError::ValueOutOfRange);
            }
            out.push(
                AbsEvent {
                    time: ev.time,
                    kind: MidiEventKind::Tempo { microseconds_per_quarter: mpq },
                },
            );
        },
        crate::ir::IrEventKind::ProgramChange(program) => {
            if *program > 127 {
                return Err(EncodeError::ValueOutOfRange);
            }
            out.push(
                AbsEvent {
                    time: ev.time,
                    kind: MidiEventKind::ProgramChange { channel, program: *program },
                },
            );
        },
        crate::ir::IrEventKind::TimeSignature(num, den) => {
            if *num > 255 || *den == 0 {
                return Err(EncodeError::ValueOutOfRange);
            }
            let dd = floor_log2(*den);
            out.push(
                AbsEvent {
                    time: ev.time,
                    kind: MidiEventKind::TimeSignature {
                        numerator: *num as u8,
                        denominator_pow2: dd,
                        clocks_per_click: 24,
                        thirty_seconds_per_quarter: 8,
                    },
                },
            );
        },
        crate::ir::IrEventKind::KeySignature { root, scale } => {},
    }
    proof {
        assert(out@ =~= before + spec_expand_event(
            events@[i as int].deep_view(),
            channel,
        )->Ok_0);
    }
    let r = expand_events(events, i + 1, channel, out);
    proof {
        if r is Ok {
            let full = spec_expand_events(events.deep_view().skip(i as int), channel);
            assert(final(out)@ =~= old(out)@ + full->Ok_0);
        }
    }
    r
}

/// Inserts an event after every event at or before its tick.
fn insert_by_time(sorted: Vec<AbsEvent>, e: AbsEvent) -> (r: Vec<AbsEvent>)
    ensures
        r@ == spec_insert_by_time(sorted@, e),
    decreases sorted@.len(),
{
    let mut sorted = sorted;
    if sorted.len() == 0 {
        sorted.push(e);
        proof {
            assert(sorted@ =~= seq![e]);
        }
        sorted
    } else if sorted[0].time <= e.time {
        let ghost whole = sorted@;
        let first = sorted.remove(0);
        proof {
            assert(sorted@ =~= whole.drop_first());
        }
        let mut rest = insert_by_time(sorted, e);
        rest.insert(0, first);
        proof {
            assert(rest@ =~= seq![whole[0]] + spec_insert_by_time(whole.drop_first(), e));
        }
        rest
    } else {
        let ghost before = sorted@;
        sorted.insert(0, e);
        proof {
            assert(sorted@ =~= seq![e] + before);
        }
        sorted
    }
}

/// Stable insertion sort by absolute tick.
fn sort_by_time(v: Vec<AbsEvent>) -> (r: Vec<AbsEvent>)
    ensures
        r@ == spec_sort_by_time(v@),
    decreases v@.len(),
{
    let mut v = v;
    if v.len() == 0 {
        return v;
    }
    let ghost whole = v@;
    let last = match v.pop() {
        Some(e) => e,
        None => {
            return v;
        },
    };
    proof {
        assert(v@ =~= whole.drop_last());
    }
    let sorted = sort_by_time(v);
    insert_by_time(sorted, last)
}

/// Converts ordered absolute-time events to deltas, from index `i` on.
fn to_deltas(events: &Vec<AbsEvent>, i: usize, last: u32, out: &mut Vec<MidiEvent>) -> (r: Result<
    (),
    EncodeError,
>)
    requires
        i <= events@.len(),
    ensures
        (match spec_deltas(events@.skip(i as int), last) {
            Ok(ds) => r is Ok && final(out)@ == old(out)@ + ds,
            Err(e) => r == Err::<(), EncodeError>(e),
        }),
    decreases events@.len() - i,
{
    if i == events.len() {
        proof {
            assert(final(out)@ =~= old(out)@ + Seq::<MidiEvent>::empty());
        }
        return Ok(());
    }
    proof {
        assert(events@.skip(i as int)[0] == events@[i as int]);
        assert(events@.skip(i as int).drop_first() =~= events@.skip(i as int + 1));
    }
    let ev = &events[i];
    if ev.time < last {
        return Err(EncodeError::TimeOverflow);
    }
    let delta = ev.time - last;
    if delta > 0x0FFFFFFF {
        return Err(EncodeError::ValueOutOfRange);
    }
    let ghost before = out@;
    out.push(MidiEvent { delta, kind: ev.kind });
    proof {
        assert(out@ =~= before.push(MidiEvent { delta, kind: events@[i as int].kind }));
    }
    let r = to_deltas(events, i + 1, ev.time, out);
    proof {
        if r is Ok {
            let full = spec_deltas(events@.skip(i as int), last);
            assert(final(out)@ =~= old(out)@ + full->Ok_0);
        }
    }
    r
}

/// Encodes one track; see `spec_encode_track`.
fn encode_track(track: &IrTrack) -> (r: Result<Vec<MidiEvent>, EncodeError>)
    ensures
        (match spec_encode_track(track.deep_view()) {
            Ok(es) => r is Ok && r->Ok_0@ == es,
            Err(e) => r == Err::<Vec<MidiEvent>, EncodeError>(e),
        }),
{
    if track.channel > 15 {
        return Err(EncodeError::ValueOutOfRange);
    }
    let mut abs: Vec<AbsEvent> = Vec::new();
    proof {
        assert(track.events.deep_view().skip(0) =~= track.events.deep_view());
    }
    expand_events(&track.events, 0, track.channel, &mut abs)?;
    let sorted = sort_by_time(abs);
    let mut out: Vec<MidiEvent> = Vec::new();
    proof {
        assert(sorted@.skip(0) =~= sorted@);
    }
    to_deltas(&sorted, 0, 0, &mut out)?;
    out.push(MidiEvent { delta: 0, kind: MidiEventKind::EndOfTrack });
    proof {
        let full = spec_encode_track(track.deep_view());
        assert(out@ =~= full->Ok_0);
    }
    Ok(out)
}

/// Encodes the tracks from index `i` on.
fn encode_tracks(
    list: &Vec<IrTrack>,
    i: usize,
    out: &mut Vec<Vec<MidiEvent>>,
) -> (r: Result<(), EncodeError>)
    requires
        i <= list@.len(),
    ensures
        (match spec_encode_tracks(list.deep_view().skip(i as int)) {
            Ok(ts) => r is Ok && final(out).deep_view() == old(out).deep_view() + ts,
            Err(e) => r == Err::<(), EncodeError>(e),
        }),
    decreases list@.len() - i,
{
    if i == list.len() {
        proof {
            assert(final(out).deep_view() =~= old(out).deep_view() + Seq::<
                Seq<MidiEvent>,
            >::empty());
        }
        return Ok(());
    }
    proof {
        assert(list.deep_view().skip(i as int)[0] == list@[i as int].deep_view());
        assert(list.deep_view().skip(i as int).drop_first() =~= list.deep_view().skip(
            i as int + 1,
        ));
    }
    let es = encode_track(&list[i])?;
    let ghost before = out.deep_view();
    let ghost esv = es.deep_view();
    proof {
        assert(esv =~= es@);
    }
    out.push(es);
    proof {
        assert(out.deep_view() =~= before.push(esv));
    }
    let r = encode_tracks(list, i + 1, out);
    proof {
        if r is Ok {
            let full = spec_encode_tracks(list.deep_view().skip(i as int));
            assert(final(out).deep_view() =~= old(out).deep_view() + full->Ok_0);
        }
    }
    r
}

/// Encodes a whole score as an in-memory Standard MIDI File. The result
/// is exactly `spec_generate` of the representation: one delta-time
/// event list per track, each terminated by an end-of-track event, with
/// the file's metrical division equal to the representation's
/// resolution.
pub fn generate(score: &IrScore) -> (r: Result<MidiFile, EncodeError>)
    ensures
        (match spec_generate(score.deep_view()) {
            Ok(f) => r is Ok && r->Ok_0.deep_view() == f,
            Err(e) => r == Err::<MidiFile, EncodeError>(e),
        }),
{
    if score.ppq > 32767 {
        return Err(EncodeError::ValueOutOfRange);
    }
    let mut tracks: Vec<Vec<MidiEvent>> = Vec::new();
    proof {
        assert(score.tracks.deep_view().skip(0) =~= score.tracks.deep_view());
    }
    encode_tracks(&score.tracks, 0, &mut tracks)?;
    proof {
        assert(tracks.deep_view() =~= Seq::<Seq<MidiEvent>>::empty() + tracks.deep_view());
    }
    Ok(MidiFile { ppq: score.ppq as u16, tracks })
}

} // verus!

verus! {

/// Whether a message's fields fit the file format: 4-bit channels,
/// 7-bit keys, velocities and programs, a 24-bit tempo.
pub open spec fn spec_kind_in_range(k: MidiEventKind) -> bool {
    match k {
        MidiEventKind::NoteOn { channel, key, vel } => channel < 16 && key < 128 && vel < 128,
        MidiEventKind::NoteOff { channel, key } => channel < 16 && key < 128,
        MidiEventKind::ProgramChange { channel, program } => channel < 16 && program < 128,
        MidiEventKind::Tempo { microseconds_per_quarter } => microseconds_per_quarter < 0x1000000,
        MidiEventKind::TimeSignature { numerator, denominator_pow2, clocks_per_click, thirty_seconds_per_quarter } => true,
        MidiEventKind::EndOfTrack => true,
    }
}

/// Whether one track event fits the ranges the file format encodes
/// directly, its 28-bit delta included.
pub open spec fn spec_event_in_range(e: MidiEvent) -> bool {
    e.delta < 0x10000000 && spec_kind_in_range(e.kind)
}

/// Whether every event of a file model fits those ranges, with the
/// metrical division within its 15-bit field.
pub open spec fn spec_file_in_range(f: MidiFileView) -> bool {
    f.ppq < 0x8000 && forall|i: int, j: int|
        0 <= i < f.tracks.len() && 0 <= j < f.tracks[i].len() ==> spec_event_in_range(
            #[trigger] f.tracks[i][j],
        )
}

/// Expansion only emits messages within the format's ranges.
proof fn lemma_expand_events_kinds(events: Seq<IrEventView>, channel: u8)
    requires
        channel < 16,
    ensures
        (match spec_expand_events(events, channel) {
            Ok(abs) => forall|k: int|
                0 <= k < abs.len() ==> spec_kind_in_range((#[trigger] abs[k]).kind),
            Err(e) => true,
        }),
    decreases events.len(),
{
    if events.len() > 0 && spec_expand_events(events, channel) is Ok {
        lemma_expand_events_kinds(events.drop_first(), channel);
        let first = spec_expand_event(events[0], channel)->Ok_0;
        let rest = spec_expand_events(events.drop_first(), channel)->Ok_0;
        let abs = spec_expand_events(events, channel)->Ok_0;
        assert forall|k: int| 0 <= k < abs.len() implies spec_kind_in_range(
            (#[trigger] abs[k]).kind,
        ) by {
            if k < first.len() {
                assert(abs[k] == first[k]);
            } else {
                assert(abs[k] == rest[k - first.len()]);
            }
        }
    }
}

/// Insertion introduces no message outside the format's ranges.
proof fn lemma_insert_kinds(sorted: Seq<AbsEvent>, e: AbsEvent)
    requires
        forall|k: int| 0 <= k < sorted.len() ==> spec_kind_in_range((#[trigger] sorted[k]).kind),
        spec_kind_in_range(e.kind),
    ensures
        forall|k: int|
            0 <= k < spec_insert_by_time(sorted, e).len() ==> spec_kind_in_range(
                (#[trigger] spec_insert_by_time(sorted, e)[k]).kind,
            ),
    decreases sorted.len(),
{
    let r = spec_insert_by_time(sorted, e);
    if sorted.len() == 0 {
    } else if sorted[0].time <= e.time {
        assert forall|k: int| 0 <= k < sorted.drop_first().len() implies spec_kind_in_range(
            (#[trigger] sorted.drop_first()[k]).kind,
        ) by {
            assert(sorted.drop_first()[k] == sorted[k + 1]);
        }
        lemma_insert_kinds(sorted.drop_first(), e);
        let ins = spec_insert_by_time(sorted.drop_first(), e);
        assert forall|k: int| 0 <= k < r.len() implies spec_kind_in_range(
            (#[trigger] r[k]).kind,
        ) by {
            if k > 0 {
                assert(r[k] == ins[k - 1]);
            }
        }
    } else {
        assert forall|k: int| 0 <= k < r.len() implies spec_kind_in_range(
            (#[trigger] r[k]).kind,
        ) by {
            if k > 0 {
                assert(r[k] == sorted[k - 1]);
            }
        }
    }
}

/// Sorting keeps every message within the format's ranges.
proof fn lemma_sort_kinds(s: Seq<AbsEvent>)
    requires
        forall|k: int| 0 <= k < s.len() ==> spec_kind_in_range((#[trigger] s[k]).kind),
    ensures
        forall|k: int|
            0 <= k < spec_sort_by_time(s).len() ==> spec_kind_in_range(
                (#[trigger] spec_sort_by_time(s)[k]).kind,
            ),
    decreases s.len(),
{
    if s.len() > 0 {
        assert forall|k: int| 0 <= k < s.drop_last().len() implies spec_kind_in_range(
            (#[trigger] s.drop_last()[k]).kind,
        ) by {
            assert(s.drop_last()[k] == s[k]);
        }
        lemma_sort_kinds(s.drop_last());
        lemma_insert_kinds(spec_sort_by_time(s.drop_last()), s.last());
    }
}

/// Delta conversion of in-range messages yields in-range events.
proof fn lemma_deltas_in_range(s: Seq<AbsEvent>, last: u32)
    requires
        forall|k: int| 0 <= k < s.len() ==> spec_kind_in_range((#[trigger] s[k]).kind),
    ensures
        (match spec_deltas(s, last) {
            Ok(ds) => forall|k: int|
                0 <= k < ds.len() ==> spec_event_in_range(#[trigger] ds[k]),
            Err(e) => true,
        }),
    decreases s.len(),
{
    if s.len() > 0 && spec_deltas(s, last) is Ok {
        assert forall|k: int| 0 <= k < s.drop_first().len() implies spec_kind_in_range(
            (#[trigger] s.drop_first()[k]).kind,
        ) by {
            assert(s.drop_first()[k] == s[k + 1]);
        }
        lemma_deltas_in_range(s.drop_first(), s[0].time);
        let rest = spec_deltas(s.drop_first(), s[0].time)->Ok_0;
        let ds = spec_deltas(s, last)->Ok_0;
        assert forall|k: int| 0 <= k < ds.len() implies spec_event_in_range(
            #[trigger] ds[k],
        ) by {
            if k > 0 {
                assert(ds[k] == rest[k - 1]);
            }
        }
    }
}

/// Every event of a successfully encoded track is within the ranges
/// the file format encodes directly.
proof fn lemma_encode_track_in_range(t: IrTrackView)
    ensures
        (match spec_encode_track(t) {
            Ok(es) => forall|k: int|
                0 <= k < es.len() ==> spec_event_in_range(#[trigger] es[k]),
            Err(e) => true,
        }),
{
    if spec_encode_track(t) is Ok {
        lemma_expand_events_kinds(t.events, t.channel);
        let abs = spec_expand_events(t.events, t.channel)->Ok_0;
        lemma_sort_kinds(abs);
        lemma_deltas_in_range(spec_sort_by_time(abs), 0);
        let deltas = spec_deltas(spec_sort_by_time(abs), 0)->Ok_0;
        let es = spec_encode_track(t)->Ok_0;
        assert forall|k: int| 0 <= k < es.len() implies spec_event_in_range(
            #[trigger] es[k],
        ) by {
            if k < deltas.len() {
                assert(es[k] == deltas[k]);
            } else {
                assert(es[k] == (MidiEvent { delta: 0, kind: MidiEventKind::EndOfTrack }));
            }
        }
    }
}

/// Every event of every successfully encoded track is in range.
proof fn lemma_encode_tracks_in_range(tracks: Seq<IrTrackView>)
    ensures
        (match spec_encode_tracks(tracks) {
            Ok(tss) => forall|i: int, k: int|
                0 <= i < tss.len() && 0 <= k < tss[i].len() ==> spec_event_in_range(
                    #[trigger] tss[i][k],
                ),
            Err(e) => true,
        }),
    decreases tracks.len(),
{
    if tracks.len() > 0 && spec_encode_tracks(tracks) is Ok {
        lemma_encode_track_in_range(tracks[0]);
        lemma_encode_tracks_in_range(tracks.drop_first());
        let first = spec_encode_track(tracks[0])->Ok_0;
        let rest = spec_encode_tracks(tracks.drop_first())->Ok_0;
        let tss = spec_encode_tracks(tracks)->Ok_0;
        assert forall|i: int, k: int|
            0 <= i < tss.len() && 0 <= k < tss[i].len() implies spec_event_in_range(
            #[trigger] tss[i][k],
        ) by {
            if i == 0 {
                assert(tss[0] == first);
            } else {
                assert(tss[i] == rest[i - 1]);
            }
        }
    }
}

/// A file the codec produces always fits the format's ranges: the
/// serialization stage never has a value to reject.
pub proof fn lemma_generate_in_range(ir: IrScoreView)
    ensures
        (match spec_generate(ir) {
            Ok(f) => spec_file_in_range(f),
            Err(e) => true,
        }),
{
    if spec_generate(ir) is Ok {
        lemma_encode_tracks_in_range(ir.tracks);
    }
}

} // verus!
