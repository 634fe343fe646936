//! Serialization of the in-memory file through the `midly` crate: each
//! codec event becomes one `midly` track event, and `midly` writes the
//! chunk and delta-time byte layout. Only the construction of `midly`
//! values and the final write are trusted; everything around them is
//! verified.

use vstd::prelude::*;
use crate::codegen::{spec_event_in_range, spec_file_in_range, EncodeError, MidiEvent, MidiEventKind, MidiFile, MidiFileView};

verus! {

#[verifier::external_type_specification]
#[verifier::external_body]
pub struct ExTrackEvent<'a>(midly::TrackEvent<'a>);

/// The `midly` track event a note-on becomes.
pub uninterp spec fn note_on_event(delta: u32, channel: u8, key: u8, vel: u8) -> midly::TrackEvent<
    'static,
>;

/// The `midly` track event a note-off becomes.
pub uninterp spec fn note_off_event(delta: u32, channel: u8, key: u8) -> midly::TrackEvent<
    'static,
>;

/// The `midly` track event a program change becomes.
pub uninterp spec fn program_change_event(delta: u32, channel: u8, program: u8) -> midly::TrackEvent<
    'static,
>;

/// The `midly` track event a tempo meta message becomes.
pub uninterp spec fn tempo_event(delta: u32, microseconds_per_quarter: u32) -> midly::TrackEvent<
    'static,
>;

/// The `midly` track event a time-signature meta message becomes.
pub uninterp spec fn time_signature_event(delta: u32, numerator: u8, denominator_pow2: u8, clocks_per_click: u8, thirty_seconds_per_quarter: u8) -> midly::TrackEvent<
    'static,
>;

/// The `midly` track event an end-of-track meta message becomes.
pub uninterp spec fn end_of_track_event(delta: u32) -> midly::TrackEvent<'static>;

/// The bytes `midly` writes for a multi-track file with the given
/// metrical division and tracks; they depend on those values alone.
pub uninterp spec fn smf_bytes(ppq: u16, tracks: Seq<Seq<midly::TrackEvent<'static>>>) -> Seq<u8>;

/// Whether `midly` cannot write a file with the given division and
/// tracks: in its source this is exactly more than 65535 tracks, or a
/// track chunk of 2^32 bytes or more — a function of those values
/// alone, like the bytes themselves.
pub uninterp spec fn smf_unwritable(ppq: u16, tracks: Seq<Seq<midly::TrackEvent<'static>>>) -> bool;

/// Relies on `midly::TrackEvent` construction: a note-on channel
/// message with the given delta time.
#[verifier::external_body]
fn mk_note_on(delta: u32, channel: u8, key: u8, vel: u8) -> (r: midly::TrackEvent<'static>)
    requires
        delta < 0x10000000,
        channel < 16,
        key < 128,
        vel < 128,
    ensures
        r == note_on_event(delta, channel, key, vel),
{
    midly::TrackEvent {
        delta: midly::num::u28::new(delta),
        kind: midly::TrackEventKind::Midi {
            channel: midly::num::u4::new(channel),
            message: midly::MidiMessage::NoteOn {
                key: midly::num::u7::new(key),
                vel: midly::num::u7::new(vel),
            },
        },
    }
}

/// Relies on `midly::TrackEvent` construction: a note-off channel
/// message with velocity zero.
#[verifier::external_body]
fn mk_note_off(delta: u32, channel: u8, key: u8) -> (r: midly::TrackEvent<'static>)
    requires
        delta < 0x10000000,
        channel < 16,
        key < 128,
    ensures
        r == note_off_event(delta, channel, key),
{
    midly::TrackEvent {
        delta: midly::num::u28::new(delta),
        kind: midly::TrackEventKind::Midi {
            channel: midly::num::u4::new(channel),
            message: midly::MidiMessage::NoteOff {
                key: midly::num::u7::new(key),
                vel: midly::num::u7::new(0),
            },
        },
    }
}

/// Relies on `midly::TrackEvent` construction: a program-change channel
/// message.
#[verifier::external_body]
fn mk_program_change(delta: u32, channel: u8, program: u8) -> (r: midly::TrackEvent<'static>)
    requires
        delta < 0x10000000,
        channel < 16,
        program < 128,
    ensures
        r == program_change_event(delta, channel, program),
{
    midly::TrackEvent {
        delta: midly::num::u28::new(delta),
        kind: midly::TrackEventKind::Midi {
            channel: midly::num::u4::new(channel),
            message: midly::MidiMessage::ProgramChange { program: midly::num::u7::new(program) },
        },
    }
}

/// Relies on `midly::TrackEvent` construction: a tempo meta message.
#[verifier::external_body]
fn mk_tempo(delta: u32, microseconds_per_quarter: u32) -> (r: midly::TrackEvent<'static>)
    requires
        delta < 0x10000000,
        microseconds_per_quarter < 0x1000000,
    ensures
        r == tempo_event(delta, microseconds_per_quarter),
{
    midly::TrackEvent {
        delta: midly::num::u28::new(delta),
        kind: midly::TrackEventKind::Meta(
            midly::MetaMessage::Tempo(midly::num::u24::new(microseconds_per_quarter)),
        ),
    }
}

/// Relies on `midly::TrackEvent` construction: a time-signature meta
/// message.
#[verifier::external_body]
fn mk_time_signature(
    delta: u32,
    numerator: u8,
    denominator_pow2: u8,
    clocks_per_click: u8,
    thirty_seconds_per_quarter: u8,
) -> (r: midly::TrackEvent<'static>)
    requires
        delta < 0x10000000,
    ensures
        r == time_signature_event(
            delta,
            numerator,
            denominator_pow2,
            clocks_per_click,
            thirty_seconds_per_quarter,
        ),
{
    midly::TrackEvent {
        delta: midly::num::u28::new(delta),
        kind: midly::TrackEventKind::Meta(
            midly::MetaMessage::TimeSignature(
                numerator,
                denominator_pow2,
                clocks_per_click,
                thirty_seconds_per_quarter,
            ),
        ),
    }
}

/// Relies on `midly::TrackEvent` construction: an end-of-track meta
/// message.
#[verifier::external_body]
fn mk_end_of_track(delta: u32) -> (r: midly::TrackEvent<'static>)
    requires
        delta < 0x10000000,
    ensures
        r == end_of_track_event(delta),
{
    midly::TrackEvent {
        delta: midly::num::u28::new(delta),
        kind: midly::TrackEventKind::Meta(midly::MetaMessage::EndOfTrack),
    }
}

/// The sequence-of-sequences image of built `midly` tracks.
pub open spec fn midly_tracks_view(tracks: Seq<Vec<midly::TrackEvent<'static>>>) -> Seq<
    Seq<midly::TrackEvent<'static>>,
> {
    Seq::new(tracks.len(), |i: int| tracks[i]@)
}

/// Relies on `midly::Smf::write`: serializes a multi-track file with a
/// metrical division of `ppq` to its byte layout; both the bytes and
/// whether writing fails are functions of the header and the events
/// alone, and it fails only when the file cannot be represented (more
/// than 65535 tracks, or a track chunk beyond the 32-bit range).
#[verifier::external_body]
fn write_smf(ppq: u16, tracks: Vec<Vec<midly::TrackEvent<'static>>>) -> (r: Result<
    Vec<u8>,
    &'static str,
>)
    requires
        ppq < 0x8000,
    ensures
        r matches Ok(bytes) ==> bytes@ == smf_bytes(ppq, midly_tracks_view(tracks@)),
        r is Err <==> smf_unwritable(ppq, midly_tracks_view(tracks@)),
{
    let smf = midly::Smf {
        header: midly::Header {
            format: midly::Format::Parallel,
            timing: midly::Timing::Metrical(midly::num::u15::new(ppq)),
        },
        tracks,
    };
    let mut out: Vec<u8> = Vec::new();
    match smf.write(&mut out) {
        Ok(()) => Ok(out),
        Err(e) => Err(e),
    }
}

/// The `midly` event one codec event becomes.
pub open spec fn spec_midly_event(e: MidiEvent) -> midly::TrackEvent<'static> {
    match e.kind {
        MidiEventKind::NoteOn { channel, key, vel } => note_on_event(e.delta, channel, key, vel),
        MidiEventKind::NoteOff { channel, key } => note_off_event(e.delta, channel, key),
        MidiEventKind::ProgramChange { channel, program } => program_change_event(
            e.delta,
            channel,
            program,
        ),
        MidiEventKind::Tempo { microseconds_per_quarter } => tempo_event(
            e.delta,
            microseconds_per_quarter,
        ),
        MidiEventKind::TimeSignature { numerator, denominator_pow2, clocks_per_click, thirty_seconds_per_quarter } => time_signature_event(
            e.delta,
            numerator,
            denominator_pow2,
            clocks_per_click,
            thirty_seconds_per_quarter,
        ),
        MidiEventKind::EndOfTrack => end_of_track_event(e.delta),
    }
}

/// The `midly` image of a whole file's tracks.
pub open spec fn spec_midly_tracks(tracks: Seq<Seq<MidiEvent>>) -> Seq<
    Seq<midly::TrackEvent<'static>>,
> {
    Seq::new(tracks.len(), |i: int| Seq::new(tracks[i].len(), |j: int| spec_midly_event(tracks[i][j])))
}

/// The bytes a file model serializes to.
pub open spec fn spec_smf_bytes(f: MidiFileView) -> Seq<u8> {
    smf_bytes(f.ppq, spec_midly_tracks(f.tracks))
}

/// Converts one track to `midly` events.
fn to_midly_track(events: &Vec<MidiEvent>) -> (r: Result<
    Vec<midly::TrackEvent<'static>>,
    EncodeError,
>)
    ensures
        (forall|j: int| 0 <= j < events@.len() ==> spec_event_in_range(#[trigger] events@[j]))
            ==> r is Ok,
        r matches Ok(v) ==> v@ == Seq::new(
            events@.len(),
            |j: int| spec_midly_event(events@[j]),
        ),
        r is Err ==> r == Err::<Vec<midly::TrackEvent<'static>>, EncodeError>(
            EncodeError::ValueOutOfRange,
        ),
{
    let mut out: Vec<midly::TrackEvent<'static>> = Vec::new();
    let mut i: usize = 0;
    while i < events.len()
        invariant
            i <= events@.len(),
            out@ == Seq::new(i as nat, |j: int| spec_midly_event(events@[j])),
            forall|j: int| 0 <= j < i ==> spec_event_in_range(#[trigger] events@[j]),
        decreases events@.len() - i,
    {
        let e = &events[i];
        if !(e.delta < 0x10000000) {
            return Err(EncodeError::ValueOutOfRange);
        }
        let ev: midly::TrackEvent<'static> = match &e.kind {
            MidiEventKind::NoteOn { channel, key, vel } => {
                if !(*channel < 16 && *key < 128 && *vel < 128) {
                    return Err(EncodeError::ValueOutOfRange);
                }
                mk_note_on(e.delta, *channel, *key, *vel)
            },
            MidiEventKind::NoteOff { channel, key } => {
                if !(*channel < 16 && *key < 128) {
                    return Err(EncodeError::ValueOutOfRange);
                }
                mk_note_off(e.delta, *channel, *key)
            },
            MidiEventKind::ProgramChange { channel, program } => {
                if !(*channel < 16 && *program < 128) {
                    return Err(EncodeError::ValueOutOfRange);
                }
                mk_program_change(e.delta, *channel, *program)
            },
            MidiEventKind::Tempo { microseconds_per_quarter } => {
                if !(*microseconds_per_quarter < 0x1000000) {
                    return Err(EncodeError::ValueOutOfRange);
                }
                mk_tempo(e.delta, *microseconds_per_quarter)
            },
            MidiEventKind::TimeSignature {
                numerator,
                denominator_pow2,
                clocks_per_click,
                thirty_seconds_per_quarter,
            } => mk_time_signature(
                e.delta,
                *numerator,
                *denominator_pow2,
                *clocks_per_click,
                *thirty_seconds_per_quarter,
            ),
            MidiEventKind::EndOfTrack => mk_end_of_track(e.delta),
        };
        out.push(ev);
        proof {
            assert(out@ =~= Seq::new((i + 1) as nat, |j: int| spec_midly_event(events@[j])));
        }
        i = i + 1;
    }
    Ok(out)
}

/// Serializes a file model to Standard MIDI File bytes through `midly`.
/// On success the bytes are exactly the `midly` serialization of the
/// model — a function of the model alone. Success is owed whenever the
/// model's values fit the format's ranges and `midly` can represent
/// the file at all; the codec only produces such models.
pub fn midi_file_to_bytes(f: &MidiFile) -> (r: Result<Vec<u8>, EncodeError>)
    ensures
        r matches Ok(bytes) ==> bytes@ == spec_smf_bytes(f.deep_view()),
        r is Err ==> r == Err::<Vec<u8>, EncodeError>(EncodeError::ValueOutOfRange),
        spec_file_in_range(f.deep_view()) && !smf_unwritable(
            f.deep_view().ppq,
            spec_midly_tracks(f.deep_view().tracks),
        ) ==> r is Ok,
{
    if f.ppq >= 0x8000 {
        return Err(EncodeError::ValueOutOfRange);
    }
    let mut tracks: Vec<Vec<midly::TrackEvent<'static>>> = Vec::new();
    let mut i: usize = 0;
    while i < f.tracks.len()
        invariant
            i <= f.tracks@.len(),
            midly_tracks_view(tracks@) == spec_midly_tracks(f.tracks.deep_view()).take(i as int),
        decreases f.tracks@.len() - i,
    {
        proof {
            assert(f.tracks@[i as int].deep_view() =~= f.tracks@[i as int]@);
        }
        let t = match to_midly_track(&f.tracks[i]) {
            Ok(t) => t,
            Err(e) => {
                proof {
                    if spec_file_in_range(f.deep_view()) {
                        assert forall|j: int|
                            0 <= j < f.tracks@[i as int]@.len() implies spec_event_in_range(
                            #[trigger] f.tracks@[i as int]@[j],
                        ) by {
                            assert(f.deep_view().tracks[i as int][j] == f.tracks@[i as int]@[j]);
                        }
                        assert(false);
                    }
                }
                return Err(e);
            },
        };
        let ghost prior = tracks@;
        tracks.push(t);
        proof {
            let target = spec_midly_tracks(f.tracks.deep_view());
            assert(f.tracks@[i as int].deep_view() =~= f.tracks@[i as int]@);
            assert(t@ =~= target[i as int]);
            assert(prior.len() == i) by {
                assert(midly_tracks_view(prior).len() == prior.len());
                assert(f.tracks.deep_view().len() == f.tracks@.len());
                assert(midly_tracks_view(prior).len() == target.take(i as int).len());
            }
            assert forall|k: int| 0 <= k < i + 1 implies midly_tracks_view(tracks@)[k] == target.take(
                i as int + 1,
            )[k] by {
                if k < i {
                    assert(tracks@[k] == prior[k]);
                    assert(midly_tracks_view(prior)[k] == target.take(i as int)[k]);
                } else {
                    assert(tracks@[k] == t);
                }
            }
            assert(midly_tracks_view(tracks@) =~= target.take(i as int + 1));
        }
        i = i + 1;
    }
    proof {
        assert(spec_midly_tracks(f.tracks.deep_view()).take(f.tracks@.len() as int)
            =~~= spec_midly_tracks(f.tracks.deep_view()));
    }
    match write_smf(f.ppq, tracks) {
        Ok(bytes) => Ok(bytes),
        Err(msg) => Err(EncodeError::ValueOutOfRange),
    }
}

} // verus!
