use melos::ast::{
    BaseDuration, ContextChange, Duration, Event, Measure, MeasureBlock, Note, Part, Pitch, Ratio,
    Score,
};
use melos::codegen::{generate, EncodeError, MidiEventKind};
use melos::compile_to_midi;
use melos::instruments::get_instrument_program;
use melos::ir::{IrEvent, IrEventKind, IrScore, IrTrack};
use melos::parser::parse;
use melos::state::pitch_to_name;
use melos::walker::{
    calculate_duration, calculate_measure_duration, calculate_pitch, dynamic_to_velocity, walk,
    LoweringError,
};

fn quarter_note(step: char, octave: i32) -> Event {
    Event::Note(Note {
        pitch: Pitch { step, accidental: None, octave },
        duration: Some(Duration::Base(BaseDuration::Quarter, 0)),
        dynamic: None,
        articulation: None,
    })
}

#[test]
fn test_base_duration_table() {
    // Whole=1920, Half=960, Quarter=480, Eighth=240, Sixteenth=120 at PPQ=480.
    let cases = [
        (BaseDuration::Whole, 1920),
        (BaseDuration::Half, 960),
        (BaseDuration::Quarter, 480),
        (BaseDuration::Eighth, 240),
        (BaseDuration::Sixteenth, 120),
    ];
    for (unit, ticks) in cases {
        let d = Some(Duration::Base(unit, 0));
        assert_eq!(calculate_duration(&d, 480), Ok(ticks));
    }
    // An absent duration defaults to one quarter note.
    assert_eq!(calculate_duration(&None, 480), Ok(480));
}

#[test]
fn test_dotted_durations() {
    // One dot adds half the base; a second dot a further quarter.
    let one = Some(Duration::Base(BaseDuration::Quarter, 1));
    assert_eq!(calculate_duration(&one, 480), Ok(720));
    let two = Some(Duration::Base(BaseDuration::Quarter, 2));
    assert_eq!(calculate_duration(&two, 480), Ok(840));
}

#[test]
fn test_unsupported_duration_is_error() {
    let sub = Some(Duration::Subdivision(BaseDuration::Quarter, 3));
    assert_eq!(calculate_duration(&sub, 480), Err(LoweringError::UnsupportedDuration));
    let frac = Some(Duration::Fraction(1, 3));
    assert_eq!(calculate_duration(&frac, 480), Err(LoweringError::UnsupportedDuration));
}

#[test]
fn test_pitch_mapping() {
    let c4 = Pitch { step: 'C', accidental: None, octave: 4 };
    assert_eq!(calculate_pitch(&c4), Ok(60));
    let cs4 = Pitch { step: 'C', accidental: Some(melos::ast::Accidental::Sharp), octave: 4 };
    assert_eq!(calculate_pitch(&cs4), Ok(61));
    let db4 = Pitch { step: 'D', accidental: Some(melos::ast::Accidental::Flat), octave: 4 };
    assert_eq!(calculate_pitch(&db4), Ok(61));
    // Out of range is rejected, never clamped or wrapped.
    let high = Pitch { step: 'B', accidental: None, octave: 9 };
    assert_eq!(calculate_pitch(&high), Err(LoweringError::PitchOutOfRange));
    let low = Pitch { step: 'C', accidental: None, octave: -2 };
    assert_eq!(calculate_pitch(&low), Err(LoweringError::PitchOutOfRange));
    let bad = Pitch { step: 'H', accidental: None, octave: 4 };
    assert_eq!(calculate_pitch(&bad), Err(LoweringError::InvalidPitchStep));
}

#[test]
fn test_dynamic_table() {
    assert_eq!(dynamic_to_velocity("fff"), 127);
    assert_eq!(dynamic_to_velocity("ff"), 112);
    assert_eq!(dynamic_to_velocity("f"), 96);
    assert_eq!(dynamic_to_velocity("mf"), 80);
    assert_eq!(dynamic_to_velocity("mp"), 64);
    assert_eq!(dynamic_to_velocity("p"), 48);
    assert_eq!(dynamic_to_velocity("pp"), 32);
    assert_eq!(dynamic_to_velocity("ppp"), 16);
    // Unknown markings fall back to mezzo-forte.
    assert_eq!(dynamic_to_velocity("sfz"), 80);
}

#[test]
fn test_swing_exact_values() {
    // ratio 0.66 on eighth notes: first 317 = round(2*240*0.66), second 163.
    let input = r#"
    Part: Piano Instrument: Piano {
        Swing: e 0.66
        | C4 e D4 e |
    }
    "#;
    let score = parse(input).expect("Failed to parse");
    let ir = walk(&score).expect("Failed to walk");
    let durations: Vec<u32> = ir.tracks[1]
        .events
        .iter()
        .filter_map(|e| match e.kind {
            IrEventKind::Note { duration, .. } => Some(duration),
            _ => None,
        })
        .collect();
    assert_eq!(durations, vec![317, 163]);
}

#[test]
fn test_invalid_swing_ratio_is_error() {
    let ast = Score {
        headers: vec![],
        parts: vec![Part {
            name: "Piano".to_string(),
            instrument: "Piano".to_string(),
            content: vec![
                MeasureBlock::ContextChange(ContextChange::Swing(Some((
                    BaseDuration::Eighth,
                    Ratio { num: 5, den: 3 },
                )))),
                MeasureBlock::Measure(Measure { events: vec![quarter_note('C', 4)] }),
            ],
        }],
    };
    assert_eq!(walk(&ast).unwrap_err(), LoweringError::InvalidSwingRatio);
}

#[test]
fn test_tuplet_zero_is_error() {
    let input = r#"
    Part: Piano Instrument: Piano {
        | Tuplet(0:2) { C4 q } |
    }
    "#;
    let score = parse(input).expect("Failed to parse");
    assert_eq!(walk(&score).unwrap_err(), LoweringError::InvalidTuplet);
}

#[test]
fn test_track_merging_same_name() {
    // Two blocks of one part name: one track, second block shifted to
    // begin where the first ended.
    let input = r#"
    Part: Piano Instrument: Piano {
        | C4 q D4 q |
    }
    Part: Piano Instrument: Piano {
        | E4 q |
    }
    "#;
    let score = parse(input).expect("Failed to parse");
    let ir = walk(&score).expect("Failed to walk");
    // Conductor plus exactly one Piano track.
    assert_eq!(ir.tracks.len(), 2);
    assert_eq!(ir.tracks[1].name, "Piano");
    let notes: Vec<(u32, u8)> = ir.tracks[1]
        .events
        .iter()
        .filter_map(|e| match e.kind {
            IrEventKind::Note { pitch, .. } => Some((e.time, pitch)),
            _ => None,
        })
        .collect();
    // First block ends at 960; the E4 of the second block starts there.
    assert_eq!(notes, vec![(0, 60), (480, 62), (960, 64)]);
}

#[test]
fn test_codegen_tempo_and_errors() {
    let ir = IrScore {
        ppq: 480,
        tracks: vec![IrTrack {
            name: "Conductor".to_string(),
            channel: 0,
            events: vec![IrEvent { time: 0, kind: IrEventKind::Tempo(120) }],
        }],
    };
    let file = generate(&ir).expect("Failed to generate MIDI");
    // 60,000,000 / 120 = 500,000 microseconds per quarter note.
    assert_eq!(
        file.tracks[0][0].kind,
        MidiEventKind::Tempo { microseconds_per_quarter: 500_000 }
    );
    // The track ends with an end-of-track event at delta 0.
    let last = file.tracks[0].last().unwrap();
    assert_eq!(last.delta, 0);
    assert_eq!(last.kind, MidiEventKind::EndOfTrack);

    // A zero tempo cannot be encoded.
    let bad = IrScore {
        ppq: 480,
        tracks: vec![IrTrack {
            name: "Conductor".to_string(),
            channel: 0,
            events: vec![IrEvent { time: 0, kind: IrEventKind::Tempo(0) }],
        }],
    };
    assert_eq!(generate(&bad).unwrap_err(), EncodeError::ValueOutOfRange);

    // A pitch beyond 127 is an internal-consistency failure.
    let bad_pitch = IrScore {
        ppq: 480,
        tracks: vec![IrTrack {
            name: "Piano".to_string(),
            channel: 0,
            events: vec![IrEvent {
                time: 0,
                kind: IrEventKind::Note { pitch: 200, velocity: 100, duration: 480 },
            }],
        }],
    };
    assert_eq!(generate(&bad_pitch).unwrap_err(), EncodeError::ValueOutOfRange);
}

#[test]
fn test_time_signature_meta_encoding() {
    // Denominator 4 encodes as the exponent 2, with 24 clocks per click
    // and 8 thirty-seconds per quarter.
    let ir = IrScore {
        ppq: 480,
        tracks: vec![IrTrack {
            name: "Conductor".to_string(),
            channel: 0,
            events: vec![IrEvent { time: 0, kind: IrEventKind::TimeSignature(3, 4) }],
        }],
    };
    let file = generate(&ir).expect("Failed to generate MIDI");
    assert_eq!(
        file.tracks[0][0].kind,
        MidiEventKind::TimeSignature {
            numerator: 3,
            denominator_pow2: 2,
            clocks_per_click: 24,
            thirty_seconds_per_quarter: 8,
        }
    );
}

#[test]
fn test_compile_idempotent_and_well_formed() {
    let source = r#"
    Title: "Round Trip"
    Tempo: 120
    Time: 4/4
    Part: Piano Instrument: Piano {
        | C4 q E4 q G4 q r q |
    }
    "#;
    let bytes1 = compile_to_midi(source).expect("Failed to compile");
    let bytes2 = compile_to_midi(source).expect("Failed to compile");
    // Byte-identical output on recompilation: no hidden nondeterminism.
    assert_eq!(bytes1, bytes2);

    // The output is a well-formed Standard MIDI File that parses back:
    // header chunk first, two tracks (conductor plus one part).
    assert_eq!(&bytes1[0..4], b"MThd");
    let smf = midly::Smf::parse(&bytes1).expect("output is not a readable MIDI file");
    assert_eq!(smf.tracks.len(), 2);
    assert_eq!(
        smf.header.timing,
        midly::Timing::Metrical(midly::num::u15::new(480))
    );
    // The part track replays the notes: three note-ons with velocity 100.
    let ons: Vec<u8> = smf.tracks[1]
        .iter()
        .filter_map(|e| match e.kind {
            midly::TrackEventKind::Midi {
                message: midly::MidiMessage::NoteOn { key, vel },
                ..
            } if vel.as_int() > 0 => Some(key.as_int()),
            _ => None,
        })
        .collect();
    assert_eq!(ons, vec![60, 64, 67]);
}

#[test]
fn test_instrument_lookup() {
    assert_eq!(get_instrument_program("Violin"), Some(40));
    assert_eq!(get_instrument_program("Piano"), Some(0));
    assert_eq!(get_instrument_program("Theremin"), None);
}

#[test]
fn test_pitch_names() {
    assert_eq!(pitch_to_name(60), "C4");
    assert_eq!(pitch_to_name(61), "C#4");
    assert_eq!(pitch_to_name(0), "C-1");
    assert_eq!(pitch_to_name(127), "G9");
}

#[test]
fn test_measure_duration() {
    let measure = Measure {
        events: vec![
            quarter_note('C', 4),
            Event::Rest(Some(Duration::Base(BaseDuration::Eighth, 0))),
        ],
    };
    assert_eq!(calculate_measure_duration(&measure, 480), Ok(720));
}

#[test]
fn test_syntax_errors() {
    assert!(parse("").is_err());
    assert!(parse("nonsense").is_err());
    assert!(parse("Part: Piano Instrument: Piano { | C4 q |").is_err());
    assert!(parse("Title: \"only a header\"").is_err());
    assert!(parse("Part: Piano Instrument: Piano { | X4 q | }").is_err());
}

#[test]
fn test_comment_and_whitespace_handling() {
    // A line comment after a bare part name must not become part of the
    // name, and blank lines and comments may appear anywhere between
    // tokens.
    let input = "\n// leading comment\nTitle: \"Test\"  \t\n\nPart: Piano // the part name\nInstrument: Piano {\n  | C4 q | // a measure\n}\n";
    let score = parse(input).expect("Failed to parse");
    assert_eq!(score.parts[0].name, "Piano");
    assert!(!score.parts[0].name.contains("//"));
}

#[test]
fn test_track_merging_interleaved_parts() {
    // Same-name blocks merge even with other parts declared between
    // them: one track per distinct name, later blocks shifted to the
    // track's own end.
    let input = r#"
    Part: Piano Instrument: Piano {
        | C4 q |
    }
    Part: Violin Instrument: Violin {
        | G4 q |
    }
    Part: Piano Instrument: Piano {
        | E4 q |
    }
    "#;
    let score = parse(input).expect("Failed to parse");
    let ir = walk(&score).expect("Failed to walk");
    // Conductor, Piano, Violin: no name twice.
    assert_eq!(ir.tracks.len(), 3);
    assert_eq!(ir.tracks[1].name, "Piano");
    assert_eq!(ir.tracks[2].name, "Violin");
    let piano_notes: Vec<(u32, u8)> = ir.tracks[1]
        .events
        .iter()
        .filter_map(|e| match e.kind {
            IrEventKind::Note { pitch, .. } => Some((e.time, pitch)),
            _ => None,
        })
        .collect();
    // The second Piano block starts where the first ended (tick 480),
    // untouched by the Violin part in between.
    assert_eq!(piano_notes, vec![(0, 60), (480, 64)]);
}
