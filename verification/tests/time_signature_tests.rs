use melos::ast::{
    BaseDuration, ContextChange, Duration, Event, Header, Measure, MeasureBlock, Note, Part,
    Pitch, Score, Tuplet,
};
use melos::ir::IrEventKind;
use melos::walker::walk;

#[test]
fn test_global_header_time_signature() {
    let ast = Score {
        headers: vec![Header::TimeSignature(3, 4)],
        parts: vec![Part {
            name: "Piano".to_string(),
            instrument: "Piano".to_string(),
            content: vec![MeasureBlock::Measure(Measure {
                events: vec![Event::Note(Note {
                    pitch: Pitch { step: 'C', accidental: None, octave: 4 },
                    duration: Some(Duration::Base(BaseDuration::Quarter, 0)),
                    dynamic: None,
                    articulation: None,
                })],
            })],
        }],
    };

    let result = walk(&ast).expect("Failed to walk");

    // Check for Conductor track with TimeSignature
    let conductor = &result.tracks[0];
    assert_eq!(conductor.name, "Conductor");
    assert_eq!(conductor.events.len(), 1);
    assert_eq!(conductor.events[0].kind, IrEventKind::TimeSignature(3, 4));

    // Check that Piano track ALSO has the global TimeSignature
    let piano = &result.tracks[1];
    assert_eq!(piano.name, "Piano");
    // ProgramChange(0) + TimeSignature(3,4) + Note
    assert_eq!(piano.events.len(), 3);
    assert_eq!(piano.events[1].kind, IrEventKind::TimeSignature(3, 4));
}

#[test]
fn test_inline_time_signature_single_part() {
    let ast = Score {
        headers: vec![],
        parts: vec![Part {
            name: "Piano".to_string(),
            instrument: "Piano".to_string(),
            content: vec![
                MeasureBlock::ContextChange(ContextChange::TimeSignature(5, 8)),
                MeasureBlock::Measure(Measure { events: vec![Event::Rest(None)] }),
            ],
        }],
    };

    let result = walk(&ast).expect("Failed to walk");

    let conductor = &result.tracks[0];
    assert_eq!(conductor.name, "Conductor");
    assert_eq!(conductor.events.len(), 1);
    assert_eq!(conductor.events[0].kind, IrEventKind::TimeSignature(4, 4));

    let piano = &result.tracks[1];
    // ProgramChange + TS(5,8)
    assert_eq!(piano.events.len(), 2);
    assert_eq!(piano.events[1].kind, IrEventKind::TimeSignature(5, 8));
}

#[test]
fn test_inline_time_signature_multiple_parts_merge() {
    let ast = Score {
        headers: vec![],
        parts: vec![
            Part {
                name: "Piano".to_string(),
                instrument: "Piano".to_string(),
                content: vec![
                    MeasureBlock::ContextChange(ContextChange::TimeSignature(4, 4)),
                    MeasureBlock::Measure(Measure { events: vec![Event::Rest(None)] }),
                    MeasureBlock::ContextChange(ContextChange::TimeSignature(3, 4)),
                ],
            },
            Part {
                name: "Violin".to_string(),
                instrument: "Violin".to_string(),
                content: vec![
                    MeasureBlock::ContextChange(ContextChange::TimeSignature(4, 4)),
                    MeasureBlock::Measure(Measure { events: vec![Event::Rest(None)] }),
                    MeasureBlock::ContextChange(ContextChange::TimeSignature(3, 4)),
                ],
            },
        ],
    };

    let result = walk(&ast).expect("Failed to walk");

    let conductor = &result.tracks[0];
    assert_eq!(conductor.name, "Conductor");
    // Should be deduped
    assert_eq!(conductor.events.len(), 1);
    assert_eq!(conductor.events[0].kind, IrEventKind::TimeSignature(4, 4));

    // Check Piano
    let piano = &result.tracks[1];
    assert_eq!(piano.events.len(), 3); // PC + TS(4/4) + TS(3/4)
    assert_eq!(piano.events[1].kind, IrEventKind::TimeSignature(4, 4));
    assert_eq!(piano.events[2].kind, IrEventKind::TimeSignature(3, 4));
}

#[test]
fn test_complex_time_signatures() {
    let ast = Score {
        headers: vec![],
        parts: vec![Part {
            name: "Piano".to_string(),
            instrument: "Piano".to_string(),
            content: vec![
                MeasureBlock::ContextChange(ContextChange::TimeSignature(11, 8)),
                MeasureBlock::Measure(Measure { events: vec![Event::Rest(None)] }),
                MeasureBlock::ContextChange(ContextChange::TimeSignature(7, 16)),
            ],
        }],
    };

    let result = walk(&ast).expect("Failed to walk");

    let conductor = &result.tracks[0];
    assert_eq!(conductor.events.len(), 1);
    assert_eq!(conductor.events[0].kind, IrEventKind::TimeSignature(4, 4));

    let piano = &result.tracks[1];
    assert_eq!(piano.events[1].kind, IrEventKind::TimeSignature(11, 8));
    assert_eq!(piano.events[2].kind, IrEventKind::TimeSignature(7, 16));
}

#[test]
fn test_initial_time_signature_restored_to_second_position() {
    // A zero-duration note at the start tick followed by an inline time
    // signature: the surviving time signature still stands right after
    // the program change, so every track begins ProgramChange then
    // TimeSignature.
    let ast = Score {
        headers: vec![],
        parts: vec![Part {
            name: "Piano".to_string(),
            instrument: "Piano".to_string(),
            content: vec![
                MeasureBlock::Measure(Measure {
                    events: vec![Event::Tuplet(Tuplet {
                        p: 1000,
                        q: 1,
                        events: vec![Event::Note(Note {
                            pitch: Pitch { step: 'C', accidental: None, octave: 4 },
                            duration: Some(Duration::Base(BaseDuration::Quarter, 0)),
                            dynamic: None,
                            articulation: None,
                        })],
                    })],
                }),
                MeasureBlock::ContextChange(ContextChange::TimeSignature(5, 8)),
            ],
        }],
    };

    let result = walk(&ast).expect("Failed to walk");
    let piano = &result.tracks[1];
    assert!(matches!(piano.events[0].kind, IrEventKind::ProgramChange(_)));
    assert_eq!(piano.events[0].time, 0);
    assert_eq!(piano.events[1].kind, IrEventKind::TimeSignature(5, 8));
    assert_eq!(piano.events[1].time, 0);
    // The zero-duration note follows, and the injected 4/4 is gone.
    assert!(matches!(piano.events[2].kind, IrEventKind::Note { .. }));
    assert_eq!(piano.events.len(), 3);
}
