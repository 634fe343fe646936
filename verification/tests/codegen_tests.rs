use melos::codegen::{generate, MidiEventKind};
use melos::ir::{IrEvent, IrEventKind, IrScore, IrTrack};

#[test]
fn test_codegen_simple_score() {
    let ir = IrScore {
        ppq: 480,
        tracks: vec![IrTrack {
            name: "Piano".to_string(),
            channel: 0,
            events: vec![IrEvent {
                time: 0,
                kind: IrEventKind::Note { pitch: 60, velocity: 100, duration: 480 },
            }],
        }],
    };

    let file = generate(&ir).expect("Failed to generate MIDI");

    assert_eq!(file.ppq, 480);
    assert_eq!(file.tracks.len(), 1);

    let track = &file.tracks[0];
    // Expect NoteOn at 0, NoteOff at 480.

    let e1 = &track[0];
    assert_eq!(e1.delta, 0);
    match e1.kind {
        MidiEventKind::NoteOn { channel, key, vel } => {
            assert_eq!(channel, 0);
            assert_eq!(key, 60);
            assert_eq!(vel, 100);
        }
        _ => panic!("Expected NoteOn"),
    }

    let e2 = &track[1];
    assert_eq!(e2.delta, 480);
    match e2.kind {
        MidiEventKind::NoteOff { channel, key } => {
            assert_eq!(channel, 0);
            assert_eq!(key, 60);
        }
        _ => panic!("Expected NoteOff"),
    }
}

#[test]
fn test_codegen_program_change() {
    let ir = IrScore {
        ppq: 480,
        tracks: vec![IrTrack {
            name: "Violin".to_string(),
            channel: 0,
            events: vec![
                IrEvent { time: 0, kind: IrEventKind::ProgramChange(40) },
                IrEvent {
                    time: 0,
                    kind: IrEventKind::Note { pitch: 60, velocity: 100, duration: 480 },
                },
            ],
        }],
    };

    let file = generate(&ir).expect("Failed to generate MIDI");
    let track = &file.tracks[0];

    // First event should be ProgramChange
    let e1 = &track[0];
    assert_eq!(e1.delta, 0);
    match e1.kind {
        MidiEventKind::ProgramChange { channel, program } => {
            assert_eq!(channel, 0);
            assert_eq!(program, 40);
        }
        _ => panic!("Expected ProgramChange"),
    }
}
