//! Intermediate representation: per-track events at absolute tick times,
//! produced by lowering and consumed by the binary codec.

use vstd::prelude::*;

verus! {

#[derive(Debug, PartialEq, Clone)]
pub struct IrScore {
    pub tracks: Vec<IrTrack>,
    pub ppq: u32,
}

#[derive(Debug, PartialEq, Clone)]
pub struct IrTrack {
    pub name: String,
    /// MIDI channel 0-15.
    pub channel: u8,
    pub events: Vec<IrEvent>,
}

#[derive(Debug, Clone)]
pub struct IrEvent {
    /// Absolute ticks from the start of the piece.
    pub time: u32,
    pub kind: IrEventKind,
}

#[derive(Debug, Clone)]
pub enum IrEventKind {
    Note {
        /// MIDI note number 0-127.
        pitch: u8,
        /// 0-127.
        velocity: u8,
        /// Ticks.
        duration: u32,
    },
    /// Beats per minute.
    Tempo(u32),
    TimeSignature(u32, u32),
    KeySignature {
        root: String,
        scale: String,
    },
    ProgramChange(u8),
}

/// Spec-level images of the representation: strings become character
/// sequences, vectors become sequences. Contracts speak of these.
pub enum IrEventKindView {
    Note { pitch: u8, velocity: u8, duration: u32 },
    Tempo(u32),
    TimeSignature(u32, u32),
    KeySignature { root: Seq<char>, scale: Seq<char> },
    ProgramChange(u8),
}

pub struct IrEventView {
    pub time: u32,
    pub kind: IrEventKindView,
}

pub struct IrTrackView {
    pub name: Seq<char>,
    pub channel: u8,
    pub events: Seq<IrEventView>,
}

pub struct IrScoreView {
    pub tracks: Seq<IrTrackView>,
    pub ppq: u32,
}

impl DeepView for IrEventKind {
    type V = IrEventKindView;

    open spec fn deep_view(&self) -> IrEventKindView {
        match self {
            IrEventKind::Note { pitch, velocity, duration } => IrEventKindView::Note {
                pitch: *pitch,
                velocity: *velocity,
                duration: *duration,
            },
            IrEventKind::Tempo(bpm) => IrEventKindView::Tempo(*bpm),
            IrEventKind::TimeSignature(n, d) => IrEventKindView::TimeSignature(*n, *d),
            IrEventKind::KeySignature { root, scale } => IrEventKindView::KeySignature {
                root: root@,
                scale: scale@,
            },
            IrEventKind::ProgramChange(p) => IrEventKindView::ProgramChange(*p),
        }
    }
}

impl DeepView for IrEvent {
    type V = IrEventView;

    open spec fn deep_view(&self) -> IrEventView {
        IrEventView { time: self.time, kind: self.kind.deep_view() }
    }
}

impl DeepView for IrTrack {
    type V = IrTrackView;

    open spec fn deep_view(&self) -> IrTrackView {
        IrTrackView { name: self.name@, channel: self.channel, events: self.events.deep_view() }
    }
}

impl DeepView for IrScore {
    type V = IrScoreView;

    open spec fn deep_view(&self) -> IrScoreView {
        IrScoreView { tracks: self.tracks.deep_view(), ppq: self.ppq }
    }
}

/// Equality of event kinds: equality of their spec-level images.
pub open spec fn ir_kind_eq(a: IrEventKind, b: IrEventKind) -> bool {
    a.deep_view() == b.deep_view()
}

/// Equality of events: equality of their spec-level images.
pub open spec fn ir_event_eq(a: IrEvent, b: IrEvent) -> bool {
    a.deep_view() == b.deep_view()
}

impl PartialEq for IrEventKind {
    fn eq(&self, other: &IrEventKind) -> (r: bool) {
        match (self, other) {
            (
                IrEventKind::Note { pitch: p1, velocity: v1, duration: d1 },
                IrEventKind::Note { pitch: p2, velocity: v2, duration: d2 },
            ) => *p1 == *p2 && *v1 == *v2 && *d1 == *d2,
            (IrEventKind::Tempo(b1), IrEventKind::Tempo(b2)) => *b1 == *b2,
            (IrEventKind::TimeSignature(n1, d1), IrEventKind::TimeSignature(n2, d2)) => *n1 == *n2
                && *d1 == *d2,
            (
                IrEventKind::KeySignature { root: r1, scale: s1 },
                IrEventKind::KeySignature { root: r2, scale: s2 },
            ) => r1.eq(r2) && s1.eq(s2),
            (IrEventKind::ProgramChange(p1), IrEventKind::ProgramChange(p2)) => *p1 == *p2,
            _ => false,
        }
    }
}

impl vstd::std_specs::cmp::PartialEqSpecImpl for IrEventKind {
    open spec fn obeys_eq_spec() -> bool {
        true
    }

    open spec fn eq_spec(&self, other: &IrEventKind) -> bool {
        ir_kind_eq(*self, *other)
    }
}

impl PartialEq for IrEvent {
    fn eq(&self, other: &IrEvent) -> (r: bool) {
        self.time == other.time && self.kind == other.kind
    }
}

impl vstd::std_specs::cmp::PartialEqSpecImpl for IrEvent {
    open spec fn obeys_eq_spec() -> bool {
        true
    }

    open spec fn eq_spec(&self, other: &IrEvent) -> bool {
        ir_event_eq(*self, *other)
    }
}

} // verus!
