//! Syntax tree for the notation language: a score is a list of headers
//! followed by a list of parts, each part a sequence of measures and
//! inline context changes.

use vstd::prelude::*;

verus! {

/// A swing ratio in the open interval (0, 1), kept as an exact decimal
/// fraction `num / den` where `den` is the power of ten matching the
/// number of digits written after the decimal point.
#[derive(Debug, PartialEq, Eq, Clone, Copy)]
pub struct Ratio {
    pub num: u32,
    pub den: u32,
}

impl Ratio {
    /// The ratio lies strictly between 0 and 1.
    pub open spec fn valid(self) -> bool {
        0 < self.num < self.den
    }
}

#[derive(Debug, PartialEq)]
pub struct Score {
    pub headers: Vec<Header>,
    pub parts: Vec<Part>,
}

#[derive(Debug, PartialEq, Clone)]
pub enum Header {
    Title(String),
    Tempo(u32),
    TimeSignature(u32, u32),
    KeySignature(String, String),
    Swing(Option<(BaseDuration, Ratio)>),
}

#[derive(Debug, PartialEq)]
pub struct Part {
    pub name: String,
    pub instrument: String,
    pub content: Vec<MeasureBlock>,
}

#[derive(Debug, PartialEq)]
pub enum MeasureBlock {
    Measure(Measure),
    ContextChange(ContextChange),
}

#[derive(Debug, PartialEq)]
pub struct Measure {
    pub events: Vec<Event>,
}

#[derive(Debug, PartialEq, Clone)]
pub enum ContextChange {
    Tempo(u32),
    TimeSignature(u32, u32),
    KeySignature(String, String),
    Swing(Option<(BaseDuration, Ratio)>),
}

#[derive(Debug, PartialEq)]
pub enum Event {
    Note(Note),
    Chord(Vec<Pitch>, Option<Duration>, Option<String>, Option<String>),
    Rest(Option<Duration>),
    Tie,
    Tuplet(Tuplet),
    Dynamic(String),
}

#[derive(Debug, PartialEq, Clone)]
pub struct Note {
    pub pitch: Pitch,
    pub duration: Option<Duration>,
    pub dynamic: Option<String>,
    pub articulation: Option<String>,
}

#[derive(Debug, PartialEq, Clone, Copy)]
pub struct Pitch {
    pub step: char,
    pub accidental: Option<Accidental>,
    pub octave: i32,
}

#[derive(Debug, PartialEq, Clone, Copy)]
pub enum Accidental {
    Sharp,
    Flat,
}

#[derive(Debug, PartialEq)]
pub struct Tuplet {
    pub p: u32,
    pub q: u32,
    pub events: Vec<Event>,
}

/// A duration is a base note value plus a dot count. `Subdivision` and
/// `Fraction` are part of the surface type but have no lowering; handing
/// them to the walker is a hard error.
#[derive(Debug, PartialEq, Clone)]
pub enum Duration {
    Base(BaseDuration, u8),
    Subdivision(BaseDuration, u32),
    Fraction(u32, u32),
}

#[derive(Debug, PartialEq, Clone, Copy)]
pub enum BaseDuration {
    Whole,
    Half,
    Quarter,
    Eighth,
    Sixteenth,
}

} // verus!

use vstd::prelude::*;

verus! {

/// Spec-level images of the tree: strings become character sequences,
/// vectors become sequences. Contracts speak of these.
pub enum HeaderView {
    Title(Seq<char>),
    Tempo(u32),
    TimeSignature(u32, u32),
    KeySignature(Seq<char>, Seq<char>),
    Swing(Option<(BaseDuration, Ratio)>),
}

pub struct ScoreView {
    pub headers: Seq<HeaderView>,
    pub parts: Seq<PartView>,
}

pub struct PartView {
    pub name: Seq<char>,
    pub instrument: Seq<char>,
    pub content: Seq<MeasureBlockView>,
}

pub enum MeasureBlockView {
    Measure(MeasureView),
    ContextChange(ContextChangeView),
}

pub struct MeasureView {
    pub events: Seq<EventView>,
}

pub enum ContextChangeView {
    Tempo(u32),
    TimeSignature(u32, u32),
    KeySignature(Seq<char>, Seq<char>),
    Swing(Option<(BaseDuration, Ratio)>),
}

pub enum EventView {
    Note(NoteView),
    Chord(Seq<Pitch>, Option<Duration>, Option<Seq<char>>, Option<Seq<char>>),
    Rest(Option<Duration>),
    Tie,
    Tuplet(TupletView),
    Dynamic(Seq<char>),
}

pub struct NoteView {
    pub pitch: Pitch,
    pub duration: Option<Duration>,
    pub dynamic: Option<Seq<char>>,
    pub articulation: Option<Seq<char>>,
}

pub struct TupletView {
    pub p: u32,
    pub q: u32,
    pub events: Seq<EventView>,
}

impl DeepView for Pitch {
    type V = Pitch;

    open spec fn deep_view(&self) -> Pitch {
        *self
    }
}

impl DeepView for Accidental {
    type V = Accidental;

    open spec fn deep_view(&self) -> Accidental {
        *self
    }
}

impl DeepView for BaseDuration {
    type V = BaseDuration;

    open spec fn deep_view(&self) -> BaseDuration {
        *self
    }
}

impl DeepView for Duration {
    type V = Duration;

    open spec fn deep_view(&self) -> Duration {
        *self
    }
}

impl DeepView for Ratio {
    type V = Ratio;

    open spec fn deep_view(&self) -> Ratio {
        *self
    }
}

/// The spec-level images of a sequence of events, in order.
pub open spec fn events_deep_view(s: Seq<Event>) -> Seq<EventView>
    decreases s,
{
    if s.len() == 0 {
        Seq::empty()
    } else {
        seq![event_deep_view(s[0])] + events_deep_view(s.drop_first())
    }
}

/// The spec-level image of one event; recursive through tuplets.
pub open spec fn event_deep_view(e: Event) -> EventView
    decreases e,
{
    match e {
        Event::Note(n) => EventView::Note(
            NoteView {
                pitch: n.pitch,
                duration: n.duration,
                dynamic: n.dynamic.deep_view(),
                articulation: n.articulation.deep_view(),
            },
        ),
        Event::Chord(pitches, duration, dynamic, articulation) => EventView::Chord(
            pitches.deep_view(),
            duration,
            dynamic.deep_view(),
            articulation.deep_view(),
        ),
        Event::Rest(duration) => EventView::Rest(duration),
        Event::Tie => EventView::Tie,
        Event::Tuplet(t) => EventView::Tuplet(
            TupletView { p: t.p, q: t.q, events: events_deep_view(t.events@) },
        ),
        Event::Dynamic(s) => EventView::Dynamic(s@),
    }
}

impl DeepView for Event {
    type V = EventView;

    open spec fn deep_view(&self) -> EventView {
        event_deep_view(*self)
    }
}

impl DeepView for Note {
    type V = NoteView;

    open spec fn deep_view(&self) -> NoteView {
        NoteView {
            pitch: self.pitch,
            duration: self.duration,
            dynamic: self.dynamic.deep_view(),
            articulation: self.articulation.deep_view(),
        }
    }
}

impl DeepView for Tuplet {
    type V = TupletView;

    open spec fn deep_view(&self) -> TupletView {
        TupletView { p: self.p, q: self.q, events: events_deep_view(self.events@) }
    }
}

impl DeepView for Measure {
    type V = MeasureView;

    open spec fn deep_view(&self) -> MeasureView {
        MeasureView { events: events_deep_view(self.events@) }
    }
}

impl DeepView for ContextChange {
    type V = ContextChangeView;

    open spec fn deep_view(&self) -> ContextChangeView {
        match self {
            ContextChange::Tempo(bpm) => ContextChangeView::Tempo(*bpm),
            ContextChange::TimeSignature(n, d) => ContextChangeView::TimeSignature(*n, *d),
            ContextChange::KeySignature(root, scale) => ContextChangeView::KeySignature(
                root@,
                scale@,
            ),
            ContextChange::Swing(sw) => ContextChangeView::Swing(*sw),
        }
    }
}

impl DeepView for MeasureBlock {
    type V = MeasureBlockView;

    open spec fn deep_view(&self) -> MeasureBlockView {
        match self {
            MeasureBlock::Measure(m) => MeasureBlockView::Measure(m.deep_view()),
            MeasureBlock::ContextChange(cc) => MeasureBlockView::ContextChange(cc.deep_view()),
        }
    }
}

impl DeepView for Header {
    type V = HeaderView;

    open spec fn deep_view(&self) -> HeaderView {
        match self {
            Header::Title(s) => HeaderView::Title(s@),
            Header::Tempo(bpm) => HeaderView::Tempo(*bpm),
            Header::TimeSignature(n, d) => HeaderView::TimeSignature(*n, *d),
            Header::KeySignature(root, scale) => HeaderView::KeySignature(root@, scale@),
            Header::Swing(sw) => HeaderView::Swing(*sw),
        }
    }
}

impl DeepView for Part {
    type V = PartView;

    open spec fn deep_view(&self) -> PartView {
        PartView {
            name: self.name@,
            instrument: self.instrument@,
            content: self.content.deep_view(),
        }
    }
}

impl DeepView for Score {
    type V = ScoreView;

    open spec fn deep_view(&self) -> ScoreView {
        ScoreView { headers: self.headers.deep_view(), parts: self.parts.deep_view() }
    }
}

/// The image of a sequence of events maps each event to its image.
pub proof fn lemma_events_deep_view(s: Seq<Event>)
    ensures
        events_deep_view(s).len() == s.len(),
        forall|i: int| 0 <= i < s.len() ==> events_deep_view(s)[i] == event_deep_view(
            #[trigger] s[i],
        ),
    decreases s,
{
    if s.len() > 0 {
        lemma_events_deep_view(s.drop_first());
        assert forall|i: int| 0 <= i < s.len() implies events_deep_view(s)[i] == event_deep_view(
            #[trigger] s[i],
        ) by {
            if i > 0 {
                assert(s.drop_first()[i - 1] == s[i]);
                assert(events_deep_view(s)[i] == events_deep_view(s.drop_first())[i - 1]);
            }
        }
    }
}

} // verus!
