//! View state for an interactive front end: which pane is shown, which
//! track is selected, and how far the tracker grid is scrolled. The
//! front end owns the event loop and rendering; every decision about
//! the state itself is made here.

use vstd::prelude::*;
use crate::ast::{Header, HeaderView, Score};
use crate::ir::{IrEventKindView, IrEventView, IrScore, IrScoreView, IrTrackView};

verus! {

/// The pane an interactive front end is showing.
#[derive(Debug, Clone, Copy, PartialEq, Eq, Structural)]
pub enum ViewMode {
    Score,
    Tracks,
    Help,
}

/// The state of an external playback engine, as the front ends report
/// it.
#[derive(Debug, Clone, Copy, PartialEq, Eq, Structural)]
pub enum PlaybackState {
    Stopped,
    Playing,
    Paused,
}

/// A key press, reduced to the commands the view reacts to.
#[derive(Debug, Clone, Copy, PartialEq, Eq, Structural)]
pub enum KeyInput {
    Quit,
    CycleView,
    Help,
    Digit(u8),
    Other,
}

/// The view state: the compiled score, the pane, the selection and the
/// scroll position, in beats.
pub struct AppState {
    pub score_path: String,
    pub ast: Score,
    pub ir: IrScore,
    pub view_mode: ViewMode,
    pub selected_track: usize,
    pub running: bool,
    pub scroll_beat: u32,
    pub total_beats: u32,
    pub beats_visible: u32,
}

/// The tick where an event's sound ends: a note ends after its
/// duration, anything else is instantaneous.
pub open spec fn spec_event_end(e: IrEventView) -> int {
    e.time + (match e.kind {
        IrEventKindView::Note { pitch, velocity, duration } => duration as int,
        _ => 0,
    })
}

/// The largest end tick among a track's events from index `i` on.
pub open spec fn spec_max_end_events(events: Seq<IrEventView>, i: int) -> int
    decreases events.len() - i,
{
    if !(0 <= i < events.len()) {
        0
    } else {
        let rest = spec_max_end_events(events, i + 1);
        if spec_event_end(events[i]) > rest {
            spec_event_end(events[i])
        } else {
            rest
        }
    }
}

/// The largest end tick in the whole score from track `i` on.
pub open spec fn spec_max_end_tracks(tracks: Seq<IrTrackView>, i: int) -> int
    decreases tracks.len() - i,
{
    if !(0 <= i < tracks.len()) {
        0
    } else {
        let rest = spec_max_end_tracks(tracks, i + 1);
        if spec_max_end_events(tracks[i].events, 0) > rest {
            spec_max_end_events(tracks[i].events, 0)
        } else {
            rest
        }
    }
}

/// The score's length in beats: its largest end tick divided by the
/// resolution, plus one, capped at the 32-bit range.
pub open spec fn spec_total_beats(ir: IrScoreView) -> int {
    let beats = spec_max_end_tracks(ir.tracks, 0) / (ir.ppq as int) + 1;
    if beats > u32::MAX {
        u32::MAX as int
    } else {
        beats
    }
}

/// The first title header, if any.
pub open spec fn spec_title(headers: Seq<HeaderView>, i: int) -> Option<Seq<char>>
    decreases headers.len() - i,
{
    if !(0 <= i < headers.len()) {
        None
    } else {
        match headers[i] {
            HeaderView::Title(t) => Some(t),
            _ => spec_title(headers, i + 1),
        }
    }
}

/// The first tempo header, or the 120 default.
pub open spec fn spec_header_tempo(headers: Seq<HeaderView>, i: int) -> u32
    decreases headers.len() - i,
{
    if !(0 <= i < headers.len()) {
        120
    } else {
        match headers[i] {
            HeaderView::Tempo(bpm) => bpm,
            _ => spec_header_tempo(headers, i + 1),
        }
    }
}

/// The first time-signature header, or the 4/4 default.
pub open spec fn spec_header_ts(headers: Seq<HeaderView>, i: int) -> (u32, u32)
    decreases headers.len() - i,
{
    if !(0 <= i < headers.len()) {
        (4u32, 4u32)
    } else {
        match headers[i] {
            HeaderView::TimeSignature(n, d) => (n, d),
            _ => spec_header_ts(headers, i + 1),
        }
    }
}

/// The first key-signature header, if any.
pub open spec fn spec_header_key(headers: Seq<HeaderView>, i: int) -> Option<
    (Seq<char>, Seq<char>),
>
    decreases headers.len() - i,
{
    if !(0 <= i < headers.len()) {
        None
    } else {
        match headers[i] {
            HeaderView::KeySignature(root, scale) => Some((root, scale)),
            _ => spec_header_key(headers, i + 1),
        }
    }
}

/// The largest end tick among a track's events from index `i` on.
fn max_end_events(events: &Vec<crate::ir::IrEvent>, i: usize) -> (r: u64)
    requires
        i <= events@.len(),
    ensures
        r as int == spec_max_end_events(events.deep_view(), i as int),
        r <= 0x2_0000_0000,
    decreases events@.len() - i,
{
    if i >= events.len() {
        return 0;
    }
    let rest = max_end_events(events, i + 1);
    let e = &events[i];
    let end: u64 = match &e.kind {
        crate::ir::IrEventKind::Note { pitch, velocity, duration } => (e.time as u64) + (
        *duration as u64),
        _ => e.time as u64,
    };
    if end > rest {
        end
    } else {
        rest
    }
}

/// The largest end tick in the whole score from track `i` on.
fn max_end_tracks(tracks: &Vec<crate::ir::IrTrack>, i: usize) -> (r: u64)
    requires
        i <= tracks@.len(),
    ensures
        r as int == spec_max_end_tracks(tracks.deep_view(), i as int),
        r <= 0x2_0000_0000,
    decreases tracks@.len() - i,
{
    if i >= tracks.len() {
        return 0;
    }
    let rest = max_end_tracks(tracks, i + 1);
    let m = max_end_events(&tracks[i].events, 0);
    if m > rest {
        m
    } else {
        rest
    }
}

impl AppState {
    /// The score's length in beats; see `spec_total_beats`.
    pub fn calculate_total_beats(ir: &IrScore) -> (r: u32)
        requires
            ir.ppq >= 1,
        ensures
            r as int == spec_total_beats(ir.deep_view()),
    {
        let max_tick = max_end_tracks(&ir.tracks, 0);
        let beats: u64 = max_tick / (ir.ppq as u64) + 1;
        if beats > u32::MAX as u64 {
            u32::MAX
        } else {
            beats as u32
        }
    }

    /// A fresh view state on the score pane, scrolled to the start.
    pub fn new(score_path: String, ast: Score, ir: IrScore) -> (r: AppState)
        requires
            ir.ppq >= 1,
        ensures
            r.score_path == score_path,
            r.ast == ast,
            r.ir == ir,
            r.view_mode == ViewMode::Score,
            r.selected_track == 0,
            r.running == true,
            r.scroll_beat == 0,
            r.total_beats as int == spec_total_beats(ir.deep_view()),
            r.beats_visible == 16,
    {
        let total_beats = Self::calculate_total_beats(&ir);
        AppState {
            score_path,
            ast,
            ir,
            view_mode: ViewMode::Score,
            selected_track: 0,
            running: true,
            scroll_beat: 0,
            total_beats,
            beats_visible: 16,
        }
    }

    /// Scrolls left, stopping at the start.
    pub fn scroll_left(&mut self, amount: u32)
        ensures
            final(self).scroll_beat as int == (if old(self).scroll_beat >= amount {
                old(self).scroll_beat - amount
            } else {
                0int
            }),
            *final(self) == (AppState { scroll_beat: final(self).scroll_beat, ..*old(self) }),
    {
        self.scroll_beat = if self.scroll_beat >= amount {
            self.scroll_beat - amount
        } else {
            0
        };
    }

    /// Scrolls right, stopping where the last visible beats fit.
    pub fn scroll_right(&mut self, amount: u32)
        ensures
            ({
                let max_scroll: u32 = (if old(self).total_beats >= old(self).beats_visible {
                    (old(self).total_beats - old(self).beats_visible) as u32
                } else {
                    0u32
                });
                let target = old(self).scroll_beat + amount;
                final(self).scroll_beat == (if target > max_scroll as int {
                    max_scroll
                } else {
                    target as u32
                })
            }),
            *final(self) == (AppState { scroll_beat: final(self).scroll_beat, ..*old(self) }),
    {
        let max_scroll: u32 = if self.total_beats >= self.beats_visible {
            self.total_beats - self.beats_visible
        } else {
            0
        };
        let target: u64 = (self.scroll_beat as u64) + (amount as u64);
        self.scroll_beat = if target > max_scroll as u64 {
            max_scroll
        } else {
            target as u32
        };
    }

    /// Scrolls to the start.
    pub fn scroll_home(&mut self)
        ensures
            final(self).scroll_beat == 0,
            *final(self) == (AppState { scroll_beat: 0, ..*old(self) }),
    {
        self.scroll_beat = 0;
    }

    /// Scrolls to the end.
    pub fn scroll_end(&mut self)
        ensures
            final(self).scroll_beat == (if old(self).total_beats >= old(self).beats_visible {
                (old(self).total_beats - old(self).beats_visible) as u32
            } else {
                0u32
            }),
            *final(self) == (AppState { scroll_beat: final(self).scroll_beat, ..*old(self) }),
    {
        self.scroll_beat = if self.total_beats >= self.beats_visible {
            self.total_beats - self.beats_visible
        } else {
            0
        };
    }

    /// The first title header, if any.
    pub fn title(&self) -> (r: Option<&str>)
        ensures
            (match spec_title(self.ast.headers.deep_view(), 0) {
                Some(t) => r is Some && r->0@ == t,
                None => r is None,
            }),
    {
        title_at(&self.ast.headers, 0)
    }

    /// The first tempo header, or 120.
    pub fn tempo(&self) -> (r: u32)
        ensures
            r == spec_header_tempo(self.ast.headers.deep_view(), 0),
    {
        tempo_at(&self.ast.headers, 0)
    }

    /// The first time-signature header, or 4/4.
    pub fn time_signature(&self) -> (r: (u32, u32))
        ensures
            r == spec_header_ts(self.ast.headers.deep_view(), 0),
    {
        ts_at(&self.ast.headers, 0)
    }

    /// The first key-signature header, if any.
    pub fn key_signature(&self) -> (r: Option<(&str, &str)>)
        ensures
            (match spec_header_key(self.ast.headers.deep_view(), 0) {
                Some(k) => r is Some && (r->0).0@ == k.0 && (r->0).1@ == k.1,
                None => r is None,
            }),
    {
        key_at(&self.ast.headers, 0)
    }

    /// How many tracks the lowered score has.
    pub fn track_count(&self) -> (r: usize)
        ensures
            r == self.ir.tracks@.len(),
    {
        self.ir.tracks.len()
    }

    /// The track names, in order.
    pub fn track_names(&self) -> (r: Vec<&str>)
        ensures
            r@.len() == self.ir.tracks@.len(),
            forall|i: int| 0 <= i < r@.len() ==> r@[i]@ == self.ir.tracks.deep_view()[i].name,
    {
        let mut names: Vec<&str> = Vec::new();
        let mut i: usize = 0;
        while i < self.ir.tracks.len()
            invariant
                i <= self.ir.tracks@.len(),
                names@.len() == i,
                forall|j: int| 0 <= j < i ==> names@[j]@ == self.ir.tracks.deep_view()[j].name,
            decreases self.ir.tracks@.len() - i,
        {
            names.push(self.ir.tracks[i].name.as_str());
            i = i + 1;
        }
        names
    }
}

/// The first title header from index `i` on.
fn title_at(headers: &Vec<Header>, i: usize) -> (r: Option<&str>)
    requires
        i <= headers@.len(),
    ensures
        (match spec_title(headers.deep_view(), i as int) {
            Some(t) => r is Some && r->0@ == t,
            None => r is None,
        }),
    decreases headers@.len() - i,
{
    if i >= headers.len() {
        return None;
    }
    match &headers[i] {
        Header::Title(t) => Some(t.as_str()),
        _ => title_at(headers, i + 1),
    }
}

/// The first tempo header from index `i` on, or 120.
fn tempo_at(headers: &Vec<Header>, i: usize) -> (r: u32)
    requires
        i <= headers@.len(),
    ensures
        r == spec_header_tempo(headers.deep_view(), i as int),
    decreases headers@.len() - i,
{
    if i >= headers.len() {
        return 120;
    }
    match &headers[i] {
        Header::Tempo(bpm) => *bpm,
        _ => tempo_at(headers, i + 1),
    }
}

/// The first time-signature header from index `i` on, or 4/4.
fn ts_at(headers: &Vec<Header>, i: usize) -> (r: (u32, u32))
    requires
        i <= headers@.len(),
    ensures
        r == spec_header_ts(headers.deep_view(), i as int),
    decreases headers@.len() - i,
{
    if i >= headers.len() {
        return (4, 4);
    }
    match &headers[i] {
        Header::TimeSignature(n, d) => (*n, *d),
        _ => ts_at(headers, i + 1),
    }
}

/// The first key-signature header from index `i` on.
fn key_at(headers: &Vec<Header>, i: usize) -> (r: Option<(&str, &str)>)
    requires
        i <= headers@.len(),
    ensures
        (match spec_header_key(headers.deep_view(), i as int) {
            Some(k) => r is Some && (r->0).0@ == k.0 && (r->0).1@ == k.1,
            None => r is None,
        }),
    decreases headers@.len() - i,
{
    if i >= headers.len() {
        return None;
    }
    match &headers[i] {
        Header::KeySignature(root, scale) => Some((root.as_str(), scale.as_str())),
        _ => key_at(headers, i + 1),
    }
}

/// The pane shown after the current one.
pub open spec fn spec_next_view(v: ViewMode) -> ViewMode {
    match v {
        ViewMode::Score => ViewMode::Tracks,
        ViewMode::Tracks => ViewMode::Help,
        ViewMode::Help => ViewMode::Score,
    }
}

/// Applies one key press to the view state: quit keys stop the loop,
/// the cycle key advances the pane, the help key opens help, and a
/// nonzero digit selects that track when it exists.
pub fn handle_key(key: KeyInput, state: &mut AppState)
    ensures
        (match key {
            KeyInput::Quit => *final(state) == (AppState { running: false, ..*old(state) }),
            KeyInput::CycleView => *final(state) == (AppState {
                view_mode: spec_next_view(old(state).view_mode),
                ..*old(state)
            }),
            KeyInput::Help => *final(state) == (AppState {
                view_mode: ViewMode::Help,
                ..*old(state)
            }),
            KeyInput::Digit(d) => *final(state) == (if 1 <= d && d as int
                <= old(state).ir.tracks@.len() {
                AppState { selected_track: (d - 1) as usize, ..*old(state) }
            } else {
                *old(state)
            }),
            KeyInput::Other => *final(state) == *old(state),
        }),
{
    match key {
        KeyInput::Quit => {
            state.running = false;
        },
        KeyInput::CycleView => {
            state.view_mode = match state.view_mode {
                ViewMode::Score => ViewMode::Tracks,
                ViewMode::Tracks => ViewMode::Help,
                ViewMode::Help => ViewMode::Score,
            };
        },
        KeyInput::Help => {
            state.view_mode = ViewMode::Help;
        },
        KeyInput::Digit(d) => {
            if 1 <= d && (d as usize) <= state.ir.tracks.len() {
                state.selected_track = (d - 1) as usize;
            }
        },
        KeyInput::Other => {},
    }
}

/// The note names within an octave, sharps for the black keys.
pub open spec fn spec_note_name(index: int) -> Seq<char> {
    if index == 0 {
        "C"@
    } else if index == 1 {
        "C#"@
    } else if index == 2 {
        "D"@
    } else if index == 3 {
        "D#"@
    } else if index == 4 {
        "E"@
    } else if index == 5 {
        "F"@
    } else if index == 6 {
        "F#"@
    } else if index == 7 {
        "G"@
    } else if index == 8 {
        "G#"@
    } else if index == 9 {
        "A"@
    } else if index == 10 {
        "A#"@
    } else {
        "B"@
    }
}

/// The octave digits of a MIDI pitch, scientific convention: pitch 0
/// sits in octave -1, pitch 60 in octave 4.
pub open spec fn spec_octave_digits(pitch: u8) -> Seq<char> {
    let oct = pitch as int / 12 - 1;
    if oct == -1 {
        "-1"@
    } else if oct == 0 {
        "0"@
    } else if oct == 1 {
        "1"@
    } else if oct == 2 {
        "2"@
    } else if oct == 3 {
        "3"@
    } else if oct == 4 {
        "4"@
    } else if oct == 5 {
        "5"@
    } else if oct == 6 {
        "6"@
    } else if oct == 7 {
        "7"@
    } else if oct == 8 {
        "8"@
    } else {
        "9"@
    }
}

/// The display name of a MIDI pitch: note name plus octave, as in
/// `C4` for pitch 60.
pub fn pitch_to_name(pitch: u8) -> (r: String)
    ensures
        r@ == spec_note_name(pitch as int % 12) + spec_octave_digits(pitch),
{
    let note: &str = match pitch % 12 {
        0 => "C",
        1 => "C#",
        2 => "D",
        3 => "D#",
        4 => "E",
        5 => "F",
        6 => "F#",
        7 => "G",
        8 => "G#",
        9 => "A",
        10 => "A#",
        _ => "B",
    };
    let octave: &str = match pitch / 12 {
        0 => "-1",
        1 => "0",
        2 => "1",
        3 => "2",
        4 => "3",
        5 => "4",
        6 => "5",
        7 => "6",
        8 => "7",
        9 => "8",
        _ => "9",
    };
    let mut s = String::from_str(note);
    s.append(octave);
    s
}

} // verus!
