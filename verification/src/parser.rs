//! The recursive-descent parser for the notation language. A score is
//! zero or more headers followed by one or more parts; header and
//! context-change values are told apart by their shape, not by their
//! keyword; measures are pipe-delimited; notes carry optional duration,
//! dynamic and octave suffixes. Parsing is all-or-nothing: any input
//! that does not match the grammar yields a `SyntaxError` with the
//! offending position, and no partial tree.

use vstd::prelude::*;
use crate::ast::{Accidental, BaseDuration, Duration, Pitch, Ratio};

verus! {

/// A grammar mismatch, carrying the byte offset (in characters) where
/// matching failed.
#[derive(Debug, PartialEq, Eq, Structural, Clone, Copy)]
pub struct SyntaxError {
    pub pos: usize,
}

impl SyntaxError {
    /// A short description of the error.
    pub fn message(&self) -> &'static str {
        "source text does not match the grammar"
    }
}

/// Space, tab and line-break characters.
pub open spec fn spec_is_ws(c: char) -> bool {
    c == ' ' || c == '\t' || c == '\n' || c == '\r'
}

/// A decimal digit.
pub open spec fn spec_is_digit(c: char) -> bool {
    '0' <= c && c <= '9'
}

/// A character that can stand inside a bare token: anything except
/// whitespace and the grammar's delimiters.
pub open spec fn spec_is_word_char(c: char) -> bool {
    !spec_is_ws(c) && c != '|' && c != '[' && c != ']' && c != '{' && c != '}' && c != '(' && c
        != ')' && c != ':' && c != '"' && c != '/'
}

/// The position of the next line break at or after `pos`.
pub open spec fn spec_line_end(s: Seq<char>, pos: int) -> int
    decreases s.len() - pos,
{
    if !(0 <= pos < s.len()) {
        pos
    } else if s[pos] == '\n' {
        pos
    } else {
        spec_line_end(s, pos + 1)
    }
}

/// The line end never lies before its start.
pub proof fn lemma_line_end(s: Seq<char>, pos: int)
    ensures
        spec_line_end(s, pos) >= pos,
        spec_line_end(s, pos) <= vstd::math::max(pos, s.len() as int),
    decreases s.len() - pos,
{
    if 0 <= pos < s.len() && s[pos] != '\n' {
        lemma_line_end(s, pos + 1);
    }
}

/// The first position at or after `pos` that holds neither whitespace
/// nor a line comment.
pub open spec fn spec_skip_ws(s: Seq<char>, pos: int) -> int
    decreases s.len() - pos,
    when true
    via spec_skip_ws_decreases
{
    if !(0 <= pos < s.len()) {
        pos
    } else if spec_is_ws(s[pos]) {
        spec_skip_ws(s, pos + 1)
    } else if s[pos] == '/' && pos + 1 < s.len() && s[pos + 1] == '/' {
        spec_skip_ws(s, spec_line_end(s, pos + 2))
    } else {
        pos
    }
}

#[via_fn]
proof fn spec_skip_ws_decreases(s: Seq<char>, pos: int) {
    if 0 <= pos < s.len() && !spec_is_ws(s[pos]) && s[pos] == '/' && pos + 1 < s.len() && s[pos
        + 1] == '/' {
        lemma_line_end(s, pos + 2);
    }
}

/// Skipping whitespace never moves backwards and stays within bounds.
pub proof fn lemma_skip_ws(s: Seq<char>, pos: int)
    requires
        0 <= pos <= s.len(),
    ensures
        pos <= spec_skip_ws(s, pos) <= s.len(),
    decreases s.len() - pos,
{
    if 0 <= pos < s.len() {
        if spec_is_ws(s[pos]) {
            lemma_skip_ws(s, pos + 1);
        } else if s[pos] == '/' && pos + 1 < s.len() && s[pos + 1] == '/' {
            lemma_line_end(s, pos + 2);
            lemma_skip_ws(s, spec_line_end(s, pos + 2));
        }
    }
}

/// The end of the bare token starting at `pos`.
pub open spec fn spec_word_end(s: Seq<char>, pos: int) -> int
    decreases s.len() - pos,
{
    if !(0 <= pos < s.len()) {
        pos
    } else if spec_is_word_char(s[pos]) {
        spec_word_end(s, pos + 1)
    } else {
        pos
    }
}

/// A word never ends before it starts, and ends within the input.
pub proof fn lemma_word_end(s: Seq<char>, pos: int)
    requires
        0 <= pos <= s.len(),
    ensures
        pos <= spec_word_end(s, pos) <= s.len(),
    decreases s.len() - pos,
{
    if 0 <= pos < s.len() && spec_is_word_char(s[pos]) {
        lemma_word_end(s, pos + 1);
    }
}

/// Skips whitespace and line comments.
pub fn skip_ws(chars: &Vec<char>, pos: usize) -> (r: usize)
    requires
        pos <= chars@.len(),
    ensures
        r as int == spec_skip_ws(chars@, pos as int),
        pos <= r <= chars@.len(),
    decreases chars@.len() - pos,
{
    proof {
        lemma_skip_ws(chars@, pos as int);
    }
    if pos >= chars.len() {
        return pos;
    }
    let c = chars[pos];
    if c == ' ' || c == '\t' || c == '\n' || c == '\r' {
        skip_ws(chars, pos + 1)
    } else if c == '/' && pos + 1 < chars.len() && chars[pos + 1] == '/' {
        let e = line_end(chars, pos + 2);
        skip_ws(chars, e)
    } else {
        pos
    }
}

/// The position of the next line break at or after `pos`.
fn line_end(chars: &Vec<char>, pos: usize) -> (r: usize)
    requires
        pos <= chars@.len(),
    ensures
        r as int == spec_line_end(chars@, pos as int),
        pos <= r <= chars@.len(),
    decreases chars@.len() - pos,
{
    if pos >= chars.len() {
        pos
    } else if chars[pos] == '\n' {
        pos
    } else {
        line_end(chars, pos + 1)
    }
}

/// The end of the bare token starting at `pos`.
pub fn word_end(chars: &Vec<char>, pos: usize) -> (r: usize)
    requires
        pos <= chars@.len(),
    ensures
        r as int == spec_word_end(chars@, pos as int),
        pos <= r <= chars@.len(),
    decreases chars@.len() - pos,
{
    proof {
        lemma_word_end(chars@, pos as int);
    }
    if pos >= chars.len() {
        return pos;
    }
    let c = chars[pos];
    let ws = c == ' ' || c == '\t' || c == '\n' || c == '\r';
    if !ws && c != '|' && c != '[' && c != ']' && c != '{' && c != '}' && c != '(' && c != ')' && c
        != ':' && c != '"' && c != '/' {
        word_end(chars, pos + 1)
    } else {
        pos
    }
}

} // verus!

use crate::ast::{
    ContextChangeView, EventView, HeaderView, MeasureBlockView, MeasureView, NoteView, PartView,
    ScoreView, TupletView,
};

verus! {

/// The base duration a single letter denotes.
pub open spec fn spec_classify_base_char(c: char) -> Option<BaseDuration> {
    if c == 'w' {
        Some(BaseDuration::Whole)
    } else if c == 'h' {
        Some(BaseDuration::Half)
    } else if c == 'q' {
        Some(BaseDuration::Quarter)
    } else if c == 'e' {
        Some(BaseDuration::Eighth)
    } else if c == 's' {
        Some(BaseDuration::Sixteenth)
    } else {
        None
    }
}

/// Whether every character of `w` from `i` on is a dot.
pub open spec fn spec_all_dots(w: Seq<char>, i: int) -> bool
    decreases w.len() - i,
{
    if i >= w.len() {
        true
    } else {
        w[i] == '.' && spec_all_dots(w, i + 1)
    }
}

/// The duration a token denotes: a base letter plus dots, at most 255.
pub open spec fn spec_classify_duration(w: Seq<char>) -> Option<Duration> {
    if w.len() >= 1 && w.len() - 1 <= 255 && spec_classify_base_char(w[0]) is Some && spec_all_dots(
        w,
        1,
    ) {
        Some(Duration::Base(spec_classify_base_char(w[0])->0, (w.len() - 1) as u8))
    } else {
        None
    }
}

/// A dynamic marking token.
pub open spec fn spec_is_dynamic_word(w: Seq<char>) -> bool {
    w == "ppp"@ || w == "pp"@ || w == "p"@ || w == "mp"@ || w == "mf"@ || w == "f"@ || w == "ff"@
        || w == "fff"@
}

/// The value of the digits of `w` from `i` on, if all remaining
/// characters are digits and the value stays within `cap`.
pub open spec fn spec_word_uint(w: Seq<char>, i: int, acc: int, cap: int) -> Option<int>
    decreases w.len() - i,
{
    if i >= w.len() {
        Some(acc)
    } else if spec_is_digit(w[i]) && acc * 10 + (w[i] as int - '0' as int) <= cap {
        spec_word_uint(w, i + 1, acc * 10 + (w[i] as int - '0' as int), cap)
    } else {
        None
    }
}

/// The pitch a token denotes: a step letter A-G, an optional accidental,
/// and an optional signed octave (4 when absent).
pub open spec fn spec_classify_pitch(w: Seq<char>) -> Option<Pitch> {
    if w.len() == 0 {
        None
    } else if !('A' <= w[0] && w[0] <= 'G') {
        None
    } else {
        let acc: Option<Accidental> = if w.len() > 1 && w[1] == '#' {
            Some(Accidental::Sharp)
        } else if w.len() > 1 && w[1] == 'b' {
            Some(Accidental::Flat)
        } else {
            None
        };
        let i: int = if acc is Some {
            2
        } else {
            1
        };
        if i == w.len() {
            Some(Pitch { step: w[0], accidental: acc, octave: 4 })
        } else {
            let neg = w[i] == '-';
            let j: int = if neg {
                i + 1
            } else {
                i
            };
            if j >= w.len() {
                None
            } else {
                match spec_word_uint(w, j, 0, 0x7fffffff) {
                    None => None,
                    Some(v) => Some(
                        Pitch {
                            step: w[0],
                            accidental: acc,
                            octave: (if neg {
                                -v
                            } else {
                                v
                            }) as i32,
                        },
                    ),
                }
            }
        }
    }
}

/// Powers of ten for ratio denominators, one per digit count.
pub open spec fn spec_pow10(k: int) -> u32 {
    if k == 1 {
        10u32
    } else if k == 2 {
        100u32
    } else if k == 3 {
        1000u32
    } else if k == 4 {
        10000u32
    } else if k == 5 {
        100000u32
    } else if k == 6 {
        1000000u32
    } else if k == 7 {
        10000000u32
    } else if k == 8 {
        100000000u32
    } else if k == 9 {
        1000000000u32
    } else {
        0u32
    }
}

/// The swing ratio a token denotes: `0.` followed by one to nine
/// digits, with a nonzero value.
pub open spec fn spec_classify_ratio(w: Seq<char>) -> Option<Ratio> {
    if w.len() >= 3 && w.len() - 2 <= 9 && w[0] == '0' && w[1] == '.' {
        match spec_word_uint(w, 2, 0, 0xffffffff) {
            None => None,
            Some(v) => if v > 0 {
                Some(Ratio { num: v as u32, den: spec_pow10(w.len() - 2) })
            } else {
                None
            },
        }
    } else {
        None
    }
}

/// A key-signature root token: a step letter with an optional
/// accidental.
pub open spec fn spec_is_root_word(w: Seq<char>) -> bool {
    (w.len() == 1 && 'A' <= w[0] && w[0] <= 'G') || (w.len() == 2 && 'A' <= w[0] && w[0] <= 'G' && (
    w[1] == '#' || w[1] == 'b'))
}

/// The value of the digit run starting at `pos`, with its end; rejects
/// values beyond the 32-bit range.
pub open spec fn spec_scan_uint(s: Seq<char>, pos: int, acc: int) -> Result<(int, int), SyntaxError>
    decreases s.len() - pos,
{
    if !(0 <= pos < s.len()) || !spec_is_digit(s[pos]) {
        Ok((acc, pos))
    } else if acc * 10 + (s[pos] as int - '0' as int) > u32::MAX {
        Err(SyntaxError { pos: pos as usize })
    } else {
        spec_scan_uint(s, pos + 1, acc * 10 + (s[pos] as int - '0' as int))
    }
}

/// The first `"` at or after `pos`.
pub open spec fn spec_string_content_end(s: Seq<char>, pos: int) -> int
    decreases s.len() - pos,
{
    if !(0 <= pos < s.len()) {
        pos
    } else if s[pos] == '"' {
        pos
    } else {
        spec_string_content_end(s, pos + 1)
    }
}

/// A quoted string starting at `pos`: its contents and the position
/// after the closing quote.
pub open spec fn spec_parse_string(s: Seq<char>, pos: int) -> Result<(Seq<char>, int), SyntaxError> {
    if 0 <= pos < s.len() && s[pos] == '"' {
        let e = spec_string_content_end(s, pos + 1);
        if e < s.len() {
            Ok((s.subrange(pos + 1, e), e + 1))
        } else {
            Err(SyntaxError { pos: pos as usize })
        }
    } else {
        Err(SyntaxError { pos: if 0 <= pos <= usize::MAX { pos as usize } else { 0 } })
    }
}

/// A header or context-change value, told apart by shape: a quoted
/// string is a title; an integer is a tempo, unless a `/` and a second
/// integer follow, which makes a time signature; `off` or a duration
/// letter and a ratio make a swing directive; a root and a quoted scale
/// make a key signature.
pub open spec fn spec_parse_header_value(s: Seq<char>, pos: int) -> Result<
    (HeaderView, int),
    SyntaxError,
> {
    let p = spec_skip_ws(s, pos);
    if p < s.len() && s[p] == '"' {
        match spec_parse_string(s, p) {
            Err(e) => Err(e),
            Ok((content, p2)) => Ok((HeaderView::Title(content), p2)),
        }
    } else if p < s.len() && spec_is_digit(s[p]) {
        match spec_scan_uint(s, p, 0) {
            Err(e) => Err(e),
            Ok((n, p2)) => {
                let q = spec_skip_ws(s, p2);
                if q < s.len() && s[q] == '/' {
                    let q2 = spec_skip_ws(s, q + 1);
                    if q2 < s.len() && spec_is_digit(s[q2]) {
                        match spec_scan_uint(s, q2, 0) {
                            Err(e) => Err(e),
                            Ok((d, p3)) => Ok(
                                (HeaderView::TimeSignature(n as u32, d as u32), p3),
                            ),
                        }
                    } else {
                        Err(SyntaxError { pos: q2 as usize })
                    }
                } else {
                    Ok((HeaderView::Tempo(n as u32), p2))
                }
            },
        }
    } else {
        let we = spec_word_end(s, p);
        let w = s.subrange(p, we);
        if w == "off"@ {
            Ok((HeaderView::Swing(None), we))
        } else if w.len() == 1 && spec_classify_base_char(w[0]) is Some {
            let q = spec_skip_ws(s, we);
            let we2 = spec_word_end(s, q);
            let w2 = s.subrange(q, we2);
            match spec_classify_ratio(w2) {
                Some(r) => Ok(
                    (HeaderView::Swing(Some((spec_classify_base_char(w[0])->0, r))), we2),
                ),
                None => Err(SyntaxError { pos: q as usize }),
            }
        } else if spec_is_root_word(w) {
            let q = spec_skip_ws(s, we);
            match spec_parse_string(s, q) {
                Err(e) => Err(e),
                Ok((scale, p2)) => Ok((HeaderView::KeySignature(w, scale), p2)),
            }
        } else {
            Err(SyntaxError { pos: p as usize })
        }
    }
}

/// Leading headers of a score, ending where the first part begins.
pub open spec fn spec_parse_headers(s: Seq<char>, pos: int, fuel: nat) -> Result<
    (Seq<HeaderView>, int),
    SyntaxError,
>
    decreases fuel,
{
    if fuel == 0 {
        Err(SyntaxError { pos: if 0 <= pos <= usize::MAX { pos as usize } else { 0 } })
    } else {
        let p = spec_skip_ws(s, pos);
        let we = spec_word_end(s, p);
        let w = s.subrange(p, we);
        if w == "Part"@ {
            Ok((Seq::empty(), p))
        } else if w == "Title"@ || w == "Tempo"@ || w == "Time"@ || w == "Key"@ || w == "Swing"@ {
            let q = spec_skip_ws(s, we);
            if q < s.len() && s[q] == ':' {
                match spec_parse_header_value(s, q + 1) {
                    Err(e) => Err(e),
                    Ok((h, p2)) => match spec_parse_headers(s, p2, (fuel - 1) as nat) {
                        Err(e) => Err(e),
                        Ok((rest, p3)) => Ok((seq![h] + rest, p3)),
                    },
                }
            } else {
                Err(SyntaxError { pos: q as usize })
            }
        } else {
            Err(SyntaxError { pos: p as usize })
        }
    }
}

/// Whether the keyword `Instrument` followed by a colon stands at `pos`.
pub open spec fn spec_at_instrument(s: Seq<char>, pos: int) -> bool {
    pos + 10 <= s.len() && s.subrange(pos, pos + 10) == "Instrument"@ && {
        let q = spec_skip_ws(s, pos + 10);
        q < s.len() && s[q] == ':'
    }
}

/// The end of a bare name starting at `pos`: it stops at a line break,
/// a brace, a quote, a line comment, and — for part names — before the
/// `Instrument:` keyword.
pub open spec fn spec_bare_name_end(s: Seq<char>, pos: int, part_name: bool) -> int
    decreases s.len() - pos,
{
    if !(0 <= pos < s.len()) {
        pos
    } else if s[pos] == '\n' || s[pos] == '{' || s[pos] == '}' || s[pos] == '"' {
        pos
    } else if s[pos] == '/' && pos + 1 < s.len() && s[pos + 1] == '/' {
        pos
    } else if part_name && spec_at_instrument(s, pos) {
        pos
    } else {
        spec_bare_name_end(s, pos + 1, part_name)
    }
}

/// The first non-whitespace position at or after `i`, within `[i, j]`.
pub open spec fn spec_trim_start(s: Seq<char>, i: int, j: int) -> int
    decreases j - i,
{
    if i >= j {
        j
    } else if spec_is_ws(s[i]) {
        spec_trim_start(s, i + 1, j)
    } else {
        i
    }
}

/// The position after the last non-whitespace character in `[i, j)`.
pub open spec fn spec_trim_end(s: Seq<char>, i: int, j: int) -> int
    decreases j - i,
{
    if j <= i {
        i
    } else if spec_is_ws(s[j - 1]) {
        spec_trim_end(s, i, j - 1)
    } else {
        j
    }
}

/// The name in `[i, j)` with surrounding whitespace removed.
pub open spec fn spec_trimmed(s: Seq<char>, i: int, j: int) -> Seq<char> {
    let a = spec_trim_start(s, i, j);
    let b = spec_trim_end(s, a, j);
    s.subrange(a, b)
}

} // verus!

verus! {

/// One musical event: a note, a chord, a rest, a tuplet, or a bare
/// dynamic marking. `pos` stands on its first character.
pub open spec fn spec_parse_music_event(s: Seq<char>, pos: int, fuel: nat) -> Result<
    (EventView, int),
    SyntaxError,
>
    decreases fuel,
{
    if fuel == 0 {
        Err(SyntaxError { pos: if 0 <= pos <= usize::MAX { pos as usize } else { 0 } })
    } else if 0 <= pos < s.len() && s[pos] == '[' {
        match spec_parse_chord_pitches(s, pos + 1, (fuel - 1) as nat) {
            Err(e) => Err(e),
            Ok((pitches, p2)) => {
                let sfx = spec_parse_suffixes(s, p2);
                Ok((EventView::Chord(pitches, sfx.0, sfx.1, None), sfx.2))
            },
        }
    } else {
        let we = spec_word_end(s, pos);
        let w = s.subrange(pos, we);
        if w == "Tuplet"@ {
            spec_parse_tuplet(s, we, (fuel - 1) as nat)
        } else if w == "r"@ {
            let q = spec_skip_ws(s, we);
            let we2 = spec_word_end(s, q);
            let w2 = s.subrange(q, we2);
            match spec_classify_duration(w2) {
                Some(d) => Ok((EventView::Rest(Some(d)), we2)),
                None => Ok((EventView::Rest(None), we)),
            }
        } else if spec_is_dynamic_word(w) {
            Ok((EventView::Dynamic(w), we))
        } else {
            match spec_classify_pitch(w) {
                Some(pitch) => {
                    let sfx = spec_parse_suffixes(s, we);
                    Ok(
                        (
                            EventView::Note(
                                NoteView {
                                    pitch,
                                    duration: sfx.0,
                                    dynamic: sfx.1,
                                    articulation: None,
                                },
                            ),
                            sfx.2,
                        ),
                    )
                },
                None => Err(
                    SyntaxError { pos: if 0 <= pos <= usize::MAX { pos as usize } else { 0 } },
                ),
            }
        }
    }
}

/// Optional duration and dynamic tokens after a note or chord.
pub open spec fn spec_parse_suffixes(s: Seq<char>, pos: int) -> (
    Option<Duration>,
    Option<Seq<char>>,
    int,
) {
    let q = spec_skip_ws(s, pos);
    let we = spec_word_end(s, q);
    let w = s.subrange(q, we);
    let dur_step: (Option<Duration>, int) = match spec_classify_duration(w) {
        Some(d) => (Some(d), we),
        None => (None, pos),
    };
    let q2 = spec_skip_ws(s, dur_step.1);
    let we2 = spec_word_end(s, q2);
    let w2 = s.subrange(q2, we2);
    if spec_is_dynamic_word(w2) {
        (dur_step.0, Some(w2), we2)
    } else {
        (dur_step.0, None, dur_step.1)
    }
}

/// The pitches of a chord, up to and past the closing bracket.
pub open spec fn spec_parse_chord_pitches(s: Seq<char>, pos: int, fuel: nat) -> Result<
    (Seq<Pitch>, int),
    SyntaxError,
>
    decreases fuel,
{
    if fuel == 0 {
        Err(SyntaxError { pos: if 0 <= pos <= usize::MAX { pos as usize } else { 0 } })
    } else {
        let p = spec_skip_ws(s, pos);
        if p >= s.len() {
            Err(SyntaxError { pos: p as usize })
        } else if s[p] == ']' {
            Ok((Seq::empty(), p + 1))
        } else {
            let we = spec_word_end(s, p);
            let w = s.subrange(p, we);
            if we == p {
                Err(SyntaxError { pos: p as usize })
            } else {
                match spec_classify_pitch(w) {
                    None => Err(SyntaxError { pos: p as usize }),
                    Some(pt) => match spec_parse_chord_pitches(s, we, (fuel - 1) as nat) {
                        Err(e) => Err(e),
                        Ok((rest, p2)) => Ok((seq![pt] + rest, p2)),
                    },
                }
            }
        }
    }
}

/// A tuplet: its ratio in parentheses, then its events in braces.
/// `pos` stands just after the `Tuplet` keyword.
pub open spec fn spec_parse_tuplet(s: Seq<char>, pos: int, fuel: nat) -> Result<
    (EventView, int),
    SyntaxError,
>
    decreases fuel,
{
    let q = spec_skip_ws(s, pos);
    if fuel == 0 {
        Err(SyntaxError { pos: if 0 <= pos <= usize::MAX { pos as usize } else { 0 } })
    } else if !(q < s.len() && s[q] == '(') {
        Err(SyntaxError { pos: if 0 <= q <= usize::MAX { q as usize } else { 0 } })
    } else {
        let q2 = spec_skip_ws(s, q + 1);
        if !(q2 < s.len() && spec_is_digit(s[q2])) {
            Err(SyntaxError { pos: q2 as usize })
        } else {
            match spec_scan_uint(s, q2, 0) {
                Err(e) => Err(e),
                Ok((pn, p2)) => {
                    let q3 = spec_skip_ws(s, p2);
                    if !(q3 < s.len() && s[q3] == ':') {
                        Err(SyntaxError { pos: q3 as usize })
                    } else {
                        let q4 = spec_skip_ws(s, q3 + 1);
                        if !(q4 < s.len() && spec_is_digit(s[q4])) {
                            Err(SyntaxError { pos: q4 as usize })
                        } else {
                            match spec_scan_uint(s, q4, 0) {
                                Err(e) => Err(e),
                                Ok((qn, p3)) => {
                                    let q5 = spec_skip_ws(s, p3);
                                    if !(q5 < s.len() && s[q5] == ')') {
                                        Err(SyntaxError { pos: q5 as usize })
                                    } else {
                                        let q6 = spec_skip_ws(s, q5 + 1);
                                        if !(q6 < s.len() && s[q6] == '{') {
                                            Err(SyntaxError { pos: q6 as usize })
                                        } else {
                                            match spec_parse_events(
                                                s,
                                                q6 + 1,
                                                '}',
                                                (fuel - 1) as nat,
                                            ) {
                                                Err(e) => Err(e),
                                                Ok((evs, p4)) => Ok(
                                                    (
                                                        EventView::Tuplet(
                                                            TupletView {
                                                                p: pn as u32,
                                                                q: qn as u32,
                                                                events: evs,
                                                            },
                                                        ),
                                                        p4,
                                                    ),
                                                ),
                                            }
                                        }
                                    }
                                },
                            }
                        }
                    }
                },
            }
        }
    }
}

/// The events of a measure or tuplet body, up to and past the
/// terminating delimiter.
pub open spec fn spec_parse_events(s: Seq<char>, pos: int, term: char, fuel: nat) -> Result<
    (Seq<EventView>, int),
    SyntaxError,
>
    decreases fuel,
{
    if fuel == 0 {
        Err(SyntaxError { pos: if 0 <= pos <= usize::MAX { pos as usize } else { 0 } })
    } else {
        let p = spec_skip_ws(s, pos);
        if p >= s.len() {
            Err(SyntaxError { pos: p as usize })
        } else if s[p] == term {
            Ok((Seq::empty(), p + 1))
        } else {
            match spec_parse_music_event(s, p, (fuel - 1) as nat) {
                Err(e) => Err(e),
                Ok((ev, p2)) => match spec_parse_events(s, p2, term, (fuel - 1) as nat) {
                    Err(e) => Err(e),
                    Ok((rest, p3)) => Ok((seq![ev] + rest, p3)),
                },
            }
        }
    }
}

/// The measure blocks of a part, up to and past the closing brace:
/// pipe-delimited measures and inline context changes, freely
/// interleaved.
pub open spec fn spec_parse_blocks(s: Seq<char>, pos: int, fuel: nat) -> Result<
    (Seq<MeasureBlockView>, int),
    SyntaxError,
>
    decreases fuel,
{
    if fuel == 0 {
        Err(SyntaxError { pos: if 0 <= pos <= usize::MAX { pos as usize } else { 0 } })
    } else {
        let p = spec_skip_ws(s, pos);
        if p >= s.len() {
            Err(SyntaxError { pos: p as usize })
        } else if s[p] == '}' {
            Ok((Seq::empty(), p + 1))
        } else if s[p] == '|' {
            match spec_parse_events(s, p + 1, '|', (fuel - 1) as nat) {
                Err(e) => Err(e),
                Ok((evs, p2)) => match spec_parse_blocks(s, p2, (fuel - 1) as nat) {
                    Err(e) => Err(e),
                    Ok((rest, p3)) => Ok(
                        (seq![MeasureBlockView::Measure(MeasureView { events: evs })] + rest, p3),
                    ),
                },
            }
        } else {
            let we = spec_word_end(s, p);
            let w = s.subrange(p, we);
            if w == "Tempo"@ || w == "Time"@ || w == "Key"@ || w == "Swing"@ {
                let q = spec_skip_ws(s, we);
                if q < s.len() && s[q] == ':' {
                    match spec_parse_header_value(s, q + 1) {
                        Err(e) => Err(e),
                        Ok((h, p2)) => {
                            let cc = match h {
                                HeaderView::Tempo(bpm) => Some(ContextChangeView::Tempo(bpm)),
                                HeaderView::TimeSignature(n, d) => Some(
                                    ContextChangeView::TimeSignature(n, d),
                                ),
                                HeaderView::KeySignature(root, scale) => Some(
                                    ContextChangeView::KeySignature(root, scale),
                                ),
                                HeaderView::Swing(sw) => Some(ContextChangeView::Swing(sw)),
                                HeaderView::Title(t) => None,
                            };
                            match cc {
                                None => Err(SyntaxError { pos: q as usize }),
                                Some(c) => match spec_parse_blocks(s, p2, (fuel - 1) as nat) {
                                    Err(e) => Err(e),
                                    Ok((rest, p3)) => Ok(
                                        (seq![MeasureBlockView::ContextChange(c)] + rest, p3),
                                    ),
                                },
                            }
                        },
                    }
                } else {
                    Err(SyntaxError { pos: q as usize })
                }
            } else {
                Err(SyntaxError { pos: p as usize })
            }
        }
    }
}

/// One part: its name, its instrument, and its braced content. `pos`
/// stands just after the `Part` keyword's colon.
pub open spec fn spec_parse_part(s: Seq<char>, pos: int, fuel: nat) -> Result<
    (PartView, int),
    SyntaxError,
> {
    let p = spec_skip_ws(s, pos);
    let name_step: Result<(Seq<char>, int), SyntaxError> = if p < s.len() && s[p] == '"' {
        spec_parse_string(s, p)
    } else {
        let e = spec_bare_name_end(s, p, true);
        if e == p {
            Err(SyntaxError { pos: if 0 <= p <= usize::MAX { p as usize } else { 0 } })
        } else {
            Ok((spec_trimmed(s, p, e), e))
        }
    };
    match name_step {
        Err(e) => Err(e),
        Ok((name, p2)) => {
            let q = spec_skip_ws(s, p2);
            let we = spec_word_end(s, q);
            if !(s.subrange(q, we) == "Instrument"@) {
                Err(SyntaxError { pos: q as usize })
            } else {
                let q2 = spec_skip_ws(s, we);
                if !(q2 < s.len() && s[q2] == ':') {
                    Err(SyntaxError { pos: q2 as usize })
                } else {
                    let p3 = spec_skip_ws(s, q2 + 1);
                    let instr_step: Result<(Seq<char>, int), SyntaxError> = if p3 < s.len() && s[p3]
                        == '"' {
                        spec_parse_string(s, p3)
                    } else {
                        let e2 = spec_bare_name_end(s, p3, false);
                        if e2 == p3 {
                            Err(SyntaxError { pos: p3 as usize })
                        } else {
                            Ok((spec_trimmed(s, p3, e2), e2))
                        }
                    };
                    match instr_step {
                        Err(e) => Err(e),
                        Ok((instrument, p4)) => {
                            let q3 = spec_skip_ws(s, p4);
                            if !(q3 < s.len() && s[q3] == '{') {
                                Err(SyntaxError { pos: q3 as usize })
                            } else {
                                match spec_parse_blocks(s, q3 + 1, fuel) {
                                    Err(e) => Err(e),
                                    Ok((content, p5)) => Ok(
                                        (PartView { name, instrument, content }, p5),
                                    ),
                                }
                            }
                        },
                    }
                }
            }
        },
    }
}

/// The parts of a score, to the end of the input.
pub open spec fn spec_parse_parts(s: Seq<char>, pos: int, fuel: nat) -> Result<
    (Seq<PartView>, int),
    SyntaxError,
>
    decreases fuel,
{
    if fuel == 0 {
        Err(SyntaxError { pos: if 0 <= pos <= usize::MAX { pos as usize } else { 0 } })
    } else {
        let p = spec_skip_ws(s, pos);
        if p >= s.len() {
            Ok((Seq::empty(), p))
        } else {
            let we = spec_word_end(s, p);
            if s.subrange(p, we) == "Part"@ {
                let q = spec_skip_ws(s, we);
                if q < s.len() && s[q] == ':' {
                    match spec_parse_part(s, q + 1, (fuel - 1) as nat) {
                        Err(e) => Err(e),
                        Ok((part, p2)) => match spec_parse_parts(s, p2, (fuel - 1) as nat) {
                            Err(e) => Err(e),
                            Ok((rest, p3)) => Ok((seq![part] + rest, p3)),
                        },
                    }
                } else {
                    Err(SyntaxError { pos: q as usize })
                }
            } else {
                Err(SyntaxError { pos: p as usize })
            }
        }
    }
}

/// Parses a whole score: headers, then at least one part, to the end
/// of the input.
pub open spec fn spec_parse(s: Seq<char>) -> Result<ScoreView, SyntaxError> {
    let fuel = (2 * s.len() + 4) as nat;
    match spec_parse_headers(s, 0, fuel) {
        Err(e) => Err(e),
        Ok((headers, p)) => match spec_parse_parts(s, p, fuel) {
            Err(e) => Err(e),
            Ok((parts, p2)) => {
                if parts.len() == 0 {
                    Err(SyntaxError { pos: p2 as usize })
                } else {
                    Ok(ScoreView { headers, parts })
                }
            },
        },
    }
}

} // verus!

use crate::ast::{Event, Header, Measure, MeasureBlock, Note, Part, Score};
use crate::text::{str_eq, string_from_range};

verus! {

/// Copies a range of the input into its own vector.
fn word_chars(chars: &Vec<char>, start: usize, end: usize) -> (r: Vec<char>)
    requires
        start <= end <= chars@.len(),
    ensures
        r@ == chars@.subrange(start as int, end as int),
{
    let mut v: Vec<char> = Vec::new();
    let mut i: usize = start;
    proof {
        assert(v@ =~= chars@.subrange(start as int, start as int));
    }
    while i < end
        invariant
            start <= i <= end <= chars@.len(),
            v@ == chars@.subrange(start as int, i as int),
        decreases end - i,
    {
        v.push(chars[i]);
        proof {
            assert(chars@.subrange(start as int, i as int).push(chars@[i as int])
                =~= chars@.subrange(start as int, i as int + 1));
        }
        i = i + 1;
    }
    v
}

/// Whether a token equals a literal.
fn word_is(w: &Vec<char>, lit: &str) -> (r: bool)
    ensures
        r == (w@ == lit@),
{
    let s = string_from_range(w, 0, w.len());
    proof {
        assert(s@ =~= w@);
    }
    str_eq(s.as_str(), lit)
}

/// Whether every character of `w` from `i` on is a dot.
fn all_dots(w: &Vec<char>, i: usize) -> (r: bool)
    requires
        i <= w@.len(),
    ensures
        r == spec_all_dots(w@, i as int),
    decreases w@.len() - i,
{
    if i >= w.len() {
        true
    } else {
        w[i] == '.' && all_dots(w, i + 1)
    }
}

/// The duration a token denotes; see `spec_classify_duration`.
pub fn parse_duration(w: &Vec<char>) -> (r: Option<Duration>)
    ensures
        r == spec_classify_duration(w@),
{
    if w.len() < 1 || w.len() - 1 > 255 {
        return None;
    }
    let base = match w[0] {
        'w' => Some(BaseDuration::Whole),
        'h' => Some(BaseDuration::Half),
        'q' => Some(BaseDuration::Quarter),
        'e' => Some(BaseDuration::Eighth),
        's' => Some(BaseDuration::Sixteenth),
        _ => None,
    };
    match base {
        None => None,
        Some(b) => {
            if all_dots(w, 1) {
                Some(Duration::Base(b, (w.len() - 1) as u8))
            } else {
                None
            }
        },
    }
}

/// Whether a token is a dynamic marking.
fn is_dynamic_word(w: &Vec<char>) -> (r: bool)
    ensures
        r == spec_is_dynamic_word(w@),
{
    word_is(w, "ppp") || word_is(w, "pp") || word_is(w, "p") || word_is(w, "mp") || word_is(
        w,
        "mf",
    ) || word_is(w, "f") || word_is(w, "ff") || word_is(w, "fff")
}

/// The value of the digits of `w` from `i` on; see `spec_word_uint`.
fn word_uint(w: &Vec<char>, i: usize, acc: u32, cap: u32) -> (r: Option<u32>)
    requires
        i <= w@.len(),
        acc <= cap,
    ensures
        (match spec_word_uint(w@, i as int, acc as int, cap as int) {
            Some(v) => r == Some(v as u32) && 0 <= v <= cap,
            None => r is None,
        }),
    decreases w@.len() - i,
{
    if i >= w.len() {
        Some(acc)
    } else {
        let c = w[i];
        if '0' <= c && c <= '9' {
            let d: u32 = (c as u32) - ('0' as u32);
            let next: u64 = (acc as u64) * 10 + (d as u64);
            if next > cap as u64 {
                None
            } else {
                word_uint(w, i + 1, next as u32, cap)
            }
        } else {
            None
        }
    }
}

/// The pitch a token denotes; see `spec_classify_pitch`.
pub fn parse_pitch(w: &Vec<char>) -> (r: Option<Pitch>)
    ensures
        r == spec_classify_pitch(w@),
{
    if w.len() == 0 {
        return None;
    }
    let step = w[0];
    if !('A' <= step && step <= 'G') {
        return None;
    }
    let acc: Option<Accidental> = if w.len() > 1 && w[1] == '#' {
        Some(Accidental::Sharp)
    } else if w.len() > 1 && w[1] == 'b' {
        Some(Accidental::Flat)
    } else {
        None
    };
    let i: usize = if acc.is_some() {
        2
    } else {
        1
    };
    if i == w.len() {
        return Some(Pitch { step, accidental: acc, octave: 4 });
    }
    let neg = w[i] == '-';
    let j: usize = if neg {
        i + 1
    } else {
        i
    };
    if j >= w.len() {
        return None;
    }
    match word_uint(w, j, 0, 0x7fffffff) {
        None => None,
        Some(v) => {
            let octave: i32 = if neg {
                -(v as i32)
            } else {
                v as i32
            };
            Some(Pitch { step, accidental: acc, octave })
        },
    }
}

/// The swing ratio a token denotes; see `spec_classify_ratio`.
fn parse_ratio(w: &Vec<char>) -> (r: Option<Ratio>)
    ensures
        r == spec_classify_ratio(w@),
{
    if !(w.len() >= 3 && w.len() - 2 <= 9 && w[0] == '0' && w[1] == '.') {
        return None;
    }
    let den: u32 = match w.len() - 2 {
        1 => 10,
        2 => 100,
        3 => 1000,
        4 => 10000,
        5 => 100000,
        6 => 1000000,
        7 => 10000000,
        8 => 100000000,
        _ => 1000000000,
    };
    proof {
        assert(den == spec_pow10(w@.len() - 2));
    }
    match word_uint(w, 2, 0, 0xffffffff) {
        None => None,
        Some(v) => {
            if v > 0 {
                Some(Ratio { num: v, den })
            } else {
                None
            }
        },
    }
}

/// Whether a token is a key-signature root.
fn is_root_word(w: &Vec<char>) -> (r: bool)
    ensures
        r == spec_is_root_word(w@),
{
    (w.len() == 1 && 'A' <= w[0] && w[0] <= 'G') || (w.len() == 2 && 'A' <= w[0] && w[0] <= 'G' && (
    w[1] == '#' || w[1] == 'b'))
}

/// Scans a digit run; see `spec_scan_uint`.
fn scan_uint(chars: &Vec<char>, pos: usize, acc: u32) -> (r: Result<(u32, usize), SyntaxError>)
    requires
        pos <= chars@.len(),
    ensures
        (match spec_scan_uint(chars@, pos as int, acc as int) {
            Ok((v, p)) => r is Ok && r->Ok_0.0 == v as u32 && 0 <= v <= u32::MAX && r->Ok_0.1
                == p as usize && pos <= p <= chars@.len(),
            Err(e) => r == Err::<(u32, usize), SyntaxError>(e),
        }),
    decreases chars@.len() - pos,
{
    if pos >= chars.len() {
        return Ok((acc, pos));
    }
    let c = chars[pos];
    if !('0' <= c && c <= '9') {
        return Ok((acc, pos));
    }
    let d: u32 = (c as u32) - ('0' as u32);
    let next: u64 = (acc as u64) * 10 + (d as u64);
    if next > u32::MAX as u64 {
        return Err(SyntaxError { pos });
    }
    scan_uint(chars, pos + 1, next as u32)
}

/// The first `"` at or after `pos`.
fn string_content_end(chars: &Vec<char>, pos: usize) -> (r: usize)
    requires
        pos <= chars@.len(),
    ensures
        r as int == spec_string_content_end(chars@, pos as int),
        pos <= r <= chars@.len(),
    decreases chars@.len() - pos,
{
    if pos >= chars.len() {
        pos
    } else if chars[pos] == '"' {
        pos
    } else {
        string_content_end(chars, pos + 1)
    }
}

/// A quoted string; see `spec_parse_string`.
fn parse_string_lit(chars: &Vec<char>, pos: usize) -> (r: Result<(String, usize), SyntaxError>)
    requires
        pos <= chars@.len(),
    ensures
        (match spec_parse_string(chars@, pos as int) {
            Ok((content, p)) => r is Ok && r->Ok_0.0@ == content && r->Ok_0.1 == p as usize && pos
                <= p <= chars@.len(),
            Err(e) => r == Err::<(String, usize), SyntaxError>(e),
        }),
{
    if !(pos < chars.len() && chars[pos] == '"') {
        return Err(SyntaxError { pos });
    }
    let e = string_content_end(chars, pos + 1);
    if e >= chars.len() {
        return Err(SyntaxError { pos });
    }
    let content = string_from_range(chars, pos + 1, e);
    Ok((content, e + 1))
}

} // verus!

use crate::ast::{ContextChange, Tuplet};
use crate::text::chars_of;

verus! {

/// A header or context-change value; see `spec_parse_header_value`.
fn parse_header_value(chars: &Vec<char>, pos: usize) -> (r: Result<(Header, usize), SyntaxError>)
    requires
        pos <= chars@.len(),
    ensures
        (match spec_parse_header_value(chars@, pos as int) {
            Ok((hv, p)) => r is Ok && r->Ok_0.0.deep_view() == hv && r->Ok_0.1 == p as usize && 0
                <= p <= chars@.len(),
            Err(e) => r == Err::<(Header, usize), SyntaxError>(e),
        }),
{
    let p = skip_ws(chars, pos);
    if p < chars.len() && chars[p] == '"' {
        let (content, p2) = parse_string_lit(chars, p)?;
        return Ok((Header::Title(content), p2));
    }
    if p < chars.len() && '0' <= chars[p] && chars[p] <= '9' {
        let (n, p2) = scan_uint(chars, p, 0)?;
        let q = skip_ws(chars, p2);
        if q < chars.len() && chars[q] == '/' {
            let q2 = skip_ws(chars, q + 1);
            if q2 < chars.len() && '0' <= chars[q2] && chars[q2] <= '9' {
                let (d, p3) = scan_uint(chars, q2, 0)?;
                return Ok((Header::TimeSignature(n, d), p3));
            }
            return Err(SyntaxError { pos: q2 });
        }
        return Ok((Header::Tempo(n), p2));
    }
    let we = word_end(chars, p);
    let w = word_chars(chars, p, we);
    if word_is(&w, "off") {
        return Ok((Header::Swing(None), we));
    }
    let base: Option<BaseDuration> = if w.len() == 1 {
        match w[0] {
            'w' => Some(BaseDuration::Whole),
            'h' => Some(BaseDuration::Half),
            'q' => Some(BaseDuration::Quarter),
            'e' => Some(BaseDuration::Eighth),
            's' => Some(BaseDuration::Sixteenth),
            _ => None,
        }
    } else {
        None
    };
    if let Some(b) = base {
        let q = skip_ws(chars, we);
        let we2 = word_end(chars, q);
        let w2 = word_chars(chars, q, we2);
        match parse_ratio(&w2) {
            Some(ratio) => {
                return Ok((Header::Swing(Some((b, ratio))), we2));
            },
            None => {
                return Err(SyntaxError { pos: q });
            },
        }
    }
    if is_root_word(&w) {
        let q = skip_ws(chars, we);
        let root = string_from_range(chars, p, we);
        let (scale, p2) = parse_string_lit(chars, q)?;
        return Ok((Header::KeySignature(root, scale), p2));
    }
    Err(SyntaxError { pos: p })
}

/// The leading headers of a score; see `spec_parse_headers`.
fn parse_headers(
    chars: &Vec<char>,
    pos: usize,
    fuel: usize,
    headers: &mut Vec<Header>,
) -> (r: Result<usize, SyntaxError>)
    requires
        pos <= chars@.len(),
    ensures
        (match spec_parse_headers(chars@, pos as int, fuel as nat) {
            Ok((hs, p)) => r is Ok && r->Ok_0 == p as usize && 0 <= p <= chars@.len()
                && final(headers).deep_view() == old(headers).deep_view() + hs,
            Err(e) => r == Err::<usize, SyntaxError>(e),
        }),
    decreases fuel,
{
    if fuel == 0 {
        return Err(SyntaxError { pos });
    }
    let p = skip_ws(chars, pos);
    let we = word_end(chars, p);
    let w = word_chars(chars, p, we);
    if word_is(&w, "Part") {
        proof {
            assert(final(headers).deep_view() =~= old(headers).deep_view() + Seq::<
                crate::ast::HeaderView,
            >::empty());
        }
        return Ok(p);
    }
    if word_is(&w, "Title") || word_is(&w, "Tempo") || word_is(&w, "Time") || word_is(&w, "Key")
        || word_is(&w, "Swing") {
        let q = skip_ws(chars, we);
        if q < chars.len() && chars[q] == ':' {
            let (h, p2) = parse_header_value(chars, q + 1)?;
            let ghost before = headers.deep_view();
            let ghost hview = h.deep_view();
            headers.push(h);
            proof {
                assert(headers.deep_view() =~= before.push(hview));
            }
            let r = parse_headers(chars, p2, fuel - 1, headers);
            proof {
                if r is Ok {
                    let full = spec_parse_headers(chars@, pos as int, fuel as nat);
                    assert(final(headers).deep_view() =~= old(headers).deep_view() + full->Ok_0.0);
                }
            }
            return r;
        }
        return Err(SyntaxError { pos: q });
    }
    Err(SyntaxError { pos: p })
}

/// Whether `Instrument` followed by a colon stands at `pos`.
fn at_instrument(chars: &Vec<char>, pos: usize) -> (r: bool)
    requires
        pos <= chars@.len(),
    ensures
        r == spec_at_instrument(chars@, pos as int),
{
    if chars.len() >= 10 && pos <= chars.len() - 10 {
        let w = word_chars(chars, pos, pos + 10);
        if word_is(&w, "Instrument") {
            let q = skip_ws(chars, pos + 10);
            q < chars.len() && chars[q] == ':'
        } else {
            false
        }
    } else {
        false
    }
}

/// The end of a bare name; see `spec_bare_name_end`.
fn bare_name_end(chars: &Vec<char>, pos: usize, part_name: bool) -> (r: usize)
    requires
        pos <= chars@.len(),
    ensures
        r as int == spec_bare_name_end(chars@, pos as int, part_name),
        pos <= r <= chars@.len(),
    decreases chars@.len() - pos,
{
    if pos >= chars.len() {
        return pos;
    }
    let c = chars[pos];
    if c == '\n' || c == '{' || c == '}' || c == '"' {
        return pos;
    }
    if c == '/' && pos + 1 < chars.len() && chars[pos + 1] == '/' {
        return pos;
    }
    if part_name && at_instrument(chars, pos) {
        return pos;
    }
    bare_name_end(chars, pos + 1, part_name)
}

/// The first non-whitespace position in `[i, j]`.
fn trim_start(chars: &Vec<char>, i: usize, j: usize) -> (r: usize)
    requires
        i <= j <= chars@.len(),
    ensures
        r as int == spec_trim_start(chars@, i as int, j as int),
        i <= r <= j,
    decreases j - i,
{
    if i >= j {
        return j;
    }
    let c = chars[i];
    if c == ' ' || c == '\t' || c == '\n' || c == '\r' {
        trim_start(chars, i + 1, j)
    } else {
        i
    }
}

/// The position after the last non-whitespace character in `[i, j)`.
fn trim_end(chars: &Vec<char>, i: usize, j: usize) -> (r: usize)
    requires
        i <= j <= chars@.len(),
    ensures
        r as int == spec_trim_end(chars@, i as int, j as int),
        i <= r <= j,
    decreases j - i,
{
    if j <= i {
        return i;
    }
    let c = chars[j - 1];
    if c == ' ' || c == '\t' || c == '\n' || c == '\r' {
        trim_end(chars, i, j - 1)
    } else {
        j
    }
}

/// Optional duration and dynamic suffix tokens after a note or chord.
fn parse_suffixes(chars: &Vec<char>, pos: usize) -> (r: (Option<Duration>, Option<String>, usize))
    requires
        pos <= chars@.len(),
    ensures
        ({
            let sfx = spec_parse_suffixes(chars@, pos as int);
            &&& r.0 == sfx.0
            &&& (match sfx.1 {
                Some(wv) => r.1 is Some && r.1->0@ == wv,
                None => r.1 is None,
            })
            &&& r.2 as int == sfx.2
            &&& pos <= r.2 <= chars@.len()
        }),
{
    let q = skip_ws(chars, pos);
    let we = word_end(chars, q);
    let w = word_chars(chars, q, we);
    let dur = parse_duration(&w);
    let p2: usize = if dur.is_some() {
        we
    } else {
        pos
    };
    let q2 = skip_ws(chars, p2);
    let we2 = word_end(chars, q2);
    let w2 = word_chars(chars, q2, we2);
    if is_dynamic_word(&w2) {
        let ds = string_from_range(chars, q2, we2);
        (dur, Some(ds), we2)
    } else {
        (dur, None, p2)
    }
}

/// An optional rest duration; `pos` stands just after the `r` token.
fn parse_rest(chars: &Vec<char>, pos: usize) -> (r: (Option<Duration>, usize))
    requires
        pos <= chars@.len(),
    ensures
        ({
            let q = spec_skip_ws(chars@, pos as int);
            let we2 = spec_word_end(chars@, q);
            let w2 = chars@.subrange(q, we2);
            match spec_classify_duration(w2) {
                Some(d) => r.0 == Some(d) && r.1 as int == we2,
                None => r.0 is None && r.1 == pos,
            }
        }),
        pos <= r.1 <= chars@.len(),
{
    let q = skip_ws(chars, pos);
    let we2 = word_end(chars, q);
    let w2 = word_chars(chars, q, we2);
    match parse_duration(&w2) {
        Some(d) => (Some(d), we2),
        None => (None, pos),
    }
}

} // verus!

verus! {

/// One musical event; see `spec_parse_music_event`.
fn parse_music_event(chars: &Vec<char>, pos: usize, fuel: usize) -> (r: Result<
    (Event, usize),
    SyntaxError,
>)
    requires
        pos <= chars@.len(),
    ensures
        (match spec_parse_music_event(chars@, pos as int, fuel as nat) {
            Ok((ev, p)) => r is Ok && r->Ok_0.0.deep_view() == ev && r->Ok_0.1 == p as usize && 0
                <= p <= chars@.len(),
            Err(e) => r == Err::<(Event, usize), SyntaxError>(e),
        }),
    decreases fuel,
{
    if fuel == 0 {
        return Err(SyntaxError { pos });
    }
    if pos < chars.len() && chars[pos] == '[' {
        let mut pitches: Vec<Pitch> = Vec::new();
        let p2 = parse_chord_pitches(chars, pos + 1, fuel - 1, &mut pitches)?;
        let (dur, dy, p3) = parse_suffixes(chars, p2);
        let ev = Event::Chord(pitches, dur, dy, None);
        proof {
            let spec_ps = spec_parse_chord_pitches(
                chars@,
                pos as int + 1,
                (fuel - 1) as nat,
            )->Ok_0.0;
            assert(ev->Chord_0.deep_view() =~= spec_ps);
        }
        return Ok((ev, p3));
    }
    let we = word_end(chars, pos);
    let w = word_chars(chars, pos, we);
    if word_is(&w, "Tuplet") {
        return parse_tuplet(chars, we, fuel - 1);
    }
    if word_is(&w, "r") {
        let (dur, p2) = parse_rest(chars, we);
        return Ok((Event::Rest(dur), p2));
    }
    if is_dynamic_word(&w) {
        let ds = string_from_range(chars, pos, we);
        return Ok((Event::Dynamic(ds), we));
    }
    match parse_pitch(&w) {
        Some(pitch) => {
            let (dur, dy, p3) = parse_suffixes(chars, we);
            Ok((Event::Note(Note { pitch, duration: dur, dynamic: dy, articulation: None }), p3))
        },
        None => Err(SyntaxError { pos }),
    }
}

/// The pitches of a chord; see `spec_parse_chord_pitches`.
fn parse_chord_pitches(
    chars: &Vec<char>,
    pos: usize,
    fuel: usize,
    pitches: &mut Vec<Pitch>,
) -> (r: Result<usize, SyntaxError>)
    requires
        pos <= chars@.len(),
    ensures
        (match spec_parse_chord_pitches(chars@, pos as int, fuel as nat) {
            Ok((ps, p)) => r is Ok && r->Ok_0 == p as usize && 0 <= p <= chars@.len()
                && final(pitches)@ == old(pitches)@ + ps,
            Err(e) => r == Err::<usize, SyntaxError>(e),
        }),
    decreases fuel,
{
    if fuel == 0 {
        return Err(SyntaxError { pos });
    }
    let p = skip_ws(chars, pos);
    if p >= chars.len() {
        return Err(SyntaxError { pos: p });
    }
    if chars[p] == ']' {
        proof {
            assert(final(pitches)@ =~= old(pitches)@ + Seq::<Pitch>::empty());
        }
        return Ok(p + 1);
    }
    let we = word_end(chars, p);
    let w = word_chars(chars, p, we);
    if we == p {
        return Err(SyntaxError { pos: p });
    }
    match parse_pitch(&w) {
        None => Err(SyntaxError { pos: p }),
        Some(pt) => {
            let ghost before = pitches@;
            pitches.push(pt);
            let r = parse_chord_pitches(chars, we, fuel - 1, pitches);
            proof {
                if r is Ok {
                    let full = spec_parse_chord_pitches(chars@, pos as int, fuel as nat);
                    assert(final(pitches)@ =~= old(pitches)@ + full->Ok_0.0);
                }
            }
            r
        },
    }
}

/// A tuplet's ratio and body; see `spec_parse_tuplet`.
fn parse_tuplet(chars: &Vec<char>, pos: usize, fuel: usize) -> (r: Result<
    (Event, usize),
    SyntaxError,
>)
    requires
        pos <= chars@.len(),
    ensures
        (match spec_parse_tuplet(chars@, pos as int, fuel as nat) {
            Ok((ev, p)) => r is Ok && r->Ok_0.0.deep_view() == ev && r->Ok_0.1 == p as usize && 0
                <= p <= chars@.len(),
            Err(e) => r == Err::<(Event, usize), SyntaxError>(e),
        }),
    decreases fuel,
{
    let q = skip_ws(chars, pos);
    if fuel == 0 {
        return Err(SyntaxError { pos });
    }
    if !(q < chars.len() && chars[q] == '(') {
        return Err(SyntaxError { pos: q });
    }
    let q2 = skip_ws(chars, q + 1);
    if !(q2 < chars.len() && '0' <= chars[q2] && chars[q2] <= '9') {
        return Err(SyntaxError { pos: q2 });
    }
    let (pn, p2) = scan_uint(chars, q2, 0)?;
    let q3 = skip_ws(chars, p2);
    if !(q3 < chars.len() && chars[q3] == ':') {
        return Err(SyntaxError { pos: q3 });
    }
    let q4 = skip_ws(chars, q3 + 1);
    if !(q4 < chars.len() && '0' <= chars[q4] && chars[q4] <= '9') {
        return Err(SyntaxError { pos: q4 });
    }
    let (qn, p3) = scan_uint(chars, q4, 0)?;
    let q5 = skip_ws(chars, p3);
    if !(q5 < chars.len() && chars[q5] == ')') {
        return Err(SyntaxError { pos: q5 });
    }
    let q6 = skip_ws(chars, q5 + 1);
    if !(q6 < chars.len() && chars[q6] == '{') {
        return Err(SyntaxError { pos: q6 });
    }
    let mut events: Vec<Event> = Vec::new();
    let p4 = parse_music_events(chars, q6 + 1, '}', fuel - 1, &mut events)?;
    let ev = Event::Tuplet(Tuplet { p: pn, q: qn, events });
    proof {
        let spec_evs = spec_parse_events(
            chars@,
            q6 as int + 1,
            '}',
            (fuel - 1) as nat,
        )->Ok_0.0;
        lemma_events_view(&ev->Tuplet_0.events, spec_evs);
    }
    Ok((ev, p4))
}

/// When a vector's images equal a sequence elementwise, the recursive
/// event image equals it too.
proof fn lemma_events_view(v: &Vec<Event>, target: Seq<crate::ast::EventView>)
    requires
        v.deep_view() == target,
    ensures
        crate::ast::events_deep_view(v@) == target,
{
    crate::ast::lemma_events_deep_view(v@);
    assert(crate::ast::events_deep_view(v@) =~= v.deep_view());
}

/// The events of a measure or tuplet body; see `spec_parse_events`.
fn parse_music_events(
    chars: &Vec<char>,
    pos: usize,
    term: char,
    fuel: usize,
    events: &mut Vec<Event>,
) -> (r: Result<usize, SyntaxError>)
    requires
        pos <= chars@.len(),
    ensures
        (match spec_parse_events(chars@, pos as int, term, fuel as nat) {
            Ok((evs, p)) => r is Ok && r->Ok_0 == p as usize && 0 <= p <= chars@.len()
                && final(events).deep_view() == old(events).deep_view() + evs,
            Err(e) => r == Err::<usize, SyntaxError>(e),
        }),
    decreases fuel,
{
    if fuel == 0 {
        return Err(SyntaxError { pos });
    }
    let p = skip_ws(chars, pos);
    if p >= chars.len() {
        return Err(SyntaxError { pos: p });
    }
    if chars[p] == term {
        proof {
            assert(final(events).deep_view() =~= old(events).deep_view() + Seq::<
                crate::ast::EventView,
            >::empty());
        }
        return Ok(p + 1);
    }
    let (ev, p2) = parse_music_event(chars, p, fuel - 1)?;
    let ghost before = events.deep_view();
    let ghost evv = ev.deep_view();
    events.push(ev);
    proof {
        assert(events.deep_view() =~= before.push(evv));
    }
    let r = parse_music_events(chars, p2, term, fuel - 1, events);
    proof {
        if r is Ok {
            let full = spec_parse_events(chars@, pos as int, term, fuel as nat);
            assert(final(events).deep_view() =~= old(events).deep_view() + full->Ok_0.0);
        }
    }
    r
}

/// One pipe-delimited measure; `pos` stands just after the opening
/// pipe.
fn parse_measure(chars: &Vec<char>, pos: usize, fuel: usize) -> (r: Result<
    (Measure, usize),
    SyntaxError,
>)
    requires
        pos <= chars@.len(),
    ensures
        (match spec_parse_events(chars@, pos as int, '|', fuel as nat) {
            Ok((evs, p)) => r is Ok && r->Ok_0.0.deep_view() == (MeasureView { events: evs })
                && r->Ok_0.1 == p as usize && 0 <= p <= chars@.len(),
            Err(e) => r == Err::<(Measure, usize), SyntaxError>(e),
        }),
{
    let mut events: Vec<Event> = Vec::new();
    let p = parse_music_events(chars, pos, '|', fuel, &mut events)?;
    let m = Measure { events };
    proof {
        let spec_evs = spec_parse_events(chars@, pos as int, '|', fuel as nat)->Ok_0.0;
        lemma_events_view(&m.events, spec_evs);
    }
    Ok((m, p))
}

} // verus!

verus! {

/// The measure blocks of a part; see `spec_parse_blocks`.
fn parse_part_content(
    chars: &Vec<char>,
    pos: usize,
    fuel: usize,
    blocks: &mut Vec<MeasureBlock>,
) -> (r: Result<usize, SyntaxError>)
    requires
        pos <= chars@.len(),
    ensures
        (match spec_parse_blocks(chars@, pos as int, fuel as nat) {
            Ok((bs, p)) => r is Ok && r->Ok_0 == p as usize && 0 <= p <= chars@.len()
                && final(blocks).deep_view() == old(blocks).deep_view() + bs,
            Err(e) => r == Err::<usize, SyntaxError>(e),
        }),
    decreases fuel,
{
    if fuel == 0 {
        return Err(SyntaxError { pos });
    }
    let p = skip_ws(chars, pos);
    if p >= chars.len() {
        return Err(SyntaxError { pos: p });
    }
    if chars[p] == '}' {
        proof {
            assert(final(blocks).deep_view() =~= old(blocks).deep_view() + Seq::<
                MeasureBlockView,
            >::empty());
        }
        return Ok(p + 1);
    }
    if chars[p] == '|' {
        let (m, p2) = parse_measure(chars, p + 1, fuel - 1)?;
        let ghost before = blocks.deep_view();
        let ghost mview = m.deep_view();
        blocks.push(MeasureBlock::Measure(m));
        proof {
            assert(blocks.deep_view() =~= before.push(MeasureBlockView::Measure(mview)));
        }
        let r = parse_part_content(chars, p2, fuel - 1, blocks);
        proof {
            if r is Ok {
                let full = spec_parse_blocks(chars@, pos as int, fuel as nat);
                assert(final(blocks).deep_view() =~= old(blocks).deep_view() + full->Ok_0.0);
            }
        }
        return r;
    }
    let we = word_end(chars, p);
    let w = word_chars(chars, p, we);
    if word_is(&w, "Tempo") || word_is(&w, "Time") || word_is(&w, "Key") || word_is(&w, "Swing") {
        let q = skip_ws(chars, we);
        if q < chars.len() && chars[q] == ':' {
            let (h, p2) = parse_header_value(chars, q + 1)?;
            let cc: Option<ContextChange> = match h {
                Header::Tempo(bpm) => Some(ContextChange::Tempo(bpm)),
                Header::TimeSignature(n, d) => Some(ContextChange::TimeSignature(n, d)),
                Header::KeySignature(root, scale) => Some(
                    ContextChange::KeySignature(root, scale),
                ),
                Header::Swing(sw) => Some(ContextChange::Swing(sw)),
                Header::Title(t) => None,
            };
            match cc {
                None => {
                    return Err(SyntaxError { pos: q });
                },
                Some(c) => {
                    let ghost before = blocks.deep_view();
                    let ghost cview = c.deep_view();
                    blocks.push(MeasureBlock::ContextChange(c));
                    proof {
                        assert(blocks.deep_view() =~= before.push(
                            MeasureBlockView::ContextChange(cview),
                        ));
                    }
                    let r = parse_part_content(chars, p2, fuel - 1, blocks);
                    proof {
                        if r is Ok {
                            let full = spec_parse_blocks(chars@, pos as int, fuel as nat);
                            assert(final(blocks).deep_view() =~= old(blocks).deep_view()
                                + full->Ok_0.0);
                        }
                    }
                    return r;
                },
            }
        }
        return Err(SyntaxError { pos: q });
    }
    Err(SyntaxError { pos: p })
}

/// One part; see `spec_parse_part`.
fn parse_part(chars: &Vec<char>, pos: usize, fuel: usize) -> (r: Result<(Part, usize), SyntaxError>)
    requires
        pos <= chars@.len(),
    ensures
        (match spec_parse_part(chars@, pos as int, fuel as nat) {
            Ok((pv, p)) => r is Ok && r->Ok_0.0.deep_view() == pv && r->Ok_0.1 == p as usize && 0
                <= p <= chars@.len(),
            Err(e) => r == Err::<(Part, usize), SyntaxError>(e),
        }),
{
    let p = skip_ws(chars, pos);
    let (name, p2): (String, usize) = if p < chars.len() && chars[p] == '"' {
        parse_string_lit(chars, p)?
    } else {
        let e = bare_name_end(chars, p, true);
        if e == p {
            return Err(SyntaxError { pos: p });
        }
        let a = trim_start(chars, p, e);
        let b = trim_end(chars, a, e);
        (string_from_range(chars, a, b), e)
    };
    let q = skip_ws(chars, p2);
    let we = word_end(chars, q);
    let wi = word_chars(chars, q, we);
    if !word_is(&wi, "Instrument") {
        return Err(SyntaxError { pos: q });
    }
    let q2 = skip_ws(chars, we);
    if !(q2 < chars.len() && chars[q2] == ':') {
        return Err(SyntaxError { pos: q2 });
    }
    let p3 = skip_ws(chars, q2 + 1);
    let (instrument, p4): (String, usize) = if p3 < chars.len() && chars[p3] == '"' {
        parse_string_lit(chars, p3)?
    } else {
        let e2 = bare_name_end(chars, p3, false);
        if e2 == p3 {
            return Err(SyntaxError { pos: p3 });
        }
        let a2 = trim_start(chars, p3, e2);
        let b2 = trim_end(chars, a2, e2);
        (string_from_range(chars, a2, b2), e2)
    };
    let q3 = skip_ws(chars, p4);
    if !(q3 < chars.len() && chars[q3] == '{') {
        return Err(SyntaxError { pos: q3 });
    }
    let mut content: Vec<MeasureBlock> = Vec::new();
    let p5 = parse_part_content(chars, q3 + 1, fuel, &mut content)?;
    proof {
        assert(content.deep_view() =~= Seq::<MeasureBlockView>::empty() + content.deep_view());
    }
    Ok((Part { name, instrument, content }, p5))
}

/// The parts of a score; see `spec_parse_parts`.
fn parse_parts(
    chars: &Vec<char>,
    pos: usize,
    fuel: usize,
    parts: &mut Vec<Part>,
) -> (r: Result<usize, SyntaxError>)
    requires
        pos <= chars@.len(),
    ensures
        (match spec_parse_parts(chars@, pos as int, fuel as nat) {
            Ok((ps, p)) => r is Ok && r->Ok_0 == p as usize && 0 <= p <= chars@.len()
                && final(parts).deep_view() == old(parts).deep_view() + ps,
            Err(e) => r == Err::<usize, SyntaxError>(e),
        }),
    decreases fuel,
{
    if fuel == 0 {
        return Err(SyntaxError { pos });
    }
    let p = skip_ws(chars, pos);
    if p >= chars.len() {
        proof {
            assert(final(parts).deep_view() =~= old(parts).deep_view() + Seq::<
                PartView,
            >::empty());
        }
        return Ok(p);
    }
    let we = word_end(chars, p);
    let w = word_chars(chars, p, we);
    if !word_is(&w, "Part") {
        return Err(SyntaxError { pos: p });
    }
    let q = skip_ws(chars, we);
    if !(q < chars.len() && chars[q] == ':') {
        return Err(SyntaxError { pos: q });
    }
    let (part, p2) = parse_part(chars, q + 1, fuel - 1)?;
    let ghost before = parts.deep_view();
    let ghost pview = part.deep_view();
    parts.push(part);
    proof {
        assert(parts.deep_view() =~= before.push(pview));
    }
    let r = parse_parts(chars, p2, fuel - 1, parts);
    proof {
        if r is Ok {
            let full = spec_parse_parts(chars@, pos as int, fuel as nat);
            assert(final(parts).deep_view() =~= old(parts).deep_view() + full->Ok_0.0);
        }
    }
    r
}

/// Parses source text into a score: zero or more headers, then one or
/// more parts, to the end of the input. All-or-nothing: on any grammar
/// mismatch the result is a `SyntaxError` with the offending position,
/// and no partial tree. The result is exactly `spec_parse` of the text.
/// The length bound keeps the parser's internal step budget within
/// machine integers; any practical input is far below it.
pub fn parse(input: &str) -> (r: Result<Score, SyntaxError>)
    requires
        input@.len() <= 0x1000_0000,
    ensures
        (match spec_parse(input@) {
            Ok(sv) => r is Ok && r->Ok_0.deep_view() == sv,
            Err(e) => r == Err::<Score, SyntaxError>(e),
        }),
{
    let chars = chars_of(input);
    let fuel: usize = 2 * chars.len() + 4;
    let mut headers: Vec<Header> = Vec::new();
    let p = match parse_headers(&chars, 0, fuel, &mut headers) {
        Ok(p) => p,
        Err(e) => {
            return Err(e);
        },
    };
    let mut parts: Vec<Part> = Vec::new();
    let p2 = match parse_parts(&chars, p, fuel, &mut parts) {
        Ok(p2) => p2,
        Err(e) => {
            return Err(e);
        },
    };
    if parts.len() == 0 {
        return Err(SyntaxError { pos: p2 });
    }
    proof {
        assert(headers.deep_view() =~= Seq::<HeaderView>::empty() + headers.deep_view());
        assert(parts.deep_view() =~= Seq::<PartView>::empty() + parts.deep_view());
    }
    Ok(Score { headers, parts })
}

} // verus!
