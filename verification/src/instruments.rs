//! The instrument table: maps a declared instrument name to a General
//! MIDI program number. Unknown names are left to the caller, which
//! defaults to program 0 (acoustic grand piano).

use vstd::prelude::*;
use crate::text::str_eq;

verus! {

/// The program number an instrument name resolves to, if it is known.
pub open spec fn spec_instrument_program(name: Seq<char>) -> Option<u8> {
    if name == "Piano"@ || name == "Acoustic Grand Piano"@ {
        Some(0u8)
    } else if name == "Electric Piano"@ {
        Some(4u8)
    } else if name == "Harpsichord"@ {
        Some(6u8)
    } else if name == "Celesta"@ {
        Some(8u8)
    } else if name == "Organ"@ {
        Some(19u8)
    } else if name == "Acoustic Guitar"@ || name == "Acoustic Guitar (Nylon)"@ {
        Some(24u8)
    } else if name == "Acoustic Guitar (Steel)"@ {
        Some(25u8)
    } else if name == "Electric Guitar"@ {
        Some(27u8)
    } else if name == "Acoustic Bass"@ {
        Some(32u8)
    } else if name == "Electric Bass"@ {
        Some(33u8)
    } else if name == "Violin"@ {
        Some(40u8)
    } else if name == "Viola"@ {
        Some(41u8)
    } else if name == "Cello"@ {
        Some(42u8)
    } else if name == "Contrabass"@ {
        Some(43u8)
    } else if name == "Harp"@ {
        Some(46u8)
    } else if name == "Timpani"@ {
        Some(47u8)
    } else if name == "Trumpet"@ {
        Some(56u8)
    } else if name == "Trombone"@ {
        Some(57u8)
    } else if name == "Tuba"@ {
        Some(58u8)
    } else if name == "French Horn"@ {
        Some(60u8)
    } else if name == "Soprano Sax"@ {
        Some(64u8)
    } else if name == "Alto Sax"@ {
        Some(65u8)
    } else if name == "Tenor Sax"@ {
        Some(66u8)
    } else if name == "Oboe"@ {
        Some(68u8)
    } else if name == "Bassoon"@ {
        Some(70u8)
    } else if name == "Clarinet"@ {
        Some(71u8)
    } else if name == "Piccolo"@ {
        Some(72u8)
    } else if name == "Flute"@ {
        Some(73u8)
    } else if name == "Recorder"@ {
        Some(74u8)
    } else {
        None
    }
}

/// Looks an instrument name up in the General MIDI table.
pub fn get_instrument_program(name: &str) -> (r: Option<u8>)
    ensures
        r == spec_instrument_program(name@),
{
    if str_eq(name, "Piano") || str_eq(name, "Acoustic Grand Piano") {
        Some(0)
    } else if str_eq(name, "Electric Piano") {
        Some(4)
    } else if str_eq(name, "Harpsichord") {
        Some(6)
    } else if str_eq(name, "Celesta") {
        Some(8)
    } else if str_eq(name, "Organ") {
        Some(19)
    } else if str_eq(name, "Acoustic Guitar") || str_eq(name, "Acoustic Guitar (Nylon)") {
        Some(24)
    } else if str_eq(name, "Acoustic Guitar (Steel)") {
        Some(25)
    } else if str_eq(name, "Electric Guitar") {
        Some(27)
    } else if str_eq(name, "Acoustic Bass") {
        Some(32)
    } else if str_eq(name, "Electric Bass") {
        Some(33)
    } else if str_eq(name, "Violin") {
        Some(40)
    } else if str_eq(name, "Viola") {
        Some(41)
    } else if str_eq(name, "Cello") {
        Some(42)
    } else if str_eq(name, "Contrabass") {
        Some(43)
    } else if str_eq(name, "Harp") {
        Some(46)
    } else if str_eq(name, "Timpani") {
        Some(47)
    } else if str_eq(name, "Trumpet") {
        Some(56)
    } else if str_eq(name, "Trombone") {
        Some(57)
    } else if str_eq(name, "Tuba") {
        Some(58)
    } else if str_eq(name, "French Horn") {
        Some(60)
    } else if str_eq(name, "Soprano Sax") {
        Some(64)
    } else if str_eq(name, "Alto Sax") {
        Some(65)
    } else if str_eq(name, "Tenor Sax") {
        Some(66)
    } else if str_eq(name, "Oboe") {
        Some(68)
    } else if str_eq(name, "Bassoon") {
        Some(70)
    } else if str_eq(name, "Clarinet") {
        Some(71)
    } else if str_eq(name, "Piccolo") {
        Some(72)
    } else if str_eq(name, "Flute") {
        Some(73)
    } else if str_eq(name, "Recorder") {
        Some(74)
    } else {
        None
    }
}

} // verus!
