//! The event timeline: events, their payloads, and the kind of each payload.

use vstd::prelude::*;

verus! {

/// Clock position at authoring resolution.
pub type Tick = u32;

/// Pitch in 1/256 of a semitone.
pub type Key = i32;

/// The key that a voice plays at its own base pitch.
pub const DEFAULT_KEY: Key = 24576;

/// The most units a project may hold.
pub const MAX_UNITS: usize = 50;

/// Index of a unit (one monophonic playback channel).
#[derive(Clone, Copy, Debug, PartialEq, Eq, Structural)]
pub struct UnitIdx(pub u8);

/// Index of a voice (an instrument definition) in the voice bank.
#[derive(Clone, Copy, Debug, PartialEq, Eq, Structural)]
pub struct VoiceIdx(pub u8);

/// Index of a unit group.
#[derive(Clone, Copy, Debug, PartialEq, Eq, Structural)]
pub struct GroupIdx(pub u8);

/// Pan delay of a unit.
#[derive(Clone, Copy, Debug, PartialEq, Eq, Structural)]
pub struct PanTime(pub u8);

/// What an event does. Values that are floating point in the file format
/// (tempo, tuning) are carried as their raw IEEE-754 bits.
#[derive(Clone, Copy, Debug, PartialEq, Eq, Structural)]
pub enum EventPayload {
    Null,
    On { duration: Tick },
    Key(Key),
    PanVol(u8),
    Velocity(i16),
    Volume(i16),
    Portament { duration: Tick },
    BeatClock,
    BeatTempo(u32),
    BeatNum,
    Repeat,
    Last,
    SetVoice(VoiceIdx),
    SetGroup(GroupIdx),
    Tuning(u32),
    PanTime(PanTime),
    PtcowDebug(i32),
}

/// The stable numeric kind of a payload, as stored in project files.
pub open spec fn kind_of(p: EventPayload) -> u8 {
    match p {
        EventPayload::Null => 0,
        EventPayload::On { .. } => 1,
        EventPayload::Key(_) => 2,
        EventPayload::PanVol(_) => 3,
        EventPayload::Velocity(_) => 4,
        EventPayload::Volume(_) => 5,
        EventPayload::Portament { .. } => 6,
        EventPayload::BeatClock => 7,
        EventPayload::BeatTempo(_) => 8,
        EventPayload::BeatNum => 9,
        EventPayload::Repeat => 10,
        EventPayload::Last => 11,
        EventPayload::SetVoice(_) => 12,
        EventPayload::SetGroup(_) => 13,
        EventPayload::Tuning(_) => 14,
        EventPayload::PanTime(_) => 15,
        EventPayload::PtcowDebug(_) => 16,
    }
}

impl EventPayload {
    /// The numeric kind of this payload.
    pub fn kind(&self) -> (r: u8)
        ensures
            r == kind_of(*self),
    {
        match self {
            EventPayload::Null => 0,
            EventPayload::On { .. } => 1,
            EventPayload::Key(_) => 2,
            EventPayload::PanVol(_) => 3,
            EventPayload::Velocity(_) => 4,
            EventPayload::Volume(_) => 5,
            EventPayload::Portament { .. } => 6,
            EventPayload::BeatClock => 7,
            EventPayload::BeatTempo(_) => 8,
            EventPayload::BeatNum => 9,
            EventPayload::Repeat => 10,
            EventPayload::Last => 11,
            EventPayload::SetVoice(_) => 12,
            EventPayload::SetGroup(_) => 13,
            EventPayload::Tuning(_) => 14,
            EventPayload::PanTime(_) => 15,
            EventPayload::PtcowDebug(_) => 16,
        }
    }
}

/// One scheduled event of the timeline.
#[derive(Clone, Copy, Debug, PartialEq, Eq, Structural)]
pub struct Event {
    pub payload: EventPayload,
    pub unit: UnitIdx,
    pub tick: Tick,
}

/// Two events compete for the same slot: same unit, same tick, same kind.
pub open spec fn same_slot(a: Event, b: Event) -> bool {
    a.unit == b.unit && a.tick == b.tick && kind_of(a.payload) == kind_of(b.payload)
}

/// Whether two events compete for the same slot.
pub fn is_same_slot(a: &Event, b: &Event) -> (r: bool)
    ensures
        r == same_slot(*a, *b),
{
    a.unit.0 == b.unit.0 && a.tick == b.tick && a.payload.kind() == b.payload.kind()
}

/// The display name of each payload kind.
pub open spec fn discr_name(discr: u8) -> Seq<char> {
    match discr {
        0 => "Null"@,
        1 => "On"@,
        2 => "Key"@,
        3 => "PanVolume"@,
        4 => "Velocity"@,
        5 => "Volume"@,
        6 => "Portament"@,
        7 => "BeatClock"@,
        8 => "BeatTempo"@,
        9 => "BeatNum"@,
        10 => "Repeat"@,
        11 => "Last"@,
        12 => "VoiceNo"@,
        13 => "GroupNo"@,
        14 => "Tuning"@,
        15 => "PanTime"@,
        16 => "PtcowDebug"@,
        _ => "Unknown"@,
    }
}

/// The display name of a payload kind.
pub fn ev_discr_name(discr: u8) -> (r: &'static str)
    ensures
        r@ == discr_name(discr),
{
    match discr {
        0 => "Null",
        1 => "On",
        2 => "Key",
        3 => "PanVolume",
        4 => "Velocity",
        5 => "Volume",
        6 => "Portament",
        7 => "BeatClock",
        8 => "BeatTempo",
        9 => "BeatNum",
        10 => "Repeat",
        11 => "Last",
        12 => "VoiceNo",
        13 => "GroupNo",
        14 => "Tuning",
        15 => "PanTime",
        16 => "PtcowDebug",
        _ => "Unknown",
    }
}

} // verus!
