//! Overlap migration: a unit plays one note at a time, so of two notes of a
//! unit that sound together, the later one is moved to a unit of its own.

use vstd::prelude::*;
use crate::event::{Event, EventPayload, UnitIdx, MAX_UNITS};

verus! {

/// The half-open ranges `r1` and `r2` share at least one point.
pub fn overlap(r1: std::ops::Range<u64>, r2: std::ops::Range<u64>) -> (r: bool)
    ensures
        r == (r1.start < r2.end && r1.end > r2.start),
{
    r1.start < r2.end && r1.end > r2.start
}

/// `e` is a note (an On event) of unit `u`.
pub open spec fn is_note_of(e: Event, u: UnitIdx) -> bool {
    e.unit == u && e.payload is On
}

/// The tick at which a note stops sounding.
pub open spec fn note_end(e: Event) -> int {
    match e.payload {
        EventPayload::On { duration } => e.tick + duration,
        _ => e.tick as int,
    }
}

/// Events that set up the note that follows them: key, velocity, volume.
pub open spec fn is_note_setup(p: EventPayload) -> bool {
    p is Key || p is Velocity || p is Volume
}

/// Event `k` travels with the note at `j`: it sets the note up, lies in one of
/// the three slots before it, and has the note's tick.
pub open spec fn travels_with(s: Seq<Event>, j: int, k: int) -> bool {
    j - 3 <= k < j && 0 <= k && s[k].tick == s[j].tick && is_note_setup(s[k].payload)
}

/// `e` reassigned to unit `u`.
pub open spec fn moved_to(e: Event, u: UnitIdx) -> Event {
    Event { unit: u, ..e }
}

/// `s` with the note at `j`, and the events that travel with it, moved to `dst`.
pub open spec fn move_note(s: Seq<Event>, j: int, dst: UnitIdx) -> Seq<Event> {
    Seq::new(
        s.len(),
        |k: int|
            if k == j || travels_with(s, j, k) {
                moved_to(s[k], dst)
            } else {
                s[k]
            },
    )
}

/// Scans the events from `j` on for notes of `src` that overlap
/// `[start, end)` and moves each to `dst`; also says whether any was found.
pub open spec fn scan_overlaps(
    s: Seq<Event>,
    src: UnitIdx,
    dst: UnitIdx,
    start: int,
    end: int,
    j: int,
) -> (Seq<Event>, bool)
    decreases s.len() - j,
{
    if j < 0 || j >= s.len() {
        (s, false)
    } else if is_note_of(s[j], src) && start < note_end(s[j]) && end > s[j].tick {
        (scan_overlaps(move_note(s, j, dst), src, dst, start, end, j + 1).0, true)
    } else {
        scan_overlaps(s, src, dst, start, end, j + 1)
    }
}

/// Takes each note of `src` from `i` on, in order, as the earlier note, and
/// moves the later notes of `src` that overlap it to `dst`. (`n` is the
/// length of `s`, which no step changes.)
pub open spec fn migrated(s: Seq<Event>, src: UnitIdx, dst: UnitIdx, i: int, n: int) -> (
    Seq<Event>,
    bool,
)
    decreases n - i,
{
    if i < 0 || i >= n || i >= s.len() {
        (s, false)
    } else if is_note_of(s[i], src) {
        let (s2, found) = scan_overlaps(
            s,
            src,
            dst,
            s[i].tick as int,
            note_end(s[i]),
            i + 1,
        );
        let (s3, found2) = migrated(s2, src, dst, i + 1, n);
        (s3, found || found2)
    } else {
        migrated(s, src, dst, i + 1, n)
    }
}

/// `t` differs from `s` in unit fields alone, and each event whose unit
/// changed now belongs to `dst`.
pub open spec fn only_moved_to(s: Seq<Event>, t: Seq<Event>, dst: UnitIdx) -> bool {
    &&& t.len() == s.len()
    &&& forall|k: int|
        0 <= k < s.len() ==> (#[trigger] t[k] == s[k] || t[k] == moved_to(s[k], dst))
}

proof fn lemma_scan_frame(
    s: Seq<Event>,
    src: UnitIdx,
    dst: UnitIdx,
    start: int,
    end: int,
    j: int,
)
    requires
        0 <= j,
    ensures
        only_moved_to(s, scan_overlaps(s, src, dst, start, end, j).0, dst),
        !scan_overlaps(s, src, dst, start, end, j).1 ==> scan_overlaps(
            s,
            src,
            dst,
            start,
            end,
            j,
        ).0 == s,
    decreases s.len() - j,
{
    if j < s.len() {
        if is_note_of(s[j], src) && start < note_end(s[j]) && end > s[j].tick {
            let m = move_note(s, j, dst);
            lemma_scan_frame(m, src, dst, start, end, j + 1);
            let r = scan_overlaps(m, src, dst, start, end, j + 1).0;
            assert forall|k: int| 0 <= k < s.len() implies (#[trigger] r[k] == s[k] || r[k]
                == moved_to(s[k], dst)) by {
                assert(r[k] == m[k] || r[k] == moved_to(m[k], dst));
            }
        } else {
            lemma_scan_frame(s, src, dst, start, end, j + 1);
        }
    }
}

proof fn lemma_migrate_frame(s: Seq<Event>, src: UnitIdx, dst: UnitIdx, i: int, n: int)
    requires
        0 <= i,
    ensures
        only_moved_to(s, migrated(s, src, dst, i, n).0, dst),
        !migrated(s, src, dst, i, n).1 ==> migrated(s, src, dst, i, n).0 == s,
    decreases n - i,
{
    if i < s.len() && i < n {
        if is_note_of(s[i], src) {
            let (s2, f) = scan_overlaps(s, src, dst, s[i].tick as int, note_end(s[i]), i + 1);
            lemma_scan_frame(s, src, dst, s[i].tick as int, note_end(s[i]), i + 1);
            lemma_migrate_frame(s2, src, dst, i + 1, n);
            let r = migrated(s2, src, dst, i + 1, n).0;
            assert forall|k: int| 0 <= k < s.len() implies (#[trigger] r[k] == s[k] || r[k]
                == moved_to(s[k], dst)) by {
                assert(r[k] == s2[k] || r[k] == moved_to(s2[k], dst));
                assert(s2[k] == s[k] || s2[k] == moved_to(s[k], dst));
            }
        } else {
            lemma_migrate_frame(s, src, dst, i + 1, n);
        }
    }
}

/// Moves the note at `j` of `events`, and the events that travel with it, to `dst`.
fn move_note_exec(events: &mut Vec<Event>, j: usize, dst: UnitIdx)
    requires
        j < old(events)@.len(),
    ensures
        final(events)@ == move_note(old(events)@, j as int, dst),
{
    let ghost s = events@;
    let tick = events[j].tick;
    let e = events[j];
    events.set(j, Event { unit: dst, ..e });
    let mut k: usize = if j >= 3 {
        j - 3
    } else {
        0
    };
    while k < j
        invariant
            j < s.len(),
            events@.len() == s.len(),
            tick == s[j as int].tick,
            j >= 3 ==> j - 3 <= k,
            k <= j,
            forall|m: int|
                0 <= m < s.len() && (m < k || m >= j) ==> #[trigger] events@[m] == move_note(
                    s,
                    j as int,
                    dst,
                )[m],
            forall|m: int| k <= m < j ==> #[trigger] events@[m] == s[m],
        decreases j - k,
    {
        let ek = events[k];
        let setup = match ek.payload {
            EventPayload::Key(_) | EventPayload::Velocity(_) | EventPayload::Volume(_) => true,
            _ => false,
        };
        if ek.tick == tick && setup {
            events.set(k, Event { unit: dst, ..ek });
        }
        k = k + 1;
    }
    assert(events@ =~= move_note(s, j as int, dst));
}

/// Moves each note of `src_unit` that overlaps an earlier note of `src_unit`
/// to `dst_unit`, together with the key, velocity and volume events in the
/// three slots before it at its tick. Notes are taken in order, and a note
/// that was moved is no earlier note for the ones after it. Returns whether
/// any note was moved.
pub fn poly_migrate_units(src_unit: UnitIdx, dst_unit: UnitIdx, events: &mut Vec<Event>) -> (r:
    bool)
    ensures
        (final(events)@, r) == migrated(
            old(events)@,
            src_unit,
            dst_unit,
            0,
            old(events)@.len() as int,
        ),
        only_moved_to(old(events)@, final(events)@, dst_unit),
        !r ==> final(events)@ == old(events)@,
{
    let ghost s0 = events@;
    let ghost target = migrated(s0, src_unit, dst_unit, 0, s0.len() as int);
    proof {
        lemma_migrate_frame(s0, src_unit, dst_unit, 0, s0.len() as int);
    }
    let n = events.len();
    assert(n == s0.len());
    let mut has_overlap = false;
    let mut i: usize = 0;
    while i < n
        invariant
            events@.len() == n,
            i <= n,
            migrated(events@, src_unit, dst_unit, i as int, n as int).0 == target.0,
            (has_overlap || migrated(events@, src_unit, dst_unit, i as int, n as int).1)
                == target.1,
        decreases n - i,
    {
        let e1 = events[i];
        let (is_note, dur1) = match e1.payload {
            EventPayload::On { duration } => (e1.unit == src_unit, duration),
            _ => (false, 0),
        };
        if is_note {
            let start1 = e1.tick as u64;
            let end1 = e1.tick as u64 + dur1 as u64;
            let ghost si = events@;
            let ghost inner = scan_overlaps(si, src_unit, dst_unit, start1 as int, end1 as int, i + 1);
            let mut found = false;
            let mut j: usize = i + 1;
            while j < n
                invariant
                    events@.len() == n,
                    i < j <= n,
                    scan_overlaps(events@, src_unit, dst_unit, start1 as int, end1 as int, j as int).0
                        == inner.0,
                    (found || scan_overlaps(
                        events@,
                        src_unit,
                        dst_unit,
                        start1 as int,
                        end1 as int,
                        j as int,
                    ).1) == inner.1,
                decreases n - j,
            {
                let e2 = events[j];
                let (is_note2, dur2) = match e2.payload {
                    EventPayload::On { duration } => (e2.unit == src_unit, duration),
                    _ => (false, 0),
                };
                if is_note2 {
                    let start2 = e2.tick as u64;
                    let end2 = e2.tick as u64 + dur2 as u64;
                    if overlap(start1..end1, start2..end2) {
                        found = true;
                        move_note_exec(events, j, dst_unit);
                    }
                }
                j = j + 1;
            }
            has_overlap = has_overlap || found;
        }
        i = i + 1;
    }
    has_overlap
}

/// A new unit was asked for while the project already holds the most units
/// it may have.
#[derive(Clone, Copy, Debug, PartialEq, Eq, Structural)]
pub enum CapacityError {
    UnitCapReached,
}

impl CapacityError {
    /// A message for the user.
    pub fn message(&self) -> (r: &'static str)
        ensures
            r@ == "Error: Cannot create more units than 50"@,
    {
        "Error: Cannot create more units than 50"
    }
}

/// Settings that a unit's notes depend on, and that a unit split off from it
/// takes over: voice, group, volume, pan delay.
pub open spec fn is_shared_setting(p: EventPayload) -> bool {
    p is SetVoice || p is SetGroup || p is Volume || p is PanTime
}

/// The first `k` events of `s`, each shared setting of unit `from` followed
/// by a copy of it for unit `to`.
pub open spec fn with_copies(s: Seq<Event>, from: UnitIdx, to: UnitIdx, k: int) -> Seq<Event>
    decreases k,
{
    if k <= 0 {
        Seq::empty()
    } else {
        let prev = with_copies(s, from, to, k - 1).push(s[k - 1]);
        if s[k - 1].unit == from && is_shared_setting(s[k - 1].payload) {
            prev.push(moved_to(s[k - 1], to))
        } else {
            prev
        }
    }
}

/// Follows each shared setting of unit `from` by a copy for unit `to`.
fn copy_shared_settings(events: &mut Vec<Event>, from: UnitIdx, to: UnitIdx)
    ensures
        final(events)@ == with_copies(old(events)@, from, to, old(events)@.len() as int),
{
    let ghost s = events@;
    let n = events.len();
    let mut out: Vec<Event> = Vec::new();
    let mut i: usize = 0;
    while i < n
        invariant
            n == s.len(),
            events@ == s,
            i <= n,
            out@ == with_copies(s, from, to, i as int),
        decreases n - i,
    {
        let e = events[i];
        out.push(e);
        let shared = match e.payload {
            EventPayload::SetVoice(_)
            | EventPayload::SetGroup(_)
            | EventPayload::Volume(_)
            | EventPayload::PanTime(_) => true,
            _ => false,
        };
        if e.unit == from && shared {
            out.push(Event { unit: to, ..e });
        }
        i = i + 1;
    }
    *events = out;
}

/// Moves the overlapping notes of `migrate_from` to a new unit, whose index
/// is `n_units`, the number of units the project holds, and gives the new
/// unit a copy of each shared setting of `migrate_from`. Returns the new
/// unit, or `None` where no note overlaps another (then nothing changes).
/// Fails, changing nothing, where the project holds the most units it may.
pub fn poly_migrate_single(events: &mut Vec<Event>, n_units: usize, migrate_from: UnitIdx) -> (r:
    Result<Option<UnitIdx>, CapacityError>)
    ensures
        n_units >= MAX_UNITS ==> r == Err::<Option<UnitIdx>, CapacityError>(
            CapacityError::UnitCapReached,
        ) && final(events)@ == old(events)@,
        n_units < MAX_UNITS ==> {
            let to = UnitIdx(n_units as u8);
            let (m, found) = migrated(
                old(events)@,
                migrate_from,
                to,
                0,
                old(events)@.len() as int,
            );
            if found {
                &&& r == Ok::<Option<UnitIdx>, CapacityError>(Some(to))
                &&& final(events)@ == with_copies(m, migrate_from, to, m.len() as int)
            } else {
                &&& r == Ok::<Option<UnitIdx>, CapacityError>(None)
                &&& final(events)@ == old(events)@
            }
        },
{
    if n_units >= MAX_UNITS {
        return Err(CapacityError::UnitCapReached);
    }
    let migrate_to = UnitIdx(n_units as u8);
    if !poly_migrate_units(migrate_from, migrate_to, events) {
        return Ok(None);
    }
    copy_shared_settings(events, migrate_from, migrate_to);
    Ok(Some(migrate_to))
}

/// The first index from `i` on of a voice setting of unit `u`.
pub open spec fn first_voice_at(s: Seq<Event>, u: UnitIdx, i: int) -> Option<int>
    decreases s.len() - i,
{
    if i < 0 || i >= s.len() {
        None
    } else if s[i].unit == u && s[i].payload is SetVoice {
        Some(i)
    } else {
        first_voice_at(s, u, i + 1)
    }
}

proof fn lemma_first_voice_range(s: Seq<Event>, u: UnitIdx, i: int)
    requires
        0 <= i,
    ensures
        first_voice_at(s, u, i) matches Some(k) ==> i <= k < s.len() && s[k].unit == u
            && s[k].payload is SetVoice,
    decreases s.len() - i,
{
    if i < s.len() && !(s[i].unit == u && s[i].payload is SetVoice) {
        lemma_first_voice_range(s, u, i + 1);
    }
}

/// The index of the first voice setting of unit `u`, if any.
pub fn first_voice_event(events: &Vec<Event>, u: UnitIdx) -> (r: Option<usize>)
    ensures
        r == (match first_voice_at(events@, u, 0) {
            Some(i) => Some(i as usize),
            None => None::<usize>,
        }),
        r matches Some(i) ==> i < events@.len(),
{
    let mut i: usize = 0;
    while i < events.len()
        invariant
            i <= events@.len(),
            first_voice_at(events@, u, i as int) == first_voice_at(events@, u, 0),
        decreases events@.len() - i,
    {
        let e = events[i];
        let voice = match e.payload {
            EventPayload::SetVoice(_) => true,
            _ => false,
        };
        if e.unit == u && voice {
            return Some(i);
        }
        i = i + 1;
    }
    None
}

/// `s` with a copy for unit `to` of the first voice setting of unit `from`,
/// right after it.
pub open spec fn with_voice_copy(s: Seq<Event>, from: UnitIdx, to: UnitIdx) -> Seq<Event> {
    match first_voice_at(s, from, 0) {
        Some(i) => s.insert(i + 1, moved_to(s[i], to)),
        None => s,
    }
}

/// Migrates the overlapping notes of `from` to a new unit `n`, then those of
/// unit `n` to unit `n + 1`, and so on, until no notes overlap or `n`
/// reaches the cap. Gives the events, the units that the notes of each new
/// unit came from, and whether the cap stopped it.
pub open spec fn migrate_chain(s: Seq<Event>, from: UnitIdx, n: int) -> (
    Seq<Event>,
    Seq<UnitIdx>,
    bool,
)
    decreases MAX_UNITS - n,
{
    if n >= MAX_UNITS {
        (s, Seq::empty(), true)
    } else {
        let to = UnitIdx(n as u8);
        let (m, found) = migrated(s, from, to, 0, s.len() as int);
        if !found {
            (s, Seq::empty(), false)
        } else {
            let (r, created, cap) = migrate_chain(with_voice_copy(m, from, to), to, n + 1);
            (r, seq![from] + created, cap)
        }
    }
}

/// Runs [`migrate_chain`] for each unit from `u` on that is not muted; the
/// project holds `n` units.
pub open spec fn migrate_all(s: Seq<Event>, muted: Seq<bool>, u: int, n: int) -> (
    Seq<Event>,
    Seq<UnitIdx>,
    bool,
)
    decreases muted.len() - u,
{
    if u < 0 || u >= muted.len() {
        (s, Seq::empty(), false)
    } else if muted[u] {
        migrate_all(s, muted, u + 1, n)
    } else {
        let (s2, c, cap) = migrate_chain(s, UnitIdx(u as u8), n);
        let (s3, c2, cap2) = migrate_all(s2, muted, u + 1, n + c.len());
        (s3, c + c2, cap || cap2)
    }
}

proof fn lemma_chain_counts(s: Seq<Event>, from: UnitIdx, n: int)
    ensures
        n <= MAX_UNITS ==> n + migrate_chain(s, from, n).1.len() <= MAX_UNITS,
        n > MAX_UNITS ==> migrate_chain(s, from, n).1.len() == 0,
        migrate_chain(s, from, n).2 ==> n + migrate_chain(s, from, n).1.len() >= MAX_UNITS,
        forall|k: int|
            0 <= k < migrate_chain(s, from, n).1.len() && (from.0 as int) < n ==> (
            #[trigger] migrate_chain(s, from, n).1[k]).0 < n + k,
    decreases MAX_UNITS - n,
{
    if n < MAX_UNITS {
        let to = UnitIdx(n as u8);
        let (m, found) = migrated(s, from, to, 0, s.len() as int);
        if found {
            let s2 = with_voice_copy(m, from, to);
            lemma_chain_counts(s2, to, n + 1);
            let c = migrate_chain(s2, to, n + 1).1;
            assert forall|k: int|
                0 <= k < migrate_chain(s, from, n).1.len() && (from.0 as int) < n implies (
                #[trigger] migrate_chain(s, from, n).1[k]).0 < n + k by {
                if k > 0 {
                    assert(migrate_chain(s, from, n).1[k] == c[k - 1]);
                }
            }
        }
    }
}

/// Relocates overlapping notes of `from` as [`migrate_chain`] states, adding
/// to `created` the unit that the notes of each new unit came from.
fn run_chain(events: &mut Vec<Event>, from: UnitIdx, n: usize, created: &mut Vec<UnitIdx>) -> (cap:
    bool)
    ensures
        ({
            let (r, c, cp) = migrate_chain(old(events)@, from, n as int);
            &&& final(events)@ == r
            &&& final(created)@ == old(created)@ + c
            &&& cap == cp
        }),
{
    let ghost target = migrate_chain(events@, from, n as int);
    let ghost created0 = created@;
    let mut cur = from;
    let mut n_units = n;
    loop
        invariant
            target == migrate_chain(old(events)@, from, n as int),
            created0 == old(created)@,
            n <= n_units,
            n_units <= MAX_UNITS || n_units == n,
            ({
                let (r, c, cp) = migrate_chain(events@, cur, n_units as int);
                &&& target.0 == r
                &&& created0 + target.1 == created@ + c
                &&& target.2 == cp
            }),
        decreases MAX_UNITS - n_units,
    {
        if n_units >= MAX_UNITS {
            assert(created0 + target.1 =~= created@ + Seq::<UnitIdx>::empty());
            return true;
        }
        let migrate_to = UnitIdx(n_units as u8);
        let ghost before = events@;
        proof {
            lemma_migrate_frame(before, cur, migrate_to, 0, before.len() as int);
        }
        if !poly_migrate_units(cur, migrate_to, events) {
            assert(events@ == before);
            assert(created0 + target.1 =~= created@ + Seq::<UnitIdx>::empty());
            return false;
        }
        let ghost m = events@;
        proof {
            lemma_first_voice_range(m, cur, 0);
        }
        if let Some(idx) = first_voice_event(events, cur) {
            let e = events[idx];
            // The length is a usize, so `idx + 1` cannot overflow.
            let _len = events.len();
            events.insert(idx + 1, Event { unit: migrate_to, ..e });
        }
        assert(events@ == with_voice_copy(m, cur, migrate_to));
        let ghost rest = migrate_chain(events@, migrate_to, n_units + 1).1;
        created.push(cur);
        assert(created0 + target.1 =~= created@ + rest);
        n_units = n_units + 1;
        cur = migrate_to;
    }
}

/// What a run of [`auto_migrate`] did.
pub struct AutoMigration {
    /// For each unit it created, in order of creation, the unit that the
    /// notes came from. The unit created `k`-th has index `n + k`, where `n`
    /// is the number of units before the run.
    pub created_from: Vec<UnitIdx>,
    /// A unit was needed while the project already held the most units it
    /// may. The units created before that stay.
    pub cap_reached: bool,
}

/// Resolves every overlap of notes: for each unit that is not muted, moves
/// its overlapping notes to a new unit, then does the same for that new unit,
/// and so on, until no notes overlap. Each new unit gets a copy of the first
/// voice setting of the unit its notes came from, right after it. Stops
/// creating units at the cap, and reports it; units created before stay.
pub fn auto_migrate(events: &mut Vec<Event>, muted: &Vec<bool>) -> (r: AutoMigration)
    requires
        muted@.len() <= 256,
    ensures
        (final(events)@, r.created_from@, r.cap_reached) == migrate_all(
            old(events)@,
            muted@,
            0,
            muted@.len() as int,
        ),
        muted@.len() <= MAX_UNITS ==> muted@.len() + r.created_from@.len() <= MAX_UNITS,
        muted@.len() > MAX_UNITS ==> r.created_from@.len() == 0,
        r.cap_reached ==> muted@.len() + r.created_from@.len() >= MAX_UNITS,
        forall|k: int|
            0 <= k < r.created_from@.len() ==> (#[trigger] r.created_from@[k]).0 < muted@.len()
                + k,
{
    let n0 = muted.len();
    let mut n_units: usize = n0;
    let mut created: Vec<UnitIdx> = Vec::new();
    let mut cap_reached = false;
    let ghost target = migrate_all(events@, muted@, 0, n0 as int);
    let mut u: usize = 0;
    while u < n0
        invariant
            n0 == muted@.len(),
            n0 <= 256,
            u <= n0,
            n_units == n0 + created@.len(),
            n0 <= MAX_UNITS ==> n_units <= MAX_UNITS,
            n0 > MAX_UNITS ==> created@.len() == 0,
            cap_reached ==> n_units >= MAX_UNITS,
            forall|k: int| 0 <= k < created@.len() ==> (#[trigger] created@[k]).0 < n0 + k,
            ({
                let (r, c, cp) = migrate_all(events@, muted@, u as int, n_units as int);
                &&& target.0 == r
                &&& target.1 == created@ + c
                &&& target.2 == (cap_reached || cp)
            }),
        decreases n0 - u,
    {
        if !muted[u] {
            let ghost c0 = created@;
            let ghost s_u = events@;
            proof {
                lemma_chain_counts(s_u, UnitIdx(u as u8), n_units as int);
            }
            let cap = run_chain(events, UnitIdx(u as u8), n_units, &mut created);
            let ghost c = migrate_chain(s_u, UnitIdx(u as u8), n_units as int).1;
            assert(created@ == c0 + c);
            assert forall|k: int| 0 <= k < created@.len() implies (#[trigger] created@[k]).0 < n0
                + k by {
                if k >= c0.len() {
                    assert(created@[k] == c[k - c0.len()]);
                }
            }
            n_units = n0 + created.len();
            cap_reached = cap_reached || cap;
            proof {
                let (r, c2, cp2) = migrate_all(events@, muted@, u + 1, n_units as int);
                assert(target.1 == created@ + c2) by {
                    assert(c0 + (c + c2) =~= (c0 + c) + c2);
                }
            }
        }
        u = u + 1;
    }
    assert(target.1 =~= created@ + Seq::<UnitIdx>::empty());
    AutoMigration { created_from: created, cap_reached }
}

} // verus!
