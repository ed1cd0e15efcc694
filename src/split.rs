//! Per-pitch track splitting: the notes of one unit are grouped by pitch; the
//! lowest pitch stays, every other pitch moves to a unit of its own.

use vstd::prelude::*;
use crate::event::{Event, EventPayload, Key, UnitIdx, VoiceIdx, DEFAULT_KEY, MAX_UNITS};
use crate::migrate::{CapacityError, first_voice_event};

verus! {

/// Walking back from `c`, the first index whose tick differs from `tick`;
/// 0 where there is none.
pub open spec fn back_to_change(s: Seq<Event>, c: int, tick: u32) -> int
    decreases c,
{
    if c <= 0 || s[c].tick != tick {
        if c <= 0 { 0 } else { c }
    } else {
        back_to_change(s, c - 1, tick)
    }
}

/// The last index in `[lo, hi)` of a key event of unit `u`.
pub open spec fn last_key_in(s: Seq<Event>, lo: int, hi: int, u: UnitIdx) -> Option<int>
    decreases hi - lo,
{
    if hi <= lo {
        None
    } else if s[hi - 1].unit == u && s[hi - 1].payload is Key {
        Some(hi - 1)
    } else {
        last_key_in(s, lo, hi - 1, u)
    }
}

/// The first index from `idx` on of a note of any unit.
pub open spec fn next_note(s: Seq<Event>, idx: int) -> Option<int>
    decreases s.len() - idx,
{
    if idx < 0 || idx >= s.len() {
        None
    } else if s[idx].payload is On {
        Some(idx)
    } else {
        next_note(s, idx + 1)
    }
}

/// The key event that sets the pitch of the note at `on`: the last key event
/// of `u` from the event before the note's tick up to the next note.
pub open spec fn winning_key(s: Seq<Event>, on: int, u: UnitIdx) -> Option<int> {
    match next_note(s, on) {
        Some(end) => last_key_in(s, back_to_change(s, on, s[on].tick), end, u),
        None => None,
    }
}

proof fn lemma_back_to_change_range(s: Seq<Event>, c: int, tick: u32)
    requires
        0 <= c < s.len(),
    ensures
        0 <= back_to_change(s, c, tick) <= c,
    decreases c,
{
    if c > 0 && s[c].tick == tick {
        lemma_back_to_change_range(s, c - 1, tick);
    }
}

proof fn lemma_next_note_range(s: Seq<Event>, idx: int)
    requires
        0 <= idx,
    ensures
        next_note(s, idx) matches Some(i) ==> idx <= i < s.len() && s[i].payload is On,
    decreases s.len() - idx,
{
    if idx < s.len() && !(s[idx].payload is On) {
        lemma_next_note_range(s, idx + 1);
    }
}

proof fn lemma_last_key_range(s: Seq<Event>, lo: int, hi: int, u: UnitIdx)
    ensures
        last_key_in(s, lo, hi, u) matches Some(i) ==> lo <= i < hi && s[i].unit == u
            && s[i].payload is Key,
    decreases hi - lo,
{
    if hi > lo && !(s[hi - 1].unit == u && s[hi - 1].payload is Key) {
        lemma_last_key_range(s, lo, hi - 1, u);
    }
}

/// The key event of a note lies before the note's successor and is a key
/// event of the note's unit.
proof fn lemma_winning_key_range(s: Seq<Event>, on: int, u: UnitIdx)
    requires
        0 <= on < s.len(),
    ensures
        winning_key(s, on, u) matches Some(i) ==> 0 <= i < s.len() && s[i].unit == u
            && s[i].payload is Key,
{
    lemma_next_note_range(s, on);
    lemma_back_to_change_range(s, on, s[on].tick);
    if let Some(end) = next_note(s, on) {
        lemma_last_key_range(s, back_to_change(s, on, s[on].tick), end, u);
    }
}

/// A note and the key event that sets its pitch.
#[derive(Clone, Copy, Debug, PartialEq, Eq, Structural)]
pub struct KeyEvOffsets {
    pub on: usize,
    pub key: usize,
}

/// Among the first `k` events, each note of `u` that has a key event, with
/// that key event, in order.
pub open spec fn note_keys(s: Seq<Event>, u: UnitIdx, k: int) -> Seq<KeyEvOffsets>
    decreases k,
{
    if k <= 0 {
        Seq::empty()
    } else {
        let prev = note_keys(s, u, k - 1);
        if s[k - 1].unit == u && s[k - 1].payload is On {
            match winning_key(s, k - 1, u) {
                Some(w) => prev.push(KeyEvOffsets { on: (k - 1) as usize, key: w as usize }),
                None => prev,
            }
        } else {
            prev
        }
    }
}

/// Walks back from `idx` to the first event whose tick differs from that
/// of `idx`, or to the start.
pub fn first_tick(eves: &Vec<Event>, idx: usize) -> (r: usize)
    requires
        idx < eves@.len(),
    ensures
        r == back_to_change(eves@, idx as int, eves@[idx as int].tick),
{
    let tick = eves[idx].tick;
    let mut cursor = idx;
    while eves[cursor].tick == tick
        invariant
            cursor <= idx < eves@.len(),
            tick == eves@[idx as int].tick,
            back_to_change(eves@, cursor as int, tick) == back_to_change(eves@, idx as int, tick),
        decreases cursor,
    {
        if cursor == 0 {
            return 0;
        }
        cursor = cursor - 1;
    }
    cursor
}

/// The first index from `idx` on of a note.
pub fn next_on(eves: &Vec<Event>, idx: usize) -> (r: Option<usize>)
    ensures
        r == (match next_note(eves@, idx as int) {
            Some(i) => Some(i as usize),
            None => None::<usize>,
        }),
{
    let mut i = idx;
    while i < eves.len()
        invariant
            idx <= i,
            next_note(eves@, i as int) == next_note(eves@, idx as int),
        decreases eves@.len() - i,
    {
        if let EventPayload::On { .. } = eves[i].payload {
            return Some(i);
        }
        i = i + 1;
    }
    None
}

/// The key event that sets the pitch of the note at `on_idx`.
pub fn find_winning_key_ev(eves: &Vec<Event>, on_idx: usize, unit_idx: UnitIdx) -> (r: Option<
    usize,
>)
    requires
        on_idx < eves@.len(),
    ensures
        r == (match winning_key(eves@, on_idx as int, unit_idx) {
            Some(i) => Some(i as usize),
            None => None::<usize>,
        }),
{
    let first = first_tick(eves, on_idx);
    // The length is a usize, so the indices found below fit one.
    let _len = eves.len();
    proof {
        lemma_back_to_change_range(eves@, on_idx as int, eves@[on_idx as int].tick);
        lemma_next_note_range(eves@, on_idx as int);
    }
    let end = match next_on(eves, on_idx) {
        Some(e) => e,
        None => return None,
    };
    let mut hi = end;
    while hi > first
        invariant
            first <= hi <= end < eves@.len(),
            winning_key(eves@, on_idx as int, unit_idx) == last_key_in(
                eves@,
                first as int,
                hi as int,
                unit_idx,
            ),
        decreases hi,
    {
        let e = eves[hi - 1];
        let is_key = match e.payload {
            EventPayload::Key(_) => true,
            _ => false,
        };
        if e.unit == unit_idx && is_key {
            return Some(hi - 1);
        }
        hi = hi - 1;
    }
    None
}

/// Each note of `unit_idx` that has a key event, with that key event.
pub fn key_ev_offsets(eves: &Vec<Event>, unit_idx: UnitIdx) -> (r: Vec<KeyEvOffsets>)
    ensures
        r@ == note_keys(eves@, unit_idx, eves@.len() as int),
{
    let mut out: Vec<KeyEvOffsets> = Vec::new();
    let mut i: usize = 0;
    while i < eves.len()
        invariant
            i <= eves@.len(),
            out@ == note_keys(eves@, unit_idx, i as int),
        decreases eves@.len() - i,
    {
        let e = eves[i];
        let is_on = match e.payload {
            EventPayload::On { .. } => true,
            _ => false,
        };
        if e.unit == unit_idx && is_on {
            if let Some(key_idx) = find_winning_key_ev(eves, i, unit_idx) {
                out.push(KeyEvOffsets { on: i, key: key_idx });
            }
        }
        i = i + 1;
    }
    out
}

/// The pitch that a key event sets (0 for any other event).
pub open spec fn pitch_of(e: Event) -> Key {
    match e.payload {
        EventPayload::Key(k) => k,
        _ => 0,
    }
}

/// The pitches of the notes in `offs`.
pub open spec fn pitches(s: Seq<Event>, offs: Seq<KeyEvOffsets>) -> Set<Key> {
    offs.map_values(|o: KeyEvOffsets| pitch_of(s[o.key as int])).to_set()
}

/// Each pair of `offs` points at a key event of `s`.
pub open spec fn offsets_valid(s: Seq<Event>, offs: Seq<KeyEvOffsets>) -> bool {
    forall|a: int|
        0 <= a < offs.len() ==> (#[trigger] offs[a]).key < s.len() && offs[a].on < s.len()
            && s[offs[a].key as int].payload is Key
}

/// `ds` rises strictly.
pub open spec fn strictly_rising(ds: Seq<Key>) -> bool {
    forall|a: int, b: int| 0 <= a < b < ds.len() ==> ds[a] < ds[b]
}

/// The position of `p` in `ds`, searching from `i`.
pub open spec fn position_of(ds: Seq<Key>, p: Key, i: int) -> int
    decreases ds.len() - i,
{
    if i < 0 || i >= ds.len() {
        ds.len() as int
    } else if ds[i] == p {
        i
    } else {
        position_of(ds, p, i + 1)
    }
}

/// The unit that the notes of the pitch at rank `r` go to: the lowest pitch
/// stays on `u`, the others go to the new units from index `n` on.
pub open spec fn unit_for_rank(u: UnitIdx, n: int, r: int) -> UnitIdx {
    if r == 0 {
        u
    } else {
        UnitIdx((n + r - 1) as u8)
    }
}

/// `cur` after the pair `o`: its key event gets the default key and, with
/// its note, the unit of its pitch. (Pitches are read from `orig`.)
pub open spec fn apply_pair(
    orig: Seq<Event>,
    cur: Seq<Event>,
    o: KeyEvOffsets,
    ds: Seq<Key>,
    u: UnitIdx,
    n: int,
) -> Seq<Event> {
    let r = position_of(ds, pitch_of(orig[o.key as int]), 0);
    let target = unit_for_rank(u, n, r);
    let c1 = cur.update(
        o.key as int,
        Event { payload: EventPayload::Key(DEFAULT_KEY), unit: target, tick: cur[o.key as int].tick },
    );
    c1.update(o.on as int, Event { unit: target, ..c1[o.on as int] })
}

/// `orig` after the first `a` pairs of `offs`.
pub open spec fn assigned(
    orig: Seq<Event>,
    offs: Seq<KeyEvOffsets>,
    ds: Seq<Key>,
    u: UnitIdx,
    n: int,
    a: int,
) -> Seq<Event>
    decreases a,
{
    if a <= 0 {
        orig
    } else {
        apply_pair(orig, assigned(orig, offs, ds, u, n, a - 1), offs[a - 1], ds, u, n)
    }
}

/// The voice of the first voice setting of unit `u` from `i` on; voice 0
/// where there is none.
pub open spec fn first_voice(s: Seq<Event>, u: UnitIdx, i: int) -> VoiceIdx
    decreases s.len() - i,
{
    if i < 0 || i >= s.len() {
        VoiceIdx(0)
    } else if s[i].unit == u && s[i].payload is SetVoice {
        match s[i].payload {
            EventPayload::SetVoice(v) => v,
            _ => VoiceIdx(0),
        }
    } else {
        first_voice(s, u, i + 1)
    }
}

/// The voice settings at tick 0 for `count` new units from index `n` on.
pub open spec fn voice_prefix(v: VoiceIdx, n: int, count: int) -> Seq<Event> {
    Seq::new(
        count as nat,
        |r: int| Event { payload: EventPayload::SetVoice(v), unit: UnitIdx((n + r) as u8), tick: 0 },
    )
}

/// The events of `s` at tick `x`, in order.
pub open spec fn at_tick(s: Seq<Event>, x: u32) -> Seq<Event> {
    s.filter(|e: Event| e.tick == x)
}

/// `t` holds the events of `s` ordered by tick; events of one tick keep
/// their order.
pub open spec fn stable_tick_sort_of(t: Seq<Event>, s: Seq<Event>) -> bool {
    &&& forall|i: int, j: int| 0 <= i < j < t.len() ==> t[i].tick <= t[j].tick
    &&& forall|x: u32| #[trigger] at_tick(t, x) == at_tick(s, x)
}

/// Relies on `slice::sort_by_key`, which is stable: sorts the events by tick,
/// keeping the order of events of one tick.
#[verifier::external_body]
fn sort_by_tick(v: &mut Vec<Event>)
    ensures
        stable_tick_sort_of(final(v)@, old(v)@),
{
    v.sort_by_key(|e| e.tick);
}

/// The distinct pitches of the notes in `offs`, lowest first.
fn distinct_pitches(eves: &Vec<Event>, offs: &Vec<KeyEvOffsets>) -> (ds: Vec<Key>)
    requires
        offsets_valid(eves@, offs@),
    ensures
        strictly_rising(ds@),
        ds@.to_set() == pitches(eves@, offs@),
{
    let mut ds: Vec<Key> = Vec::new();
    let mut a: usize = 0;
    while a < offs.len()
        invariant
            offsets_valid(eves@, offs@),
            a <= offs@.len(),
            strictly_rising(ds@),
            ds@.to_set() == offs@.take(a as int).map_values(
                |o: KeyEvOffsets| pitch_of(eves@[o.key as int]),
            ).to_set(),
        decreases offs@.len() - a,
    {
        let o = offs[a];
        let p = match eves[o.key].payload {
            EventPayload::Key(k) => k,
            _ => 0,
        };
        let mut pos: usize = 0;
        while pos < ds.len() && ds[pos] < p
            invariant
                pos <= ds@.len(),
                forall|b: int| 0 <= b < pos ==> ds@[b] < p,
            decreases ds@.len() - pos,
        {
            pos = pos + 1;
        }
        let ghost before = ds@;
        if pos == ds.len() || ds[pos] != p {
            ds.insert(pos, p);
            assert(strictly_rising(ds@)) by {
                assert forall|x: int, y: int| 0 <= x < y < ds@.len() implies ds@[x] < ds@[y] by {
                    if y < pos {
                    } else if x > pos {
                        assert(ds@[x] == before[x - 1] && ds@[y] == before[y - 1]);
                    } else if x == pos {
                        assert(before[y - 1] >= p);
                    } else {
                        if y == pos {
                        } else {
                            assert(ds@[y] == before[y - 1]);
                            assert(before[pos as int] >= p);
                        }
                    }
                }
            }
        }
        proof {
            let prev = offs@.take(a as int).map_values(|o: KeyEvOffsets| pitch_of(eves@[o.key as int]));
            let next = offs@.take(a + 1).map_values(|o: KeyEvOffsets| pitch_of(eves@[o.key as int]));
            assert(next == prev.push(p));
            assert forall|x: Key| ds@.contains(x) <==> (before.contains(x) || x == p) by {
                    if ds@.contains(x) {
                        let i = choose|i: int| 0 <= i < ds@.len() && ds@[i] == x;
                        if before.len() < ds@.len() {
                            if i < pos {
                                assert(before[i] == x);
                            } else if i > pos {
                                assert(before[i - 1] == x);
                            }
                        } else {
                            assert(before[i] == x);
                        }
                    }
                    if before.contains(x) {
                        let i = choose|i: int| 0 <= i < before.len() && before[i] == x;
                        if before.len() < ds@.len() {
                            if i < pos {
                                assert(ds@[i] == x);
                            } else {
                                assert(ds@[i + 1] == x);
                            }
                        } else {
                            assert(ds@[i] == x);
                        }
                    }
                    if x == p {
                    assert(ds@[pos as int] == x);
                }
            }
            assert forall|x: Key| ds@.to_set().contains(x) <==> before.to_set().insert(p).contains(
                x,
            ) by {
                assert(ds@.contains(x) <==> (before.contains(x) || x == p));
                assert(ds@.to_set().contains(x) == ds@.contains(x));
                assert(before.to_set().contains(x) == before.contains(x));
            }
            assert(ds@.to_set() =~= before.to_set().insert(p));
            assert(next.to_set() =~= prev.to_set().insert(p)) by {
                assert forall|x: Key| next.contains(x) <==> (prev.contains(x) || x == p) by {
                    if next.contains(x) {
                        let i = choose|i: int| 0 <= i < next.len() && next[i] == x;
                        if i < a {
                            assert(prev[i] == x);
                        }
                    }
                    if prev.contains(x) {
                        let i = choose|i: int| 0 <= i < prev.len() && prev[i] == x;
                        assert(next[i] == x);
                    }
                    if x == p {
                        assert(next[a as int] == x);
                    }
                }
            }
        }
        a = a + 1;
    }
    assert(offs@.take(offs@.len() as int) == offs@);
    ds
}

proof fn lemma_note_keys_valid(s: Seq<Event>, u: UnitIdx, k: int)
    requires
        0 <= k <= s.len() <= usize::MAX,
    ensures
        offsets_valid(s, note_keys(s, u, k)),
    decreases k,
{
    if k > 0 {
        lemma_note_keys_valid(s, u, k - 1);
        lemma_winning_key_range(s, k - 1, u);
        let prev = note_keys(s, u, k - 1);
        let cur = note_keys(s, u, k);
        assert forall|a: int| 0 <= a < cur.len() implies (#[trigger] cur[a]).key < s.len()
            && cur[a].on < s.len() && s[cur[a].key as int].payload is Key by {
            if a < prev.len() {
                assert(cur[a] == prev[a]);
            }
        }
    }
}

proof fn lemma_rising_count(ds: Seq<Key>)
    requires
        strictly_rising(ds),
    ensures
        ds.to_set().len() == ds.len(),
{
    assert(ds.no_duplicates()) by {
        assert forall|a: int, b: int| 0 <= a < ds.len() && 0 <= b < ds.len() && a != b implies ds[a]
            != ds[b] by {
            if a < b {
                assert(ds[a] < ds[b]);
            } else {
                assert(ds[b] < ds[a]);
            }
        }
    }
    ds.unique_seq_to_set();
}

/// The rank of pitch `p` among the distinct pitches `ds`.
fn rank_of(ds: &Vec<Key>, p: Key) -> (r: usize)
    requires
        ds@.contains(p),
    ensures
        r == position_of(ds@, p, 0),
        r < ds@.len(),
        ds@[r as int] == p,
{
    let mut i: usize = 0;
    while i < ds.len()
        invariant
            i <= ds@.len(),
            position_of(ds@, p, i as int) == position_of(ds@, p, 0),
            forall|b: int| 0 <= b < i ==> ds@[b] != p,
        decreases ds@.len() - i,
    {
        if ds[i] == p {
            return i;
        }
        i = i + 1;
    }
    assert(false);
    0
}

/// Splits the notes of unit `idx` by pitch. The lowest pitch stays on `idx`;
/// the notes of each other pitch, lowest first, move to a new unit, whose
/// indices start at `n_units`, the number of units the project holds. The
/// key event of every note gets the default key. Each new unit gets, at tick
/// 0, the first voice setting of `idx` (voice 0 where it has none). Then the
/// events are sorted by tick, keeping the order within a tick.
///
/// Returns the distinct pitches, lowest first. Fails, changing nothing, where
/// the new units would take the project past the most units it may hold.
/// Changes nothing where `idx` has no note with a key event.
pub fn split_unit_events_by_key(events: &mut Vec<Event>, n_units: usize, idx: UnitIdx) -> (r:
    Result<Vec<Key>, CapacityError>)
    ensures
        ({
            let s = old(events)@;
            let offs = note_keys(s, idx, s.len() as int);
            let ps = pitches(s, offs);
            &&& (ps.len() > 1 && n_units + ps.len() - 1 > MAX_UNITS) <==> r is Err
            &&& r is Err ==> r == Err::<Vec<Key>, CapacityError>(CapacityError::UnitCapReached)
                && final(events)@ == s
            &&& ps.len() == 0 ==> final(events)@ == s
            &&& r matches Ok(ds) ==> {
                &&& strictly_rising(ds@)
                &&& ds@.to_set() == ps
                &&& ds@.len() == ps.len()
                &&& ds@.len() > 0 ==> stable_tick_sort_of(
                    final(events)@,
                    voice_prefix(first_voice(s, idx, 0), n_units as int, ds@.len() - 1) + assigned(
                        s,
                        offs,
                        ds@,
                        idx,
                        n_units as int,
                        offs.len() as int,
                    ),
                )
            }
        }),
{
    let ghost s = events@;
    // The length is a usize, so the offsets found below fit one.
    let _len = events.len();
    let offs = key_ev_offsets(events, idx);
    proof {
        lemma_note_keys_valid(s, idx, s.len() as int);
    }
    if offs.len() == 0 {
        proof {
            assert(pitches(s, offs@) =~= Set::empty());
        }
        return Ok(Vec::new());
    }
    let ds = distinct_pitches(events, &offs);
    proof {
        lemma_rising_count(ds@);
        assert(offs@.map_values(|o: KeyEvOffsets| pitch_of(s[o.key as int])).contains(
            pitch_of(s[offs@[0].key as int]),
        )) by {
            assert(offs@.map_values(|o: KeyEvOffsets| pitch_of(s[o.key as int]))[0] == pitch_of(
                s[offs@[0].key as int],
            ));
        }
        assert(ds@.to_set().contains(pitch_of(s[offs@[0].key as int])));
    }
    let n_ds = ds.len();
    if n_ds > 1 && (n_units > MAX_UNITS || n_ds - 1 > MAX_UNITS - n_units) {
        return Err(CapacityError::UnitCapReached);
    }
    // The voice that the new units take over.
    let mut voice = VoiceIdx(0);
    let mut v: usize = events.len();
    while v > 0
        invariant
            v <= s.len(),
            events@ == s,
            first_voice(s, idx, v as int) == voice,
        decreases v,
    {
        v = v - 1;
        let e = events[v];
        if e.unit == idx {
            if let EventPayload::SetVoice(vi) = e.payload {
                voice = vi;
            }
        }
    }
    // Ranks are read before any event changes.
    let mut ranks: Vec<usize> = Vec::new();
    let mut a: usize = 0;
    while a < offs.len()
        invariant
            events@ == s,
            offsets_valid(s, offs@),
            ds@.to_set() == pitches(s, offs@),
            a <= offs@.len(),
            ranks@.len() == a,
            forall|b: int|
                0 <= b < a ==> #[trigger] ranks@[b] == position_of(
                    ds@,
                    pitch_of(s[offs@[b].key as int]),
                    0,
                ) && ranks@[b] < ds@.len(),
        decreases offs@.len() - a,
    {
        let o = offs[a];
        let p = match events[o.key].payload {
            EventPayload::Key(k) => k,
            _ => 0,
        };
        proof {
            let ms = offs@.map_values(|o: KeyEvOffsets| pitch_of(s[o.key as int]));
            assert(ms[a as int] == p);
            assert(ds@.to_set().contains(p));
        }
        let r = rank_of(&ds, p);
        ranks.push(r);
        a = a + 1;
    }
    let mut a: usize = 0;
    while a < offs.len()
        invariant
            offsets_valid(s, offs@),
            ranks@.len() == offs@.len(),
            forall|b: int|
                0 <= b < offs@.len() ==> #[trigger] ranks@[b] == position_of(
                    ds@,
                    pitch_of(s[offs@[b].key as int]),
                    0,
                ) && ranks@[b] < ds@.len(),
            n_ds == ds@.len(),
            n_ds > 1 ==> n_units + n_ds - 1 <= MAX_UNITS,
            a <= offs@.len(),
            events@ == assigned(s, offs@, ds@, idx, n_units as int, a as int),
            events@.len() == s.len(),
        decreases offs@.len() - a,
    {
        let o = offs[a];
        let r = ranks[a];
        let target = if r == 0 {
            idx
        } else {
            UnitIdx((n_units + r - 1) as u8)
        };
        let tick = events[o.key].tick;
        events.set(o.key, Event { payload: EventPayload::Key(DEFAULT_KEY), unit: target, tick });
        let e_on = events[o.on];
        events.set(o.on, Event { unit: target, ..e_on });
        a = a + 1;
    }
    let mut out: Vec<Event> = Vec::new();
    let mut r: usize = 0;
    while r + 1 < n_ds
        invariant
            n_ds > 1 ==> n_units + n_ds - 1 <= MAX_UNITS,
            r < n_ds,
            out@ == voice_prefix(voice, n_units as int, r as int),
        decreases n_ds - r,
    {
        out.push(
            Event { payload: EventPayload::SetVoice(voice), unit: UnitIdx((n_units + r) as u8), tick: 0 },
        );
        r = r + 1;
        assert(out@ =~= voice_prefix(voice, n_units as int, r as int));
    }
    out.append(events);
    *events = out;
    sort_by_tick(events);
    Ok(ds)
}

} // verus!
