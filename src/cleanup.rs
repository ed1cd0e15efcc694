//! Removal of "losing" events: of several adjacent events that compete for
//! the same slot (unit, tick, kind), only the last one has any effect.

use vstd::prelude::*;
use crate::event::{Event, same_slot, is_same_slot};

verus! {

/// Event `i` of `s` loses: the event right after it takes the same slot.
pub open spec fn loses(s: Seq<Event>, i: int) -> bool {
    0 <= i && i + 1 < s.len() && same_slot(s[i], s[i + 1])
}

/// The indices among the first `k` of `s` whose events do not lose, in order.
pub open spec fn kept_indices(s: Seq<Event>, k: int) -> Seq<int>
    decreases k,
{
    if k <= 0 {
        Seq::empty()
    } else if loses(s, k - 1) {
        kept_indices(s, k - 1)
    } else {
        kept_indices(s, k - 1).push(k - 1)
    }
}

/// `s` without its losing events.
pub open spec fn cleaned(s: Seq<Event>) -> Seq<Event> {
    kept_indices(s, s.len() as int).map_values(|i: int| s[i])
}

/// No two neighbouring events of `s` take the same slot.
pub open spec fn no_adjacent_rivals(s: Seq<Event>) -> bool {
    forall|i: int| 0 <= i && i + 1 < s.len() ==> !#[trigger] same_slot(s[i], s[i + 1])
}

/// Events of one slot stand next to each other in `s`.
pub open spec fn slots_grouped(s: Seq<Event>) -> bool {
    forall|i: int, j: int, m: int|
        0 <= i < m < j < s.len() && #[trigger] same_slot(s[i], s[j]) ==> #[trigger] same_slot(
            s[i],
            s[m],
        )
}

/// Event `i` is the last event of its slot in `s`.
pub open spec fn last_of_slot(s: Seq<Event>, i: int) -> bool {
    forall|j: int| i < j < s.len() ==> !#[trigger] same_slot(s[i], s[j])
}

proof fn lemma_kept_indices_shape(s: Seq<Event>, k: int)
    requires
        0 <= k <= s.len(),
    ensures
        forall|a: int| 0 <= a < kept_indices(s, k).len() ==> {
            &&& 0 <= #[trigger] kept_indices(s, k)[a] < k
            &&& !loses(s, kept_indices(s, k)[a])
        },
        forall|a: int, b: int|
            0 <= a < b < kept_indices(s, k).len() ==> kept_indices(s, k)[a] < kept_indices(
                s,
                k,
            )[b],
        forall|i: int| 0 <= i < k && !loses(s, i) ==> kept_indices(s, k).contains(i),
    decreases k,
{
    if k > 0 {
        lemma_kept_indices_shape(s, k - 1);
        let prev = kept_indices(s, k - 1);
        if !loses(s, k - 1) {
            assert(kept_indices(s, k) == prev.push(k - 1));
            assert forall|i: int| 0 <= i < k && !loses(s, i) implies kept_indices(
                s,
                k,
            ).contains(i) by {
                if i < k - 1 {
                    let a = choose|a: int| 0 <= a < prev.len() && prev[a] == i;
                    assert(kept_indices(s, k)[a] == i);
                } else {
                    assert(kept_indices(s, k)[prev.len() as int] == i);
                }
            }
        }
    }
}

/// The events kept from the first `k` have no neighbouring rivals, and the
/// last of them is no rival of event `k`.
proof fn lemma_kept_no_rivals(s: Seq<Event>, k: int)
    requires
        0 <= k <= s.len(),
    ensures
        no_adjacent_rivals(kept_indices(s, k).map_values(|i: int| s[i])),
        kept_indices(s, k).len() > 0 && k < s.len() ==> !same_slot(
            s[kept_indices(s, k).last()],
            s[k],
        ),
    decreases k,
{
    lemma_kept_indices_shape(s, k);
    if k > 0 {
        lemma_kept_no_rivals(s, k - 1);
        let prev = kept_indices(s, k - 1);
        let pv = prev.map_values(|i: int| s[i]);
        let cur = kept_indices(s, k).map_values(|i: int| s[i]);
        if loses(s, k - 1) {
            if prev.len() > 0 && k < s.len() {
                assert(same_slot(s[k - 1], s[k]));
                assert(!same_slot(s[prev.last()], s[k - 1]));
            }
        } else {
            assert(cur == pv.push(s[k - 1]));
            assert forall|i: int| 0 <= i && i + 1 < cur.len() implies !#[trigger] same_slot(
                cur[i],
                cur[i + 1],
            ) by {
                if i + 1 < pv.len() {
                    assert(cur[i] == pv[i] && cur[i + 1] == pv[i + 1]);
                } else {
                    assert(cur[i] == s[prev.last()]);
                }
            }
        }
    }
}

/// Keeping the non-losing events of a sequence without rivals keeps all of it.
proof fn lemma_kept_all(s: Seq<Event>, k: int)
    requires
        0 <= k <= s.len(),
        no_adjacent_rivals(s),
    ensures
        kept_indices(s, k) == Seq::new(k as nat, |i: int| i),
    decreases k,
{
    if k > 0 {
        lemma_kept_all(s, k - 1);
        let j = k - 1;
        if j + 1 < s.len() {
            assert(!same_slot(s[j], s[j + 1]));
        }
        assert(!loses(s, j));
        assert(kept_indices(s, k) =~= Seq::new(k as nat, |i: int| i));
    }
}

/// Cleaning up is idempotent: a cleaned timeline has no losing events left.
pub proof fn lemma_clean_idempotent(s: Seq<Event>)
    ensures
        cleaned(cleaned(s)) == cleaned(s),
{
    let c = cleaned(s);
    lemma_kept_no_rivals(s, s.len() as int);
    lemma_kept_all(c, c.len() as int);
    assert(cleaned(c) =~= c);
}

/// Where the events of each slot stand together, a cleaned timeline holds at
/// most one event per slot, and it is the last one of that slot.
pub proof fn lemma_clean_one_per_slot(s: Seq<Event>)
    requires
        slots_grouped(s),
    ensures
        forall|a: int, b: int|
            0 <= a < b < cleaned(s).len() ==> !same_slot(cleaned(s)[a], cleaned(s)[b]),
        forall|i: int| 0 <= i < s.len() && last_of_slot(s, i) ==> cleaned(s).contains(s[i]),
        forall|a: int|
            0 <= a < cleaned(s).len() ==> exists|i: int|
                0 <= i < s.len() && last_of_slot(s, i) && s[i] == #[trigger] cleaned(s)[a],
{
    let n = s.len() as int;
    let ks = kept_indices(s, n);
    let c = cleaned(s);
    lemma_kept_indices_shape(s, n);
    // Under grouping, an event that does not lose is the last of its slot.
    assert forall|i: int| 0 <= i < n && !loses(s, i) implies last_of_slot(s, i) by {
        assert forall|j: int| i < j < n implies !#[trigger] same_slot(s[i], s[j]) by {
            if same_slot(s[i], s[j]) && j > i + 1 {
                assert(same_slot(s[i], s[i + 1]));
            }
        }
    }
    assert forall|a: int, b: int| 0 <= a < b < c.len() implies !same_slot(c[a], c[b]) by {
        assert(ks[a] < ks[b]);
        assert(last_of_slot(s, ks[a]));
    }
    assert forall|i: int| 0 <= i < n && last_of_slot(s, i) implies c.contains(s[i]) by {
        if i + 1 < n {
            assert(!same_slot(s[i], s[i + 1]));
        }
        assert(!loses(s, i));
        assert(ks.contains(i));
        let a = choose|a: int| 0 <= a < ks.len() && ks[a] == i;
        assert(c[a] == s[i]);
    }
    assert forall|a: int| 0 <= a < c.len() implies exists|i: int|
        0 <= i < n && last_of_slot(s, i) && s[i] == #[trigger] c[a] by {
        assert(last_of_slot(s, ks[a]));
    }
}

/// Removes every event that loses to the event right after it (same unit,
/// tick and kind), keeping the order of the rest.
pub fn clean_losing_events(events: &mut Vec<Event>)
    ensures
        final(events)@ == cleaned(old(events)@),
{
    let ghost s = events@;
    let n = events.len();
    let mut w: usize = 0;
    let mut i: usize = 0;
    while i < n
        invariant
            n == s.len(),
            events@.len() == n,
            w <= i <= n,
            kept_indices(s, i as int).len() == w,
            events@.subrange(0, w as int) == kept_indices(s, i as int).map_values(
                |j: int| s[j],
            ),
            events@.subrange(i as int, n as int) == s.subrange(i as int, n as int),
        decreases n - i,
    {
        assert(events@[i as int] == s.subrange(i as int, n as int)[0]);
        let e = events[i];
        let losing = i + 1 < n && is_same_slot(&e, &events[i + 1]);
        proof {
            if i + 1 < n {
                assert(events@[i + 1] == s.subrange(i as int, n as int)[1]);
            }
        }
        let ghost before = events@;
        if !losing {
            events.set(w, e);
            w = w + 1;
        }
        proof {
            let ks = kept_indices(s, i as int);
            assert(events@.subrange(i + 1, n as int) =~= s.subrange(i + 1, n as int)) by {
                assert forall|k: int| i + 1 <= k < n implies events@[k] == s[k] by {
                    assert(before[k] == s.subrange(i as int, n as int)[k - i]);
                }
            }
            if !losing {
                assert(events@.subrange(0, w as int) =~= ks.push(i as int).map_values(
                    |j: int| s[j],
                )) by {
                    assert forall|k: int| 0 <= k < w - 1 implies events@[k] == before.subrange(
                        0,
                        w - 1,
                    )[k] by {}
                }
            } else {
                assert(events@.subrange(0, w as int) =~= before.subrange(0, w as int));
            }
        }
        i = i + 1;
    }
    events.truncate(w);
    assert(events@ =~= cleaned(s));
}

} // verus!
