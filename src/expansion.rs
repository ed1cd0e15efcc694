//! Neighbourhood expansion: from one element of a sequence, walk outward in
//! both directions and gather the indices of the elements bound to it.

use vstd::prelude::*;

verus! {

/// The indices that an expansion from `center` over `s` gathers: `center`
/// itself, and each other index where `collect` holds and that the walk
/// reaches, the walk going on from `center` while `cont` holds.
pub open spec fn expansion_set<T, C: Fn(&T) -> bool, L: Fn(&T) -> bool>(
    s: Seq<T>,
    center: int,
    cont: C,
    collect: L,
) -> Set<int> {
    Set::new(
        |i: int|
            i == center || (0 <= i < center && holds_on(collect, s, i) && forall|k: int|
                i <= k < center ==> #[trigger] holds_on(cont, s, k)) || (center < i < s.len()
                && holds_on(collect, s, i) && forall|k: int|
                center < k <= i ==> #[trigger] holds_on(cont, s, k)),
    )
}

/// `p` answers the same for the same element, whenever it is asked.
pub open spec fn is_predicate<T, P: Fn(&T) -> bool>(p: P) -> bool {
    &&& forall|x: &T| #[trigger] p.requires((x,))
    &&& forall|x: &T, a: bool, b: bool|
        #[trigger] p.ensures((x,), a) && #[trigger] p.ensures((x,), b) ==> a == b
}

/// `p` answers true on element `k` of `s`.
pub open spec fn holds_on<T, P: Fn(&T) -> bool>(p: P, s: Seq<T>, k: int) -> bool {
    p.ensures((&s[k],), true)
}

proof fn lemma_push_contains(s: Seq<usize>, x: usize)
    ensures
        forall|i: usize| #[trigger] s.push(x).contains(i) <==> (s.contains(i) || i == x),
{
    assert forall|i: usize| #[trigger] s.push(x).contains(i) <==> (s.contains(i) || i == x) by {
        if s.push(x).contains(i) && i != x {
            let a = choose|a: int| 0 <= a < s.push(x).len() && s.push(x)[a] == i;
            assert(s[a] == i);
        }
        if s.contains(i) {
            let a = choose|a: int| 0 <= a < s.len() && s[a] == i;
            assert(s.push(x)[a] == i);
        }
        if i == x {
            assert(s.push(x)[s.len() as int] == i);
        }
    }
}

/// Collects, from `center` outward in both directions, the indices of the
/// elements on which `p_collect` holds, walking on in each direction as long
/// as `p_continue` holds on the element reached. The result starts with
/// `center`, which it always holds, then the indices left of it, nearest
/// first, then those right of it, nearest first.
pub fn domain_expansion<T, Cont, Coll>(
    slice: &[T],
    center: usize,
    p_continue: Cont,
    p_collect: Coll,
) -> (indices: Vec<usize>) where Cont: Fn(&T) -> bool, Coll: Fn(&T) -> bool
    requires
        center < slice@.len(),
        is_predicate(p_continue),
        is_predicate(p_collect),
    ensures
        indices@.len() > 0,
        indices@[0] == center,
        indices@.no_duplicates(),
        indices@.map_values(|i: usize| i as int).to_set() == expansion_set(
            slice@,
            center as int,
            p_continue,
            p_collect,
        ),
{
    let ghost n = slice@.len() as int;
    let mut indices: Vec<usize> = Vec::new();
    indices.push(center);
    assert forall|i: usize| indices@.contains(i) <==> i == center by {
        if i == center {
            assert(indices@[0] == i);
        }
    }
    let len = slice.len();
    let mut cursor: usize = center;
    // Leftward: `cursor` is the leftmost index reached.
    while cursor > 0
        invariant
            cursor <= center < n,
            n == slice@.len(),
            is_predicate(p_continue),
            is_predicate(p_collect),
            indices@.len() > 0,
            indices@[0] == center,
            indices@.no_duplicates(),
            forall|k: int| cursor <= k < center ==> #[trigger] holds_on(p_continue, slice@, k),
            forall|i: usize|
                indices@.contains(i) <==> (i == center || (cursor <= i < center && holds_on(p_collect, slice@, 
                    i as int,
                ))),
        ensures
            cursor <= center,
            forall|k: int| cursor <= k < center ==> #[trigger] holds_on(p_continue, slice@, k),
            cursor > 0 ==> !holds_on(p_continue, slice@, cursor - 1),
            forall|i: usize|
                indices@.contains(i) <==> (i == center || (cursor <= i < center && holds_on(p_collect, slice@, 
                    i as int,
                ))),
            indices@.len() > 0,
            indices@[0] == center,
            indices@.no_duplicates(),
        decreases cursor,
    {
        let next = cursor - 1;
        let go = p_continue(&slice[next]);
        assert(go == holds_on(p_continue, slice@, next as int));
        if !go {
            break;
        }
        let ghost before = indices@;
        let take = p_collect(&slice[next]);
        assert(take == holds_on(p_collect, slice@, next as int));
        if take {
            assert(!indices@.contains(next));
            indices.push(next);
            proof {
                lemma_push_contains(before, next);
            }
        }
        cursor = next;
    }
    let ghost left = cursor as int;
    cursor = center;
    // Rightward: `cursor` is the rightmost index reached.
    while cursor + 1 < len
        invariant
            left <= center <= cursor < n,
            n == slice@.len(),
            len == n,
            is_predicate(p_continue),
            is_predicate(p_collect),
            indices@.len() > 0,
            indices@[0] == center,
            indices@.no_duplicates(),
            forall|k: int| center < k <= cursor ==> #[trigger] holds_on(p_continue, slice@, k),
            forall|i: usize|
                indices@.contains(i) <==> (i == center || (left <= i < center && holds_on(p_collect, slice@, i as int))
                    || (center < i <= cursor && holds_on(p_collect, slice@, i as int))),
        ensures
            center <= cursor < n,
            forall|k: int| center < k <= cursor ==> #[trigger] holds_on(p_continue, slice@, k),
            cursor + 1 < n ==> !holds_on(p_continue, slice@, cursor + 1),
            forall|i: usize|
                indices@.contains(i) <==> (i == center || (left <= i < center && holds_on(p_collect, slice@, i as int))
                    || (center < i <= cursor && holds_on(p_collect, slice@, i as int))),
            indices@.len() > 0,
            indices@[0] == center,
            indices@.no_duplicates(),
        decreases n - cursor,
    {
        let next = cursor + 1;
        let go = p_continue(&slice[next]);
        assert(go == holds_on(p_continue, slice@, next as int));
        if !go {
            break;
        }
        let ghost before = indices@;
        let take = p_collect(&slice[next]);
        assert(take == holds_on(p_collect, slice@, next as int));
        if take {
            assert(!indices@.contains(next));
            indices.push(next);
            proof {
                lemma_push_contains(before, next);
            }
        }
        cursor = next;
    }
    let ghost right = cursor as int;
    let ghost got = indices@.map_values(|i: usize| i as int).to_set();
    let ghost want = expansion_set(slice@, center as int, p_continue, p_collect);
    assert forall|i: int| got.contains(i) <==> want.contains(i) by {
        if got.contains(i) {
            let a = choose|a: int| 0 <= a < indices@.len() && indices@[a] as int == i;
            assert(indices@.contains(indices@[a]));
        }
        if want.contains(i) {
            if 0 <= i < center {
                if i < left {
                    assert(holds_on(p_continue, slice@, left - 1));
                }
            } else if center < i < n {
                if i > right {
                    assert(holds_on(p_continue, slice@, right + 1));
                }
            }
            let u = i as usize;
            assert(indices@.contains(u));
            let a = choose|a: int| 0 <= a < indices@.len() && indices@[a] == u;
            assert(indices@.map_values(|i: usize| i as int)[a] == i);
        }
    }
    assert(got =~= want);
    indices
}

/// The expansion always holds its center.
pub proof fn lemma_expansion_has_center<T, C: Fn(&T) -> bool, L: Fn(&T) -> bool>(
    s: Seq<T>,
    center: int,
    cont: C,
    collect: L,
)
    ensures
        expansion_set(s, center, cont, collect).contains(center),
{
}

/// With predicates that hold on every element, the expansion from any center
/// of a sequence gathers every index of it.
pub proof fn lemma_expansion_everything<T, C: Fn(&T) -> bool, L: Fn(&T) -> bool>(
    s: Seq<T>,
    center: int,
    cont: C,
    collect: L,
)
    requires
        0 <= center < s.len(),
        forall|k: int| 0 <= k < s.len() ==> holds_on(cont, s, k),
        forall|k: int| 0 <= k < s.len() ==> holds_on(collect, s, k),
    ensures
        expansion_set(s, center, cont, collect) == Set::new(|i: int| 0 <= i < s.len()),
{
    assert(expansion_set(s, center, cont, collect) =~= Set::new(|i: int| 0 <= i < s.len()));
}

} // verus!
