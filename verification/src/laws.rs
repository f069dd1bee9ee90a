//! Laws of the reservation protocol, proved over the model in `model`.
//!
//! `Buffer::wf` ties every reachable arena state to a model run on its
//! recorded requests, so these lemmas speak about every sequence of
//! `allocate` / `alloc_mut` calls.

use vstd::prelude::*;

use crate::buffer::Buffer;
use crate::model::cursor_after;
use crate::model::fits;
use crate::model::granted;
use crate::model::granted_total;
use crate::model::ranges_disjoint;
use crate::model::step;
use crate::model::sum_of;

verus! {

/// The cursor a run reaches is the starting cursor plus the total size of
/// the granted requests: rejected requests consume nothing.
pub proof fn lemma_cursor_is_sum_of_grants(cursor: nat, cap: nat, sizes: Seq<nat>)
    ensures
        cursor_after(cursor, cap, sizes) == cursor + granted_total(cursor, cap, sizes),
    decreases sizes.len(),
{
    if sizes.len() == 0 {
    } else {
        lemma_cursor_is_sum_of_grants(step(cursor, cap, sizes[0]), cap, sizes.drop_first());
    }
}

/// For a well-formed arena: the bytes consumed so far are exactly the sum
/// of the sizes of the granted requests, so `remaining()` is the capacity
/// minus that sum.
pub proof fn lemma_consumed_is_sum_of_grants(b: Buffer)
    requires
        b.wf(),
    ensures
        b.cursor() == granted_total(0, b.capacity(), b.requests()),
{
    lemma_cursor_is_sum_of_grants(0, b.capacity(), b.requests());
}

/// Every range granted by a run starts at or after the starting cursor.
pub proof fn lemma_granted_lower_bound(cursor: nat, cap: nat, sizes: Seq<nat>)
    ensures
        forall|k: int|
            0 <= k < granted(cursor, cap, sizes).len() ==> (#[trigger] granted(
                cursor,
                cap,
                sizes,
            )[k]).0 >= cursor,
    decreases sizes.len(),
{
    if sizes.len() == 0 {
    } else {
        let s0 = sizes[0];
        let rest = sizes.drop_first();
        let g_rest = granted(step(cursor, cap, s0), cap, rest);
        lemma_granted_lower_bound(step(cursor, cap, s0), cap, rest);
        let g = granted(cursor, cap, sizes);
        assert forall|k: int| 0 <= k < g.len() implies (#[trigger] g[k]).0 >= cursor by {
            if fits(cursor, cap, s0) {
                assert(g == seq![(cursor, s0)] + g_rest);
                if k > 0 {
                    assert(g[k] == g_rest[k - 1]);
                    assert(g_rest[k - 1].0 >= step(cursor, cap, s0));
                }
            } else {
                assert(g == g_rest);
                assert(g_rest[k].0 >= step(cursor, cap, s0));
            }
        }
    }
}

/// Every granted range fits the region: it is non-empty and ends strictly
/// below the capacity.
pub proof fn lemma_granted_within_region(cursor: nat, cap: nat, sizes: Seq<nat>)
    ensures
        forall|k: int|
            0 <= k < granted(cursor, cap, sizes).len() ==> 0 < (#[trigger] granted(
                cursor,
                cap,
                sizes,
            )[k]).1 && granted(cursor, cap, sizes)[k].0 + granted(cursor, cap, sizes)[k].1 < cap,
    decreases sizes.len(),
{
    if sizes.len() == 0 {
    } else {
        let s0 = sizes[0];
        let rest = sizes.drop_first();
        let g_rest = granted(step(cursor, cap, s0), cap, rest);
        lemma_granted_within_region(step(cursor, cap, s0), cap, rest);
        let g = granted(cursor, cap, sizes);
        assert forall|k: int| 0 <= k < g.len() implies 0 < (#[trigger] g[k]).1 && g[k].0 + g[k].1
            < cap by {
            if fits(cursor, cap, s0) {
                assert(g == seq![(cursor, s0)] + g_rest);
                if k > 0 {
                    assert(g[k] == g_rest[k - 1]);
                    assert(0 < g_rest[k - 1].1 && g_rest[k - 1].0 + g_rest[k - 1].1 < cap);
                }
            } else {
                assert(g == g_rest);
                assert(0 < g_rest[k].1 && g_rest[k].0 + g_rest[k].1 < cap);
            }
        }
    }
}

/// If a run grants anything, its first granted range starts exactly at the
/// starting cursor: rejected requests do not move the cursor.
pub proof fn lemma_granted_first_start(cursor: nat, cap: nat, sizes: Seq<nat>)
    ensures
        granted(cursor, cap, sizes).len() > 0 ==> granted(cursor, cap, sizes)[0].0 == cursor,
    decreases sizes.len(),
{
    if sizes.len() == 0 {
    } else {
        lemma_granted_first_start(step(cursor, cap, sizes[0]), cap, sizes.drop_first());
    }
}

/// Each granted range starts exactly where the previous one ended: the
/// granted ranges of a run tile the consumed part of the region back to
/// back, in grant order.
pub proof fn lemma_granted_adjacent(cursor: nat, cap: nat, sizes: Seq<nat>)
    ensures
        forall|i: int, j: int|
            0 <= i && j == i + 1 && j < granted(cursor, cap, sizes).len() ==> (#[trigger] granted(
                cursor,
                cap,
                sizes,
            )[j]).0 == (#[trigger] granted(cursor, cap, sizes)[i]).0 + granted(
                cursor,
                cap,
                sizes,
            )[i].1,
    decreases sizes.len(),
{
    if sizes.len() == 0 {
    } else {
        let s0 = sizes[0];
        let rest = sizes.drop_first();
        let g_rest = granted(step(cursor, cap, s0), cap, rest);
        lemma_granted_adjacent(step(cursor, cap, s0), cap, rest);
        let g = granted(cursor, cap, sizes);
        assert forall|i: int, j: int| 0 <= i && j == i + 1 && j < g.len() implies (#[trigger] g[j]).0
            == (#[trigger] g[i]).0 + g[i].1 by {
            if fits(cursor, cap, s0) {
                assert(g == seq![(cursor, s0)] + g_rest);
                if i == 0 {
                    assert(g[0] == (cursor, s0));
                    assert(g[1] == g_rest[0]);
                    lemma_granted_first_start(step(cursor, cap, s0), cap, rest);
                } else {
                    assert(g[i] == g_rest[i - 1]);
                    assert(g[j] == g_rest[j - 1]);
                    assert(g_rest[j - 1].0 == g_rest[i - 1].0 + g_rest[i - 1].1);
                }
            } else {
                assert(g == g_rest);
                assert(g_rest[j].0 == g_rest[i].0 + g_rest[i].1);
            }
        }
    }
}

/// Disjointness: any two distinct ranges granted by one run share no byte.
pub proof fn lemma_granted_disjoint(cursor: nat, cap: nat, sizes: Seq<nat>)
    ensures
        forall|i: int, j: int|
            0 <= i < j < granted(cursor, cap, sizes).len() ==> ranges_disjoint(
                #[trigger] granted(cursor, cap, sizes)[i],
                #[trigger] granted(cursor, cap, sizes)[j],
            ),
    decreases sizes.len(),
{
    if sizes.len() == 0 {
    } else {
        let s0 = sizes[0];
        let rest = sizes.drop_first();
        let g_rest = granted(step(cursor, cap, s0), cap, rest);
        lemma_granted_disjoint(step(cursor, cap, s0), cap, rest);
        lemma_granted_lower_bound(step(cursor, cap, s0), cap, rest);
        let g = granted(cursor, cap, sizes);
        assert forall|i: int, j: int| 0 <= i < j < g.len() implies ranges_disjoint(
            #[trigger] g[i],
            #[trigger] g[j],
        ) by {
            if fits(cursor, cap, s0) {
                assert(g == seq![(cursor, s0)] + g_rest);
                if i == 0 {
                    assert(g[0] == (cursor, s0));
                    assert(g[j] == g_rest[j - 1]);
                    assert(g_rest[j - 1].0 >= step(cursor, cap, s0));
                } else {
                    assert(g[i] == g_rest[i - 1]);
                    assert(g[j] == g_rest[j - 1]);
                    assert(ranges_disjoint(g_rest[i - 1], g_rest[j - 1]));
                }
            } else {
                assert(g == g_rest);
                assert(ranges_disjoint(g_rest[i], g_rest[j]));
            }
        }
    }
}

/// Disjointness at the arena level: any two distinct ranges granted over a
/// well-formed arena's whole history share no byte.
pub proof fn lemma_buffer_grants_disjoint(b: Buffer)
    requires
        b.wf(),
    ensures
        forall|i: int, j: int|
            0 <= i < j < b.grants().len() ==> ranges_disjoint(
                #[trigger] b.grants()[i],
                #[trigger] b.grants()[j],
            ),
{
    lemma_granted_disjoint(0, b.capacity(), b.requests());
}

/// Adjacency at the arena level: over a well-formed arena's whole history,
/// each granted range starts exactly where the previous one ended.
pub proof fn lemma_buffer_grants_adjacent(b: Buffer)
    requires
        b.wf(),
    ensures
        forall|i: int, j: int|
            0 <= i && j == i + 1 && j < b.grants().len() ==> (#[trigger] b.grants()[j]).0 == (
            #[trigger] b.grants()[i]).0 + b.grants()[i].1,
{
    lemma_granted_adjacent(0, b.capacity(), b.requests());
}

/// Boundary: a request of exactly the remaining capacity never fits; the
/// candidate end offset would reach the capacity, and the policy demands
/// that it stay strictly below it.
pub proof fn lemma_exact_remaining_rejected(cursor: nat, cap: nat)
    requires
        cursor <= cap,
    ensures
        !fits(cursor, cap, (cap - cursor) as nat),
{
}

/// Exhaustion is permanent: a request that does not fit now will not fit
/// after the cursor has advanced further, and a rejected request leaves the
/// cursor where it was, so repeated failures change nothing.
pub proof fn lemma_exhaustion_persists(c1: nat, c2: nat, cap: nat, sz: nat)
    requires
        c1 <= c2,
        !fits(c1, cap, sz),
    ensures
        !fits(c2, cap, sz),
        step(c2, cap, sz) == c2,
{
}

/// A run whose requests leave spare capacity grants all of them: when every
/// requested size is positive and their sum stays strictly below the
/// capacity left ahead of the cursor, the run produces exactly one range
/// per request, and the ranges together cover exactly the sum of the
/// requested sizes. With `lemma_granted_disjoint`, such a run yields as
/// many pairwise disjoint ranges as requests.
pub proof fn lemma_all_fit_all_granted(cursor: nat, cap: nat, sizes: Seq<nat>)
    requires
        forall|k: int| 0 <= k < sizes.len() ==> #[trigger] sizes[k] > 0,
        cursor + sum_of(sizes) < cap,
    ensures
        granted(cursor, cap, sizes).len() == sizes.len(),
        granted_total(cursor, cap, sizes) == sum_of(sizes),
        cursor_after(cursor, cap, sizes) == cursor + sum_of(sizes),
    decreases sizes.len(),
{
    lemma_cursor_is_sum_of_grants(cursor, cap, sizes);
    if sizes.len() == 0 {
    } else {
        let s0 = sizes[0];
        let rest = sizes.drop_first();
        assert(s0 > 0);
        assert(cursor + s0 <= cursor + sum_of(sizes));
        assert(fits(cursor, cap, s0));
        assert forall|k: int| 0 <= k < rest.len() implies #[trigger] rest[k] > 0 by {
            assert(rest[k] == sizes[k + 1]);
        }
        lemma_all_fit_all_granted((cursor + s0) as nat, cap, rest);
        assert(granted(cursor, cap, sizes) == seq![(cursor, s0)] + granted(
            (cursor + s0) as nat,
            cap,
            rest,
        ));
    }
}

/// Mutation isolation: updating one byte inside range `a` changes nothing
/// inside any range `b` disjoint from it, while the written byte reads back.
pub proof fn lemma_write_isolation(s: Seq<u8>, a: (nat, nat), b: (nat, nat), k: nat, j: nat, v: u8)
    requires
        ranges_disjoint(a, b),
        k < a.1,
        j < b.1,
        a.0 + a.1 <= s.len(),
        b.0 + b.1 <= s.len(),
    ensures
        s.update((a.0 + k) as int, v)[(b.0 + j) as int] == s[(b.0 + j) as int],
        s.update((a.0 + k) as int, v)[(a.0 + k) as int] == v,
{
}

} // verus!
