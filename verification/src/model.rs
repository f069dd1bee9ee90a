//! Pure model of the reservation protocol.
//!
//! A run of the allocator is described by the fixed capacity of the region
//! and the sequence of requested sizes. Each request either fits, advancing
//! the cursor, or is rejected, leaving the cursor unchanged.

use vstd::prelude::*;

verus! {

/// Boundary policy: a request of size `sz` fits when it is non-zero and the
/// candidate end offset stays strictly below the capacity. Consequences,
/// both deliberate: a zero-size request is always rejected, and the last
/// byte of the region is never handed out.
pub open spec fn fits(cursor: nat, cap: nat, sz: nat) -> bool {
    0 < sz && cursor + sz < cap
}

/// Cursor after one request: advanced by `sz` when the request fits,
/// unchanged when it is rejected.
pub open spec fn step(cursor: nat, cap: nat, sz: nat) -> nat {
    if fits(cursor, cap, sz) {
        (cursor + sz) as nat
    } else {
        cursor
    }
}

/// Cursor after a whole sequence of requests, applied in order.
pub open spec fn cursor_after(cursor: nat, cap: nat, sizes: Seq<nat>) -> nat
    decreases sizes.len(),
{
    if sizes.len() == 0 {
        cursor
    } else {
        cursor_after(step(cursor, cap, sizes[0]), cap, sizes.drop_first())
    }
}

/// The ranges granted by a sequence of requests: one `(start, length)` pair
/// for each request that fits, in order of grant.
pub open spec fn granted(cursor: nat, cap: nat, sizes: Seq<nat>) -> Seq<(nat, nat)>
    decreases sizes.len(),
{
    if sizes.len() == 0 {
        Seq::empty()
    } else {
        let rest = granted(step(cursor, cap, sizes[0]), cap, sizes.drop_first());
        if fits(cursor, cap, sizes[0]) {
            seq![(cursor, sizes[0])] + rest
        } else {
            rest
        }
    }
}

/// Total number of bytes consumed by the requests that fit.
pub open spec fn granted_total(cursor: nat, cap: nat, sizes: Seq<nat>) -> nat
    decreases sizes.len(),
{
    if sizes.len() == 0 {
        0
    } else {
        let rest = granted_total(step(cursor, cap, sizes[0]), cap, sizes.drop_first());
        if fits(cursor, cap, sizes[0]) {
            (sizes[0] + rest) as nat
        } else {
            rest
        }
    }
}

/// Sum of a sequence of request sizes.
pub open spec fn sum_of(sizes: Seq<nat>) -> nat
    decreases sizes.len(),
{
    if sizes.len() == 0 {
        0
    } else {
        (sizes[0] + sum_of(sizes.drop_first())) as nat
    }
}

/// Two byte ranges, each given as `(start, length)`, share no byte.
pub open spec fn ranges_disjoint(a: (nat, nat), b: (nat, nat)) -> bool {
    a.0 + a.1 <= b.0 || b.0 + b.1 <= a.0
}

/// Appending one request to a run advances the final cursor by exactly one
/// protocol step.
pub proof fn lemma_cursor_after_push(cursor: nat, cap: nat, sizes: Seq<nat>, sz: nat)
    ensures
        cursor_after(cursor, cap, sizes.push(sz)) == step(
            cursor_after(cursor, cap, sizes),
            cap,
            sz,
        ),
    decreases sizes.len(),
{
    if sizes.len() == 0 {
        assert(sizes.push(sz)[0] == sz);
        assert(sizes.push(sz).drop_first() =~= Seq::<nat>::empty());
        assert(cursor_after(cursor, cap, sizes.push(sz)) == cursor_after(
            step(cursor, cap, sz),
            cap,
            Seq::<nat>::empty(),
        ));
        assert(cursor_after(step(cursor, cap, sz), cap, Seq::<nat>::empty()) == step(
            cursor,
            cap,
            sz,
        ));
        assert(cursor_after(cursor, cap, sizes) == cursor);
    } else {
        assert(sizes.push(sz)[0] == sizes[0]);
        assert(sizes.push(sz).drop_first() =~= sizes.drop_first().push(sz));
        assert(cursor_after(cursor, cap, sizes.push(sz)) == cursor_after(
            step(cursor, cap, sizes[0]),
            cap,
            sizes.drop_first().push(sz),
        ));
        lemma_cursor_after_push(step(cursor, cap, sizes[0]), cap, sizes.drop_first(), sz);
        assert(cursor_after(cursor, cap, sizes) == cursor_after(
            step(cursor, cap, sizes[0]),
            cap,
            sizes.drop_first(),
        ));
    }
}

/// Appending one request to a run either appends exactly one granted range,
/// starting at the run's final cursor, or grants nothing.
pub proof fn lemma_granted_push(cursor: nat, cap: nat, sizes: Seq<nat>, sz: nat)
    ensures
        granted(cursor, cap, sizes.push(sz)) == (if fits(
            cursor_after(cursor, cap, sizes),
            cap,
            sz,
        ) {
            granted(cursor, cap, sizes).push((cursor_after(cursor, cap, sizes), sz))
        } else {
            granted(cursor, cap, sizes)
        }),
    decreases sizes.len(),
{
    lemma_cursor_after_push(cursor, cap, sizes, sz);
    if sizes.len() == 0 {
        assert(sizes.push(sz)[0] == sz);
        assert(sizes.push(sz).drop_first() =~= Seq::<nat>::empty());
        assert(granted(cursor, cap, sizes.push(sz)) == (if fits(cursor, cap, sz) {
            seq![(cursor, sz)] + granted(step(cursor, cap, sz), cap, Seq::<nat>::empty())
        } else {
            granted(step(cursor, cap, sz), cap, Seq::<nat>::empty())
        }));
        assert(granted(step(cursor, cap, sz), cap, Seq::<nat>::empty()) =~= Seq::<(
            nat,
            nat,
        )>::empty());
        assert(granted(cursor, cap, sizes) =~= Seq::<(nat, nat)>::empty());
        assert(cursor_after(cursor, cap, sizes) == cursor);
        if fits(cursor, cap, sz) {
            assert(granted(cursor, cap, sizes.push(sz)) =~= granted(cursor, cap, sizes).push(
                (cursor, sz),
            ));
        }
    } else {
        assert(sizes.push(sz)[0] == sizes[0]);
        assert(sizes.push(sz).drop_first() =~= sizes.drop_first().push(sz));
        assert(granted(cursor, cap, sizes.push(sz)) == (if fits(cursor, cap, sizes[0]) {
            seq![(cursor, sizes[0])] + granted(
                step(cursor, cap, sizes[0]),
                cap,
                sizes.drop_first().push(sz),
            )
        } else {
            granted(step(cursor, cap, sizes[0]), cap, sizes.drop_first().push(sz))
        }));
        lemma_granted_push(step(cursor, cap, sizes[0]), cap, sizes.drop_first(), sz);
        assert(granted(cursor, cap, sizes) == (if fits(cursor, cap, sizes[0]) {
            seq![(cursor, sizes[0])] + granted(step(cursor, cap, sizes[0]), cap, sizes.drop_first())
        } else {
            granted(step(cursor, cap, sizes[0]), cap, sizes.drop_first())
        }));
        assert(cursor_after(cursor, cap, sizes) == cursor_after(
            step(cursor, cap, sizes[0]),
            cap,
            sizes.drop_first(),
        ));
        if fits(cursor_after(cursor, cap, sizes), cap, sz) {
            assert(granted(cursor, cap, sizes.push(sz)) =~= granted(cursor, cap, sizes).push(
                (cursor_after(cursor, cap, sizes), sz),
            ));
        }
    }
}

} // verus!
