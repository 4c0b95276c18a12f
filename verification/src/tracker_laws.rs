//! Laws of the gap-aware tracker, stated over its transition model
//! [`track_step`]: any interleaving of disjoint contiguous batches covering
//! `[v0, vn]` drives the frontier to `vn + 1` and leaves nothing parked.
use vstd::prelude::*;
use crate::tracker::{absorb, ranges_disjoint, track_step};
use crate::transaction_context::TransactionMetadata;

verus! {

/// Version `v` lies inside some parked entry of `seen`.
pub open spec fn in_seen(seen: Map<u64, TransactionMetadata>, v: int) -> bool {
    exists|k: u64| #[trigger] seen.contains_key(k) && seen[k].start_version <= v
        && v <= seen[k].end_version
}

/// Version `v` lies inside some batch of `batches`.
pub open spec fn in_batches(batches: Seq<TransactionMetadata>, v: int) -> bool {
    exists|i: int| 0 <= i < batches.len() && (#[trigger] batches[i]).start_version <= v
        && v <= batches[i].end_version
}

/// The tracker's state after feeding it `batches` one at a time.
pub open spec fn track_all(
    next_version: u64,
    seen: Map<u64, TransactionMetadata>,
    batches: Seq<TransactionMetadata>,
) -> (u64, Map<u64, TransactionMetadata>)
    decreases batches.len(),
{
    if batches.len() == 0 {
        (next_version, seen)
    } else {
        let stepped = track_step(next_version, seen, batches[0]);
        track_all(stepped.0, stepped.1, batches.skip(1))
    }
}

/// Every version of `b`'s range is absent from `batches`.
pub open spec fn batch_disjoint_from(batches: Seq<TransactionMetadata>, b: TransactionMetadata) -> bool {
    forall|v: int| b.start_version <= v && v <= b.end_version ==> !in_batches(batches, v)
}

/// Shape of a parked map: finite, every entry keyed by its own non-empty
/// range's start, strictly beyond the frontier, with pairwise disjoint
/// ranges.
pub open spec fn entries_wf(next_version: u64, seen: Map<u64, TransactionMetadata>) -> bool {
    &&& seen.dom().finite()
    &&& forall|k: u64| #[trigger] seen.contains_key(k) ==> (seen[k].start_version == k
        && seen[k].start_version <= seen[k].end_version && seen[k].end_version < u64::MAX && k
        > next_version)
    &&& forall|k1: u64, k2: u64|
        #![trigger seen.contains_key(k1), seen.contains_key(k2)]
        seen.contains_key(k1) && seen.contains_key(k2) && k1 != k2 ==> ranges_disjoint(
            seen[k1],
            seen[k2],
        )
}

/// The versions the tracker accounts for, `[v0, next_version)` plus the
/// parked ranges, are exactly the versions of the batches processed so far.
pub open spec fn covered_matches(
    v0: u64,
    next_version: u64,
    seen: Map<u64, TransactionMetadata>,
    processed: Seq<TransactionMetadata>,
) -> bool {
    forall|v: int|
        #![trigger in_seen(seen, v)]
        #![trigger in_batches(processed, v)]
        (v0 <= v && v < next_version || in_seen(seen, v)) <==> in_batches(processed, v)
}

/// The tracker's inductive invariant along a run that started at `v0`.
pub open spec fn tracker_inv(
    v0: u64,
    next_version: u64,
    seen: Map<u64, TransactionMetadata>,
    processed: Seq<TransactionMetadata>,
) -> bool {
    &&& v0 <= next_version
    &&& entries_wf(next_version, seen)
    &&& covered_matches(v0, next_version, seen, processed)
}

/// What one contiguous advance does: the absorbed entries pave exactly the
/// versions between the cursor's end and the final envelope's end, what
/// remains parked is a sub-map lying strictly beyond the new frontier, and
/// the final envelope ends no earlier than the cursor.
proof fn lemma_absorb_properties(seen: Map<u64, TransactionMetadata>, cursor: TransactionMetadata)
    requires
        seen.dom().finite(),
        forall|k: u64| #[trigger] seen.contains_key(k) ==> (seen[k].start_version == k
            && seen[k].start_version <= seen[k].end_version && seen[k].end_version < u64::MAX),
        forall|k1: u64, k2: u64|
            #![trigger seen.contains_key(k1), seen.contains_key(k2)]
            seen.contains_key(k1) && seen.contains_key(k2) && k1 != k2 ==> ranges_disjoint(
                seen[k1],
                seen[k2],
            ),
        cursor.start_version <= cursor.end_version,
        cursor.end_version < u64::MAX,
        forall|k: u64| #[trigger] seen.contains_key(k) ==> k > cursor.end_version,
    ensures
        ({
            let (remaining, last) = absorb(seen, cursor);
            &&& remaining.dom().finite()
            &&& last.end_version >= cursor.end_version
            &&& last.end_version < u64::MAX
            &&& last.start_version <= last.end_version
            &&& forall|k: u64| #[trigger] remaining.contains_key(k) ==> seen.contains_key(k)
                && remaining[k] == seen[k]
            &&& forall|k: u64| #[trigger] remaining.contains_key(k) ==> k as int
                > last.end_version as int + 1
            &&& forall|v: int|
                #![trigger in_seen(seen, v)]
                #![trigger in_seen(remaining, v)]
                in_seen(seen, v) <==> (in_seen(remaining, v) || (cursor.end_version < v && v
                    <= last.end_version))
            &&& forall|v: int| #[trigger] in_seen(remaining, v) ==> !(cursor.start_version <= v
                && v <= last.end_version)
        }),
    decreases seen.dom().len(),
{
    let key = (cursor.end_version + 1) as u64;
    if seen.contains_key(key) {
        let e = seen[key];
        let rest = seen.remove(key);
        assert forall|k: u64| #[trigger] rest.contains_key(k) implies k > e.end_version by {
            assert(seen.contains_key(k) && k != key);
            assert(ranges_disjoint(seen[k], seen[key]));
            assert(seen[k].end_version >= k);
        }
        lemma_absorb_properties(rest, e);
        let (remaining, last) = absorb(rest, e);
        assert(absorb(seen, cursor) == (remaining, last));
        // Coverage: seen's ranges are rest's ranges plus e's range.
        assert forall|v: int|
            in_seen(seen, v) implies (in_seen(remaining, v) || (cursor.end_version < v && v
            <= last.end_version)) by {
            let k = choose|k: u64| #[trigger] seen.contains_key(k) && seen[k].start_version <= v
                && v <= seen[k].end_version;
            if k == key {
                assert(e.start_version == key);
            } else {
                assert(rest.contains_key(k));
                assert(in_seen(rest, v));
                assert(e.end_version >= e.start_version);
            }
        }
        assert forall|v: int|
            (in_seen(remaining, v) || (cursor.end_version < v && v <= last.end_version))
            implies in_seen(seen, v) by {
            if in_seen(remaining, v) {
                let k = choose|k: u64| #[trigger] remaining.contains_key(k)
                    && remaining[k].start_version <= v && v <= remaining[k].end_version;
                assert(rest.contains_key(k));
                assert(seen.contains_key(k));
            } else {
                if v <= e.end_version {
                    assert(seen.contains_key(key) && seen[key].start_version <= v && v
                        <= seen[key].end_version);
                } else {
                    assert(in_seen(rest, v));
                    let k = choose|k: u64| #[trigger] rest.contains_key(k)
                        && rest[k].start_version <= v && v <= rest[k].end_version;
                    assert(seen.contains_key(k));
                }
            }
        }
        assert forall|v: int| #[trigger] in_seen(remaining, v) implies !(cursor.start_version <= v
            && v <= last.end_version) by {
            if cursor.start_version <= v && v <= last.end_version {
                assert(!(e.start_version <= v && v <= last.end_version));
                assert(v <= cursor.end_version);
                let k = choose|k: u64| #[trigger] remaining.contains_key(k)
                    && remaining[k].start_version <= v && v <= remaining[k].end_version;
                assert(rest.contains_key(k));
                assert(k > cursor.end_version);
            }
        }
    } else {
        assert(absorb(seen, cursor) == (seen, cursor));
        assert forall|k: u64| #[trigger] seen.contains_key(k) implies k as int
            > cursor.end_version as int + 1 by {
            assert(k != key);
        }
        assert forall|v: int| #[trigger] in_seen(seen, v) implies !(cursor.start_version <= v && v
            <= cursor.end_version) by {
            let k = choose|k: u64| #[trigger] seen.contains_key(k) && seen[k].start_version <= v
                && v <= seen[k].end_version;
        }
    }
}

/// Pushing a batch onto a run extends its covered versions by exactly that
/// batch's range.
proof fn lemma_in_batches_push(batches: Seq<TransactionMetadata>, b: TransactionMetadata)
    ensures
        forall|v: int|
            #![trigger in_batches(batches.push(b), v)]
            #![trigger in_batches(batches, v)]
            in_batches(batches.push(b), v) <==> (in_batches(batches, v) || (b.start_version <= v
                && v <= b.end_version)),
{
    assert forall|v: int|
        in_batches(batches.push(b), v) implies (in_batches(batches, v) || (b.start_version <= v
        && v <= b.end_version)) by {
        let i = choose|i: int| 0 <= i < batches.push(b).len()
            && (#[trigger] batches.push(b)[i]).start_version <= v
            && v <= batches.push(b)[i].end_version;
        if i < batches.len() {
            assert(batches[i] == batches.push(b)[i]);
            assert(in_batches(batches, v));
        } else {
            assert(batches.push(b)[i] == b);
        }
    }
    assert forall|v: int|
        (in_batches(batches, v) || (b.start_version <= v && v <= b.end_version))
        implies in_batches(batches.push(b), v) by {
        if in_batches(batches, v) {
            let i = choose|i: int| 0 <= i < batches.len()
                && (#[trigger] batches[i]).start_version <= v && v <= batches[i].end_version;
            assert(batches.push(b)[i] == batches[i]);
            assert(0 <= i < batches.push(b).len() && batches.push(b)[i].start_version <= v
                && v <= batches.push(b)[i].end_version);
        } else {
            assert(batches.push(b)[batches.len() as int] == b);
            assert(0 <= batches.len() < batches.push(b).len()
                && batches.push(b)[batches.len() as int].start_version <= v
                && v <= batches.push(b)[batches.len() as int].end_version);
        }
    }
}

/// One step on a fresh batch, disjoint from everything processed before,
/// keeps the tracker's invariant.
proof fn lemma_step_preserves_inv(
    v0: u64,
    next_version: u64,
    seen: Map<u64, TransactionMetadata>,
    processed: Seq<TransactionMetadata>,
    b: TransactionMetadata,
)
    requires
        tracker_inv(v0, next_version, seen, processed),
        b.start_version <= b.end_version,
        b.end_version < u64::MAX,
        v0 <= b.start_version,
        batch_disjoint_from(processed, b),
    ensures
        ({
            let stepped = track_step(next_version, seen, b);
            tracker_inv(v0, stepped.0, stepped.1, processed.push(b))
        }),
{
    lemma_in_batches_push(processed, b);
    if b.start_version < next_version {
        assert(v0 <= b.start_version < next_version);
        assert(in_batches(processed, b.start_version as int));
        assert(false);
    } else if b.start_version == next_version {
        assert forall|k: u64| #[trigger] seen.contains_key(k) implies k > b.end_version by {
            if k <= b.end_version {
                assert(seen.contains_key(k) && seen[k].start_version <= k as int
                    && k as int <= seen[k].end_version);
                assert(in_seen(seen, k as int));
                assert(in_batches(processed, k as int));
                assert(b.start_version <= k as int && k as int <= b.end_version);
            }
        }
        lemma_absorb_properties(seen, b);
        let (remaining, last) = absorb(seen, b);
        let stepped = track_step(next_version, seen, b);
        assert(stepped.0 as int == last.end_version as int + 1);
        assert(stepped.1 == remaining);
        assert forall|k: u64| #[trigger] remaining.contains_key(k) implies (
            remaining[k].start_version == k && remaining[k].start_version
            <= remaining[k].end_version && remaining[k].end_version < u64::MAX && k
            > stepped.0) by {
            assert(seen.contains_key(k) && remaining[k] == seen[k]);
            assert(k as int > last.end_version as int + 1);
        }
        assert forall|k1: u64, k2: u64|
            remaining.contains_key(k1) && remaining.contains_key(k2) && k1 != k2
            implies ranges_disjoint(remaining[k1], remaining[k2]) by {
            assert(seen.contains_key(k1) && seen.contains_key(k2));
        }
        assert(entries_wf(stepped.0, remaining));
        assert forall|v: int|
            #![trigger in_seen(remaining, v)]
            #![trigger in_batches(processed.push(b), v)]
            (v0 <= v && v < stepped.0 || in_seen(remaining, v)) <==> in_batches(
            processed.push(b),
            v,
        ) by {
            if v0 <= v && v < stepped.0 {
                if v < next_version {
                    assert(in_batches(processed, v));
                } else if v <= b.end_version {
                    assert(b.start_version <= v && v <= b.end_version);
                } else {
                    assert(b.end_version < v && v <= last.end_version);
                    assert(in_seen(seen, v));
                    assert(in_batches(processed, v));
                }
            }
            if in_seen(remaining, v) {
                assert(in_seen(seen, v));
                assert(in_batches(processed, v));
            }
            if in_batches(processed, v) {
                if !(v0 <= v && v < next_version) {
                    assert(in_seen(seen, v));
                    if in_seen(remaining, v) {
                    } else {
                        assert(b.end_version < v && v <= last.end_version);
                        assert(v < stepped.0);
                    }
                }
                assert(next_version as int <= last.end_version as int + 1);
            }
            if b.start_version <= v && v <= b.end_version {
                assert(v0 <= v && v < stepped.0);
            }
        }
    } else {
        // A batch ahead of the frontier is parked; nothing at its key yet.
        assert(!seen.contains_key(b.start_version)) by {
            if seen.contains_key(b.start_version) {
                assert(seen[b.start_version].start_version <= b.start_version as int
                    && b.start_version as int <= seen[b.start_version].end_version);
                assert(in_seen(seen, b.start_version as int));
                assert(in_batches(processed, b.start_version as int));
            }
        }
        let inserted = seen.insert(b.start_version, b);
        assert forall|k: u64| #[trigger] inserted.contains_key(k) implies (
            inserted[k].start_version == k && inserted[k].start_version
            <= inserted[k].end_version && inserted[k].end_version < u64::MAX && k
            > next_version) by {
            if k != b.start_version {
                assert(seen.contains_key(k));
            }
        }
        assert forall|k1: u64, k2: u64|
            inserted.contains_key(k1) && inserted.contains_key(k2) && k1 != k2
            implies ranges_disjoint(inserted[k1], inserted[k2]) by {
            if k1 == b.start_version || k2 == b.start_version {
                let other = if k1 == b.start_version { k2 } else { k1 };
                assert(seen.contains_key(other));
                if !ranges_disjoint(seen[other], b) {
                    let w: int = if seen[other].start_version >= b.start_version {
                        seen[other].start_version as int
                    } else {
                        b.start_version as int
                    };
                    assert(seen[other].start_version <= w && w <= seen[other].end_version);
                    assert(b.start_version <= w && w <= b.end_version);
                    assert(in_seen(seen, w));
                    assert(in_batches(processed, w));
                }
            } else {
                assert(seen.contains_key(k1) && seen.contains_key(k2));
            }
        }
        assert forall|v: int|
            #![trigger in_seen(inserted, v)]
            #![trigger in_batches(processed.push(b), v)]
            (v0 <= v && v < next_version || in_seen(inserted, v)) <==> in_batches(
            processed.push(b),
            v,
        ) by {
            if in_seen(inserted, v) {
                let k = choose|k: u64| #[trigger] inserted.contains_key(k)
                    && inserted[k].start_version <= v && v <= inserted[k].end_version;
                if k == b.start_version {
                    assert(b.start_version <= v && v <= b.end_version);
                } else {
                    assert(seen.contains_key(k));
                    assert(in_seen(seen, v));
                }
            }
            if in_batches(processed, v) {
                if !(v0 <= v && v < next_version) {
                    assert(in_seen(seen, v));
                    let k = choose|k: u64| #[trigger] seen.contains_key(k)
                        && seen[k].start_version <= v && v <= seen[k].end_version;
                    assert(inserted.contains_key(k) && inserted[k] == seen[k]);
                    assert(in_seen(inserted, v));
                }
            }
            if b.start_version <= v && v <= b.end_version {
                assert(inserted.contains_key(b.start_version)
                    && inserted[b.start_version].start_version <= v
                    && v <= inserted[b.start_version].end_version);
                assert(in_seen(inserted, v));
            }
        }
    }
}

/// Running the tracker over any sequence of mutually disjoint fresh batches
/// keeps the invariant.
proof fn lemma_track_all_maintains_inv(
    v0: u64,
    next_version: u64,
    seen: Map<u64, TransactionMetadata>,
    processed: Seq<TransactionMetadata>,
    rest: Seq<TransactionMetadata>,
)
    requires
        tracker_inv(v0, next_version, seen, processed),
        forall|i: int| 0 <= i < rest.len() ==> ((#[trigger] rest[i]).start_version
            <= rest[i].end_version && rest[i].end_version < u64::MAX && v0
            <= rest[i].start_version),
        forall|i: int| 0 <= i < rest.len() ==> #[trigger] batch_disjoint_from(processed, rest[i]),
        forall|i: int, j: int| 0 <= i < j < rest.len() ==> #[trigger] ranges_disjoint(
            rest[i],
            rest[j],
        ),
    ensures
        ({
            let fin = track_all(next_version, seen, rest);
            tracker_inv(v0, fin.0, fin.1, processed + rest)
        }),
    decreases rest.len(),
{
    if rest.len() == 0 {
        assert(processed + rest =~= processed);
    } else {
        let b = rest[0];
        assert(batch_disjoint_from(processed, b));
        lemma_step_preserves_inv(v0, next_version, seen, processed, b);
        lemma_in_batches_push(processed, b);
        let stepped = track_step(next_version, seen, b);
        let tail = rest.skip(1);
        assert forall|i: int| 0 <= i < tail.len() implies #[trigger] batch_disjoint_from(
            processed.push(b),
            tail[i],
        ) by {
            assert(tail[i] == rest[i + 1]);
            assert(batch_disjoint_from(processed, rest[i + 1]));
            assert(ranges_disjoint(rest[0], rest[i + 1]));
            assert forall|v: int|
                tail[i].start_version <= v && v <= tail[i].end_version implies !in_batches(
                processed.push(b),
                v,
            ) by {
                assert(!in_batches(processed, v));
                assert(!(b.start_version <= v && v <= b.end_version));
            }
        }
        assert forall|i: int| 0 <= i < tail.len() implies ((#[trigger] tail[i]).start_version
            <= tail[i].end_version && tail[i].end_version < u64::MAX && v0
            <= tail[i].start_version) by {
            assert(tail[i] == rest[i + 1]);
        }
        assert forall|i: int, j: int| 0 <= i < j < tail.len() implies #[trigger] ranges_disjoint(
            tail[i],
            tail[j],
        ) by {
            assert(tail[i] == rest[i + 1] && tail[j] == rest[j + 1]);
            assert(ranges_disjoint(rest[i + 1], rest[j + 1]));
        }
        lemma_track_all_maintains_inv(v0, stepped.0, stepped.1, processed.push(b), tail);
        assert(processed.push(b) + tail =~= processed + rest);
    }
}

/// When the processed batches cover exactly `[v0, vn]`, the invariant forces
/// the frontier to `vn + 1` with nothing parked.
proof fn lemma_inv_at_full_coverage(
    v0: u64,
    vn: u64,
    next_version: u64,
    seen: Map<u64, TransactionMetadata>,
    processed: Seq<TransactionMetadata>,
)
    requires
        tracker_inv(v0, next_version, seen, processed),
        v0 <= vn,
        vn < u64::MAX,
        forall|v: int| #[trigger] in_batches(processed, v) <==> (v0 <= v && v <= vn),
    ensures
        next_version as int == vn as int + 1,
        seen =~= Map::<u64, TransactionMetadata>::empty(),
{
    assert forall|k: u64| !(#[trigger] seen.contains_key(k)) by {
        if seen.contains_key(k) {
            assert(seen[k].start_version <= k as int && k as int <= seen[k].end_version);
            assert(in_seen(seen, k as int));
            assert(in_batches(processed, k as int));
            assert(k as int <= vn);
            // The frontier itself would then be covered, but nothing covers it.
            assert(v0 <= next_version as int && next_version as int <= vn);
            assert(in_batches(processed, next_version as int));
            assert(!(v0 <= next_version as int && next_version < next_version));
            assert(in_seen(seen, next_version as int));
            let k2 = choose|k2: u64| #[trigger] seen.contains_key(k2)
                && seen[k2].start_version <= next_version as int
                && next_version as int <= seen[k2].end_version;
            assert(k2 > next_version);
            assert(false);
        }
    }
    assert(in_batches(processed, vn as int));
    assert(!in_seen(seen, vn as int));
    assert(next_version as int > vn as int);
    if next_version as int > vn as int + 1 {
        assert(v0 <= vn as int + 1 && vn as int + 1 < next_version as int);
        assert(in_batches(processed, vn as int + 1));
        assert(false);
    }
    assert(seen =~= Map::<u64, TransactionMetadata>::empty());
}

/// Monotonic frontier and bounded memory: feed the tracker, in any order,
/// batches with internally contiguous, pairwise disjoint ranges whose union
/// is exactly `[v0, vn]`; afterwards its frontier is `vn + 1` and no parked
/// entry remains.
pub proof fn lemma_full_coverage_advances_frontier(
    v0: u64,
    vn: u64,
    batches: Seq<TransactionMetadata>,
)
    requires
        v0 <= vn,
        vn < u64::MAX,
        forall|i: int| 0 <= i < batches.len() ==> (#[trigger] batches[i]).start_version
            <= batches[i].end_version,
        forall|i: int, j: int| 0 <= i < j < batches.len() ==> #[trigger] ranges_disjoint(
            batches[i],
            batches[j],
        ),
        forall|v: int| #[trigger] in_batches(batches, v) <==> (v0 <= v && v <= vn),
    ensures
        track_all(v0, Map::empty(), batches).0 as int == vn as int + 1,
        track_all(v0, Map::empty(), batches).1 =~= Map::<u64, TransactionMetadata>::empty(),
{
    assert forall|i: int| 0 <= i < batches.len() implies ((#[trigger] batches[i]).start_version
        <= batches[i].end_version && batches[i].end_version < u64::MAX && v0
        <= batches[i].start_version) by {
        assert(batches[i].start_version <= batches[i].start_version as int
            && batches[i].start_version as int <= batches[i].end_version);
        assert(in_batches(batches, batches[i].start_version as int));
        assert(batches[i].start_version <= batches[i].end_version as int
            && batches[i].end_version as int <= batches[i].end_version);
        assert(in_batches(batches, batches[i].end_version as int));
    }
    assert forall|i: int| 0 <= i < batches.len() implies #[trigger] batch_disjoint_from(
        Seq::<TransactionMetadata>::empty(),
        batches[i],
    ) by {
        assert forall|v: int| !in_batches(Seq::<TransactionMetadata>::empty(), v) by {
            if in_batches(Seq::<TransactionMetadata>::empty(), v) {
                let j = choose|j: int| 0 <= j < Seq::<TransactionMetadata>::empty().len()
                    && (#[trigger] Seq::<TransactionMetadata>::empty()[j]).start_version <= v
                    && v <= Seq::<TransactionMetadata>::empty()[j].end_version;
            }
        }
    }
    assert(tracker_inv(v0, v0, Map::empty(), Seq::<TransactionMetadata>::empty())) by {
        assert forall|v: int| !in_seen(Map::<u64, TransactionMetadata>::empty(), v) by {
            if in_seen(Map::<u64, TransactionMetadata>::empty(), v) {
                let k = choose|k: u64| #[trigger] Map::<u64, TransactionMetadata>::empty().contains_key(
                    k,
                ) && Map::<u64, TransactionMetadata>::empty()[k].start_version <= v
                    && v <= Map::<u64, TransactionMetadata>::empty()[k].end_version;
            }
        }
        assert forall|v: int| !in_batches(Seq::<TransactionMetadata>::empty(), v) by {
            if in_batches(Seq::<TransactionMetadata>::empty(), v) {
                let j = choose|j: int| 0 <= j < Seq::<TransactionMetadata>::empty().len()
                    && (#[trigger] Seq::<TransactionMetadata>::empty()[j]).start_version <= v
                    && v <= Seq::<TransactionMetadata>::empty()[j].end_version;
            }
        }
    }
    lemma_track_all_maintains_inv(
        v0,
        v0,
        Map::empty(),
        Seq::<TransactionMetadata>::empty(),
        batches,
    );
    assert(Seq::<TransactionMetadata>::empty() + batches =~= batches);
    let fin = track_all(v0, Map::empty(), batches);
    lemma_inv_at_full_coverage(v0, vn, fin.0, fin.1, batches);
}

} // verus!
