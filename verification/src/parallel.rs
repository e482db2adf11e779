//! Many independent runs over a range of seeds: which seed each run gets, how many
//! workers share the runs, and how their results are put in order.

use vstd::prelude::*;

verus! {

/// The seed of the run with the given index.
pub open spec fn seed_of(base_seed: u64, index: int) -> u64 {
    ((base_seed + index) % 0x1_0000_0000_0000_0000) as u64
}

/// The seed of the run with the given index.
pub fn seed_at(base_seed: u64, index: usize) -> (seed: u64)
    ensures
        seed == seed_of(base_seed, index as int),
{
    base_seed.wrapping_add(index as u64)
}

/// The number of workers for `count` runs: what was asked for, or what the machine
/// offers, or one; but never more than there are runs.
pub fn worker_count(threads: Option<usize>, available: Option<usize>, count: usize) -> (n: usize)
    ensures
        ({
            let wanted = match (threads, available) {
                (Some(t), _) => t,
                (None, Some(a)) => a,
                (None, None) => 1,
            };
            n == if wanted <= count {
                wanted
            } else {
                count
            }
        }),
{
    let wanted: usize = match threads {
        Some(t) => t,
        None => match available {
            Some(a) => a,
            None => 1,
        },
    };
    if wanted <= count {
        wanted
    } else {
        count
    }
}

/// Makes the run with the given index and returns its result with the index.
pub fn run_seed<F: Fn(u64) -> T, T>(base_seed: u64, index: usize, factory: &F) -> (r: (usize, T))
    requires
        call_requires(*factory, (seed_of(base_seed, index as int),)),
    ensures
        r.0 == index,
        call_ensures(*factory, (seed_of(base_seed, index as int),), r.1),
{
    (index, factory(seed_at(base_seed, index)))
}

/// Whether a result of the run with the given index is among the results.
pub open spec fn occurs<T>(results: Seq<(usize, T)>, index: int) -> bool {
    exists|k: int| 0 <= k < results.len() && (#[trigger] results[k]).0 == index
}

/// Whether every index below `count` occurs exactly once among the results, and no
/// other.
pub open spec fn complete<T>(results: Seq<(usize, T)>, count: nat) -> bool {
    &&& forall|k: int| 0 <= k < results.len() ==> (#[trigger] results[k]).0 < count
    &&& forall|j: int, k: int|
        0 <= j < k < results.len() ==> (#[trigger] results[j]).0 != (#[trigger] results[k]).0
    &&& forall|i: int| 0 <= i < count ==> #[trigger] occurs(results, i)
}

/// Whether `merged` holds each result at its index.
pub open spec fn in_order<T>(results: Seq<(usize, T)>, merged: Seq<T>) -> bool {
    forall|k: int|
        0 <= k < results.len() ==> {
            let (i, value) = #[trigger] results[k];
            i < merged.len() && merged[i as int] == value
        }
}

/// The results of all workers, one worker after the other.
pub open spec fn flattened<T>(chunks: Seq<Vec<(usize, T)>>) -> Seq<(usize, T)>
    decreases chunks.len(),
{
    if chunks.len() == 0 {
        Seq::empty()
    } else {
        flattened(chunks.drop_last()) + chunks.last()@
    }
}

/// The results in order of their index do not depend on which worker made which
/// run, nor on the order in which the runs were done.
pub proof fn order_is_independent_of_workers<T>(
    a: Seq<(usize, T)>,
    b: Seq<(usize, T)>,
    merged_a: Seq<T>,
    merged_b: Seq<T>,
)
    requires
        complete(a, merged_a.len()),
        complete(b, merged_b.len()),
        in_order(a, merged_a),
        in_order(b, merged_b),
        forall|r: (usize, T)| a.contains(r) <==> b.contains(r),
    ensures
        merged_a == merged_b,
{
    if merged_a.len() < merged_b.len() {
        let i = merged_a.len() as int;
        assert(occurs(b, i));
        let k = choose|k: int| 0 <= k < b.len() && (#[trigger] b[k]).0 == i;
        assert(b.contains(b[k]));
        let j = choose|j: int| 0 <= j < a.len() && a[j] == b[k];
        assert(a[j].0 == i);
    }
    assert forall|i: int| 0 <= i < merged_a.len() implies i < merged_b.len()
        && #[trigger] merged_a[i] == merged_b[i] by {
        assert(occurs(a, i));
        let k = choose|k: int| 0 <= k < a.len() && (#[trigger] a[k]).0 == i;
        assert(a.contains(a[k]));
        let j = choose|j: int| 0 <= j < b.len() && b[j] == a[k];
        assert(b[j].0 == i);
    }
    if merged_b.len() < merged_a.len() {
        assert(merged_a[merged_b.len() as int] == merged_b[merged_b.len() as int]);
    }
    assert(merged_a =~= merged_b);
}

/// The results come in the order of the seeds, whoever made them: where every result is
/// one that the run with its index may have, the result at each place is one that the
/// run with the seed of that place may have.
pub proof fn results_come_in_the_order_of_the_seeds<F: Fn(u64) -> T, T>(
    factory: F,
    base_seed: u64,
    results: Seq<(usize, T)>,
    merged: Seq<T>,
)
    requires
        complete(results, merged.len()),
        in_order(results, merged),
        forall|k: int|
            0 <= k < results.len() ==> call_ensures(
                factory,
                (seed_of(base_seed, results[k].0 as int),),
                (#[trigger] results[k]).1,
            ),
    ensures
        forall|i: int|
            0 <= i < merged.len() ==> call_ensures(
                factory,
                (seed_of(base_seed, i),),
                #[trigger] merged[i],
            ),
{
    assert forall|i: int| 0 <= i < merged.len() implies call_ensures(
        factory,
        (seed_of(base_seed, i),),
        #[trigger] merged[i],
    ) by {
        assert(occurs(results, i));
        let k = choose|k: int| 0 <= k < results.len() && (#[trigger] results[k]).0 == i;
        assert(merged[results[k].0 as int] == results[k].1);
    }
}

/// No two runs have the same seed.
pub proof fn seeds_are_distinct(base_seed: u64, i: usize, j: usize)
    requires
        i != j,
    ensures
        seed_of(base_seed, i as int) != seed_of(base_seed, j as int),
{
}

/// Which results stand in which slots.
spec fn filled<T>(results: Seq<(usize, T)>, slots: Seq<Option<T>>) -> bool {
    &&& forall|k: int|
        0 <= k < results.len() ==> {
            let (i, value) = #[trigger] results[k];
            i < slots.len() && slots[i as int] == Some(value)
        }
    &&& forall|j: int, k: int|
        0 <= j < k < results.len() ==> (#[trigger] results[j]).0 != (#[trigger] results[k]).0
    &&& forall|i: int|
        0 <= i < slots.len() && (#[trigger] slots[i]) is Some ==> occurs(results, i)
}

/// Puts the results of all workers in order of their index. `None` if an index is
/// missing, occurs twice, or is not below `count`.
pub fn merge<T>(count: usize, chunks: Vec<Vec<(usize, T)>>) -> (r: Option<Vec<T>>)
    ensures
        match r {
            Some(merged) => {
                &&& complete(flattened(chunks@), count as nat)
                &&& merged.len() == count
                &&& in_order(flattened(chunks@), merged@)
            },
            None => !complete(flattened(chunks@), count as nat),
        },
{
    let ghost all = chunks@;
    let ghost results = flattened(all);
    let mut slots: Vec<Option<T>> = Vec::with_capacity(count);
    while slots.len() < count
        invariant
            slots.len() <= count,
            forall|i: int| 0 <= i < slots.len() ==> (#[trigger] slots@[i]) is None,
        decreases count - slots.len(),
    {
        slots.push(None);
    }
    assert(filled(flattened(all.take(0)), slots@));
    for chunk in it: chunks
        invariant
            it.seq() == all,
            all == chunks@,
            results == flattened(all),
            slots.len() == count,
            filled(flattened(all.take(it.index())), slots@),
    {
        let ghost k = it.index();
        let ghost earlier = flattened(all.take(k));
        let ghost items = chunk@;
        assert(all.take(k + 1).drop_last() =~= all.take(k));
        assert(earlier + items.take(0) =~= earlier);
        for item in inner: chunk
            invariant
                inner.seq() == items,
                0 <= k < all.len(),
                items == all[k]@,
                earlier == flattened(all.take(k)),
                all == chunks@,
                results == flattened(all),
                slots.len() == count,
                filled(earlier + items.take(inner.index()), slots@),
        {
            let ghost n = inner.index();
            let ghost sofar = earlier + items.take(n);
            let (i, value) = item;
            if i >= count || slots[i].is_some() {
                proof {
                    lemma_flattened_prefix(all, k);
                    assert(results[earlier.len() + n] == items[n]);
                    if i < count {
                        let j = choose|j: int| 0 <= j < sofar.len() && (#[trigger] sofar[j]).0 == i;
                        assert(results[j] == sofar[j]);
                    }
                }
                return None;
            }
            let ghost old_slots = slots@;
            slots.set(i, Some(value));
            proof {
                let longer = earlier + items.take(n + 1);
                assert(longer =~= sofar.push((i, value)));
                assert forall|j: int| 0 <= j < longer.len() implies {
                    let (a, v) = #[trigger] longer[j];
                    a < slots.len() && slots@[a as int] == Some(v)
                } by {
                    if j < sofar.len() {
                        assert(longer[j] == sofar[j]);
                    }
                }
                assert forall|a: int, b: int| 0 <= a < b < longer.len() implies (
                #[trigger] longer[a]).0 != (#[trigger] longer[b]).0 by {
                    assert(longer[a] == sofar[a]);
                    if b < sofar.len() {
                        assert(longer[b] == sofar[b]);
                    }
                }
                assert forall|a: int|
                    0 <= a < slots.len() && (#[trigger] slots@[a]) is Some implies occurs(
                    longer,
                    a,
                ) by {
                    if a == i {
                        assert(longer[sofar.len() as int].0 == a);
                    } else {
                        assert(old_slots[a] is Some);
                        let j = choose|j: int| 0 <= j < sofar.len() && (#[trigger] sofar[j]).0 == a;
                        assert(longer[j].0 == a);
                    }
                }
            }
        }
        assert(items.take(items.len() as int) =~= items);
        assert(flattened(all.take(k + 1)) =~= earlier + items);
    }
    assert(all.take(all.len() as int) =~= all);
    let ghost full = slots@;
    let mut merged: Vec<T> = Vec::with_capacity(count);
    for slot in it: slots
        invariant
            it.seq() == full,
            full.len() == count,
            filled(results, full),
            all == chunks@,
            results == flattened(all),
            merged.len() == it.index(),
            forall|i: int| 0 <= i < it.index() ==> #[trigger] full[i] == Some(merged@[i]),
    {
        match slot {
            Some(value) => {
                merged.push(value);
            },
            None => {
                proof {
                    let i = it.index();
                    assert(full[i] is None);
                    if complete(results, count as nat) {
                        assert(occurs(results, i));
                        let k = choose|k: int|
                            0 <= k < results.len() && (#[trigger] results[k]).0 == i;
                        assert(full[results[k].0 as int] == Some(results[k].1));
                    }
                }
                return None;
            },
        }
    }
    proof {
        assert forall|i: int| 0 <= i < count implies #[trigger] occurs(results, i) by {
            assert(full[i] is Some);
        }
        assert forall|k: int| 0 <= k < results.len() implies {
            let (i, value) = #[trigger] results[k];
            i < merged.len() && merged@[i as int] == value
        } by {
            assert(full[results[k].0 as int] == Some(results[k].1));
        }
    }
    Some(merged)
}

/// The results of the first workers come first, followed by those of the next.
proof fn lemma_flattened_prefix<T>(chunks: Seq<Vec<(usize, T)>>, k: int)
    requires
        0 <= k < chunks.len(),
    ensures
        flattened(chunks.take(k)).len() + chunks[k]@.len() <= flattened(chunks).len(),
        forall|i: int|
            0 <= i < flattened(chunks.take(k)).len() ==> #[trigger] flattened(chunks)[i]
                == flattened(chunks.take(k))[i],
        forall|i: int|
            0 <= i < chunks[k]@.len() ==> flattened(chunks)[flattened(chunks.take(k)).len() + i]
                == #[trigger] chunks[k]@[i],
    decreases chunks.len(),
{
    let fewer = chunks.drop_last();
    if k == chunks.len() - 1 {
        assert(chunks.take(k) =~= fewer);
    } else {
        lemma_flattened_prefix(fewer, k);
        assert(fewer.take(k) =~= chunks.take(k));
    }
}

/// The seeds count up from the base, one for each run, and start again at zero after the last
/// number.
pub proof fn seeds_count_up(base_seed: u64, index: usize)
    ensures
        seed_of(base_seed, 0) == base_seed,
        seed_of(base_seed, index as int) < u64::MAX ==> seed_of(base_seed, index + 1) == seed_of(
            base_seed,
            index as int,
        ) + 1,
        seed_of(base_seed, index as int) == u64::MAX ==> seed_of(base_seed, index + 1) == 0,
{
}

/// The results of all workers are those of the first, followed by those of the others; of one
/// worker they are its own.
pub proof fn results_are_chained<T>(some: Seq<Vec<(usize, T)>>, more: Seq<Vec<(usize, T)>>)
    ensures
        flattened(some + more) == flattened(some) + flattened(more),
        some.len() == 1 ==> flattened(some) == some[0]@,
        some.len() == 0 ==> flattened(some).len() == 0,
    decreases more.len(),
{
    reveal_with_fuel(flattened, 2);
    if some.len() == 1 {
        assert(some.drop_last() =~= Seq::<Vec<(usize, T)>>::empty());
        assert(flattened(some) =~= some[0]@);
    }
    if more.len() == 0 {
        assert(some + more =~= some);
        assert(flattened(some) + flattened(more) =~= flattened(some));
    } else {
        assert((some + more).drop_last() =~= some + more.drop_last());
        results_are_chained(some, more.drop_last());
        assert(flattened(some + more) =~= flattened(some) + flattened(more));
    }
}

/// There are never more workers than runs, and otherwise as many as were asked for; if none were
/// asked for as many as the machine offers, and one if that is unknown.
pub proof fn workers_are_at_most_the_runs(
    threads: Option<usize>,
    available: Option<usize>,
    count: usize,
    n: usize,
)
    requires
        call_ensures(worker_count, (threads, available, count), n),
    ensures
        n <= count,
        threads matches Some(t) ==> (n == t || n == count) && n <= t,
        threads is None && available is Some ==> (n == available->0 || n == count) && n
            <= available->0,
        threads is None && available is None ==> n <= 1 && (count > 0 ==> n == 1),
{
}

/// Each run is made with its own seed, and its result is returned with its index.
pub proof fn runs_get_their_own_seeds<F: Fn(u64) -> T, T>(
    base_seed: u64,
    index: usize,
    factory: F,
    r: (usize, T),
)
    requires
        call_ensures(run_seed::<F, T>, (base_seed, index, &factory), r),
        base_seed + index <= u64::MAX,
    ensures
        r.0 == index,
        call_ensures(factory, ((base_seed + index) as u64,), r.1),
{
}

/// Results are put in order exactly if there is one of each run and no other; each then stands at
/// the index of its run.
pub proof fn results_stand_at_their_index<T>(
    count: usize,
    chunks: Vec<Vec<(usize, T)>>,
    r: Option<Vec<T>>,
    k: int,
)
    requires
        call_ensures(merge::<T>, (count, chunks), r),
        0 <= k < flattened(chunks@).len(),
    ensures
        r matches Some(merged) ==> {
            let (index, value) = flattened(chunks@)[k];
            &&& merged.len() == count
            &&& index < count
            &&& merged[index as int] == value
            &&& forall|j: int|
                0 <= j < flattened(chunks@).len() && j != k ==> (
                #[trigger] flattened(chunks@)[j]).0 != index
            &&& forall|i: int|
                0 <= i < count ==> exists|j: int|
                    0 <= j < flattened(chunks@).len() && #[trigger] flattened(chunks@)[j] == (
                        i as usize,
                        #[trigger] merged[i],
                    )
        },
{
    if let Some(merged) = r {
        let all = flattened(chunks@);
        assert forall|j: int| 0 <= j < all.len() && j != k implies (#[trigger] all[j]).0
            != all[k].0 by {
            if j < k {
                assert(all[j].0 != all[k].0);
            } else {
                assert(all[k].0 != all[j].0);
            }
        }
        assert forall|i: int| 0 <= i < count implies exists|j: int|
            0 <= j < all.len() && #[trigger] all[j] == (i as usize, #[trigger] merged[i]) by {
            assert(occurs(all, i));
            let j = choose|j: int| 0 <= j < all.len() && (#[trigger] all[j]).0 == i;
            assert(all[j] == (i as usize, merged[i]));
        }
    }
}

/// Results are not put in order only if a run is missing, was made twice, or is none of those that
/// were asked for.
pub proof fn results_fail_to_stand_in_order_for_a_reason<T>(
    count: usize,
    chunks: Vec<Vec<(usize, T)>>,
    r: Option<Vec<T>>,
)
    requires
        call_ensures(merge::<T>, (count, chunks), r),
    ensures
        ({
            let all = flattened(chunks@);
            r is None <==> {
                ||| exists|k: int| 0 <= k < all.len() && (#[trigger] all[k]).0 >= count
                ||| exists|j: int, k: int|
                    0 <= j < k < all.len() && (#[trigger] all[j]).0 == (#[trigger] all[k]).0
                ||| exists|i: int| 0 <= i < count && #[trigger] missing(all, i)
            }
        }),
{
    let all = flattened(chunks@);
    assert forall|i: int| #[trigger] missing(all, i) == !occurs(all, i) by {}
    if r is None {
        if forall|i: int| 0 <= i < count ==> #[trigger] occurs(all, i) {
            assert(!complete(all, count as nat));
        } else {
            let i = choose|i: int| 0 <= i < count && !#[trigger] occurs(all, i);
            assert(missing(all, i));
        }
    } else {
        assert forall|i: int| 0 <= i < count implies !#[trigger] missing(all, i) by {
            assert(occurs(all, i));
        }
    }
}

/// Whether there is no result of the run with the given index.
pub open spec fn missing<T>(results: Seq<(usize, T)>, index: int) -> bool {
    forall|k: int| 0 <= k < results.len() ==> (#[trigger] results[k]).0 != index
}

} // verus!
