//! What the draws of a generator are: each reads the key stream at the place where the
//! generator stands, and leaves the generator behind what it has read.

use vstd::prelude::*;

use crate::rng::{
    chacha8_bytes, chacha8_i64_through, chacha8_u64, chacha8_u64_range, chacha8_usize_below,
    chacha8_usize_through, exchanged, shift, Probability, RngState, SimRng,
};
use crate::time::Duration;

verus! {

/// Whether an event of probability `p` happens with the next random bits of the stream: it
/// does where they read less than its parts.
pub open spec fn comes_about(p: Probability, rng: RngState) -> bool {
    match p {
        Probability::Never => false,
        Probability::Always => true,
        Probability::Parts(parts) => chacha8_u64(rng.key, rng.word_pos).0 < parts,
    }
}

/// The stream past the bits that decided on an event of probability `p`, where it was neither
/// certain nor impossible.
pub open spec fn past(p: Probability, rng: RngState) -> RngState {
    match p {
        Probability::Parts(_) => RngState {
            key: rng.key,
            word_pos: chacha8_u64(rng.key, rng.word_pos).1,
        },
        _ => rng,
    }
}

/// A generator draws from its own stream, where it stands, within the limits that it was given.
pub proof fn draws_read_the_stream(rng: RngState, low: u64, high: u64, places: usize)
    ensures
        ({
            let (bits, after) = rng.next_bits();
            (bits, after.word_pos) == chacha8_u64(rng.key, rng.word_pos) && after.key == rng.key
        }),
        ({
            let (n, after) = rng.within(low, high);
            (n, after.word_pos) == chacha8_u64_range(rng.key, rng.word_pos, low, high) && after.key
                == rng.key
        }),
        ({
            let (n, after) = rng.below(places);
            (n, after.word_pos) == chacha8_usize_below(rng.key, rng.word_pos, places) && after.key
                == rng.key
        }),
        ({
            let (n, after) = rng.through(places);
            (n, after.word_pos) == chacha8_usize_through(rng.key, rng.word_pos, places)
                && after.key == rng.key
        }),
{
}

/// A generator with a key starts at the beginning of its stream, and a child gets the bytes
/// that are drawn as its key.
pub proof fn streams_start_at_their_beginning(rng: RngState, key: Seq<u8>)
    ensures
        RngState::start(key).key == key,
        RngState::start(key).word_pos == 0,
        ({
            let (child, after) = rng.forked();
            &&& child.word_pos == 0
            &&& (child.key, after.word_pos) == chacha8_bytes(rng.key, rng.word_pos)
            &&& after.key == rng.key
        }),
{
}

/// An event happens as often as its probability says: never, always, or where the next bits
/// read less than its parts; and of two probabilities the greater one happens whenever the
/// lesser does.
pub proof fn tosses_follow_the_bits(rng: RngState, p: Probability, less: u64, more: u64, bits: u64)
    requires
        less <= more,
    ensures
        rng.toss(p).0 == comes_about(p, rng),
        p !is Never ==> rng.toss(p).1 == past(p, rng),
        Probability::Parts(less).hits(bits) ==> Probability::Parts(more).hits(bits),
        Probability::Parts(more).hits(bits) <==> bits < more,
        Probability::Always.hits(bits),
        !Probability::Never.hits(bits),
{
}

/// The offset that a generator draws for jitter of at most `max`, and the stream behind it.
/// Where there is no jitter nothing is drawn.
pub open spec fn drawn_offset(rng: RngState, max: Duration) -> (int, RngState) {
    if max.0 == 0 {
        (0, rng)
    } else {
        let drawn = chacha8_i64_through(
            rng.key,
            rng.word_pos,
            (0 - max.0) as i64,
            max.0 as i64,
        );
        (drawn.0 as int, RngState { key: rng.key, word_pos: drawn.1 })
    }
}

/// Whether `d` is `base` moved by an offset, but not below zero.
pub open spec fn moved(base: Duration, offset: int, d: Duration) -> bool {
    if base.0 + offset < 0 {
        d.0 == 0
    } else {
        d.0 == base.0 + offset
    }
}

/// Jitter moves a duration by the offset that is drawn, up or down, but not below zero, unless
/// that is not representable.
pub proof fn jitter_moves_by_the_drawn_offset(rng: RngState, base: Duration, max: Duration)
    ensures
        rng.offset(max).0 == drawn_offset(rng, max).0,
        rng.offset(max).1 == drawn_offset(rng, max).1,
        rng.jittered(base, max).1 == drawn_offset(rng, max).1,
        base.0 + drawn_offset(rng, max).0 <= u64::MAX ==> moved(
            base,
            drawn_offset(rng, max).0,
            rng.jittered(base, max).0,
        ),
        rng.can_jitter(base, max) <==> base.0 <= i64::MAX && max.0 <= i64::MAX && base.0
            + drawn_offset(rng, max).0 <= i64::MAX,
{
}

/// Whether `states` are the states of a generator from pick to pick while it shuffles `len`
/// items: for the last place any place is picked, then for the place before it any but the
/// last, and so on.
pub open spec fn is_picking(
    rng: RngState,
    len: nat,
    picks: Seq<usize>,
    states: Seq<RngState>,
) -> bool {
    &&& states.len() == picks.len() + 1
    &&& states[0] == rng
    &&& forall|k: int|
        #![trigger picks[k]]
        0 <= k < picks.len() ==> {
            let drawn = chacha8_usize_through(
                rng.key,
                states[k].word_pos,
                (len - 1 - k) as usize,
            );
            picks[k] == drawn.0 && states[k + 1] == (RngState { key: rng.key, word_pos: drawn.1 })
        }
}

/// Shuffling picks a place for each item from the last to the second, among those up to its
/// own.
pub proof fn shuffles_pick_from_what_is_left(rng: RngState, len: nat, n: nat) -> (states: Seq<
    RngState,
>)
    requires
        n < len,
    ensures
        is_picking(rng, len, rng.picks(len, n).0, states),
        rng.picks(len, n).0.len() == n,
        states.last() == rng.picks(len, n).1,
    decreases n,
{
    if n == 0 {
        seq![rng]
    } else {
        let before = shuffles_pick_from_what_is_left(rng, len, (n - 1) as nat);
        let (picks, after) = rng.picks(len, n);
        let fewer = rng.picks(len, (n - 1) as nat).0;
        let states = before.push(after);
        assert(states[0] == before[0]);
        assert(before[0] == rng);
        lemma_key_stays(rng, len, (n - 1) as nat);
        assert forall|k: int| #![trigger picks[k]] 0 <= k < picks.len() implies {
            let drawn = chacha8_usize_through(
                rng.key,
                states[k].word_pos,
                (len - 1 - k) as usize,
            );
            picks[k] == drawn.0 && states[k + 1] == (RngState { key: rng.key, word_pos: drawn.1 })
        } by {
            if k < n - 1 {
                assert(picks[k] == fewer[k]);
                assert(states[k] == before[k]);
                assert(states[k + 1] == before[k + 1]);
            }
        }
        states
    }
}

proof fn lemma_key_stays(rng: RngState, len: nat, n: nat)
    ensures
        rng.picks(len, n).1.key == rng.key,
    decreases n,
{
    if n > 0 {
        lemma_key_stays(rng, len, (n - 1) as nat);
    }
}

/// Exchanging goes place by place: the last pick exchanges what stands at its place and what
/// stands at the picked one, and leaves all else as the picks before it left it.
pub proof fn exchanges_go_place_by_place<T>(items: Seq<T>, picks: Seq<usize>)
    requires
        0 < picks.len() <= items.len(),
        picks.last() < items.len(),
        exchanged(items, picks.drop_last()).len() == items.len(),
    ensures
        exchanged(items, Seq::<usize>::empty()) == items,
        ({
            let before = exchanged(items, picks.drop_last());
            let after = exchanged(items, picks);
            let place = items.len() - picks.len();
            let picked = picks.last() as int;
            &&& after.len() == items.len()
            &&& after[place] == before[picked]
            &&& after[picked] == before[place]
            &&& forall|i: int|
                0 <= i < items.len() && i != place && i != picked ==> #[trigger] after[i]
                    == before[i]
        }),
{
}

/// Every operation of a generator reads the stream where the last one stopped: which number it
/// draws, from where, and up to what bound is told by its arguments, and it stops where the draw
/// stops.
pub proof fn generators_read_their_stream(
    g: &mut SimRng,
    probability: Probability,
    max: u64,
    low: u64,
    places: usize,
    bits: u64,
    index: usize,
    happens: bool,
)
    ensures
        ({
            let key = old(g)@.key;
            let pos = old(g)@.word_pos;
            let same = final(g)@.key == key;
            &&& call_ensures(SimRng::next_bits, (g,), bits) ==> same && (bits, final(g)@.word_pos)
                == chacha8_u64(key, pos)
            &&& call_ensures(SimRng::fraction, (g,), bits) ==> {
                let (drawn, end) = chacha8_u64(key, pos);
                &&& same
                &&& final(g)@.word_pos == end
                &&& bits * 2048 <= drawn < (bits + 1) * 2048
            }
            &&& call_ensures(SimRng::u64, (g, max), bits) ==> same && (bits, final(g)@.word_pos)
                == chacha8_u64_range(key, pos, 0, max)
            &&& call_ensures(SimRng::u64_range, (g, low, max), bits) ==> same && (
            bits, final(g)@.word_pos) == chacha8_u64_range(key, pos, low, max)
            &&& call_ensures(SimRng::usize, (g, places), index) ==> same && (
            index, final(g)@.word_pos) == chacha8_usize_below(key, pos, places)
            &&& call_ensures(SimRng::bool, (g, probability), happens) ==> happens == comes_about(
                probability,
                old(g)@,
            ) && same && final(g)@.word_pos == (if probability is Always {
                pos
            } else {
                chacha8_u64(key, pos).1
            })
        }),
{
}

/// A choice is the item at a drawn place.
pub proof fn choices_are_drawn_places<T>(g: &mut SimRng, items: &[T], r: &T)
    requires
        call_ensures(SimRng::choice::<T>, (g, items), r),
        items@.len() > 0,
    ensures
        ({
            let (place, end) = chacha8_usize_below(
                old(g)@.key,
                old(g)@.word_pos,
                items@.len() as usize,
            );
            &&& place < items@.len()
            &&& *r == items@[place as int]
            &&& final(g)@.key == old(g)@.key
            &&& final(g)@.word_pos == end
        }),
{
}

/// Jitter is an offset that is drawn, and moves a span by it; a span that cannot be moved is not,
/// and nothing is drawn then.
pub proof fn jitter_moves_spans(
    g: &mut SimRng,
    base: Duration,
    max: Duration,
    offset: i64,
    r: Option<Duration>,
    d: Duration,
)
    ensures
        ({
            let (drawn, after) = drawn_offset(old(g)@, max);
            let can = base.0 <= i64::MAX && max.0 <= i64::MAX && base.0 + drawn <= i64::MAX;
            &&& call_ensures(SimRng::jitter, (g, max), offset) ==> offset == drawn && final(g)@
                == after
            &&& call_ensures(SimRng::try_duration_with_jitter, (g, base, max), r) ==> {
                &&& r is Some <==> can
                &&& r matches Some(m) ==> moved(base, drawn, m) && final(g)@ == after
                &&& r is None ==> final(g)@ == old(g)@
            }
            &&& call_ensures(SimRng::duration_with_jitter, (g, base, max), d) && can ==> moved(
                base,
                drawn,
                d,
            ) && final(g)@ == after
        }),
{
}

/// A generator starts at the beginning of the stream of its seed, or of the key that is given, and
/// a fork at the beginning of a stream whose key is drawn.
pub proof fn generators_start_at_the_beginning(
    seed: u64,
    key: [u8; 32],
    a: SimRng,
    b: SimRng,
    g: &mut SimRng,
    child: SimRng,
)
    requires
        call_ensures(SimRng::new, (seed,), a),
        call_ensures(SimRng::from_seed, (key,), b),
        call_ensures(SimRng::fork, (g,), child),
    ensures
        a@.key == crate::rng::chacha8_key(seed),
        a@.word_pos == 0,
        b@.key == key@,
        b@.word_pos == 0,
        child@.word_pos == 0,
        final(g)@.key == old(g)@.key,
        (child@.key, final(g)@.word_pos) == chacha8_bytes(old(g)@.key, old(g)@.word_pos),
{
}

/// A span is moved by an offset, but not below zero.
pub proof fn spans_are_moved_but_not_below_zero(base: Duration, offset: i64, d: Duration)
    requires
        call_ensures(shift, (base, offset), d),
        base.0 + offset <= u64::MAX,
    ensures
        base.0 + offset >= 0 ==> d.0 - base.0 == offset,
        base.0 + offset < 0 ==> d.0 == 0,
{
}

/// An event happens on as many of the possible draws as its probability has parts out of 2^64: an
/// impossible one on none and a certain one on all.
pub proof fn events_happen_as_often_as_they_should(p: Probability, bits: u64, r: bool)
    requires
        call_ensures(Probability::happens, (p, bits), r),
    ensures
        match p {
            Probability::Never => !r,
            Probability::Parts(parts) => r == (bits < parts),
            Probability::Always => r,
        },
{
}

/// A shuffle exchanges the item at each place, from the last to the second, with the one at a
/// place that is drawn among those up to there; nothing is lost and nothing added.
pub proof fn shuffles_draw_one_place_after_the_other<T>(
    g: &mut SimRng,
    items: &mut [T],
) -> (picks: Seq<usize>)
    requires
        call_ensures(SimRng::shuffle::<T>, (g, items), ()),
    ensures
        old(items)@.len() > 0 ==> picks.len() == old(items)@.len() - 1,
        old(items)@.len() == 0 ==> picks.len() == 0,
        final(items)@ == exchanged(old(items)@, picks),
        final(items)@.to_multiset() == old(items)@.to_multiset(),
        old(items)@.len() > 0 ==> (picks, final(g)@) == old(g)@.picks(
            old(items)@.len(),
            picks.len(),
        ),
{
    let n: nat = if old(items)@.len() == 0 {
        0
    } else {
        (old(items)@.len() - 1) as nat
    };
    old(g)@.picks(old(items)@.len(), n).0
}

} // verus!
