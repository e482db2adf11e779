//! Deterministic random number generation.
//!
//! All randomness comes from a seeded ChaCha8 generator. The state of the
//! generator is kept as plain values, its key and its position in the key
//! stream, and every draw is a function of that state.

use rand::{RngExt, SeedableRng};
use rand_chacha::ChaCha8Rng;
use vstd::prelude::*;

use crate::time::{saturated, Duration};

verus! {

/// The key that `ChaCha8Rng::seed_from_u64` derives from a seed.
pub uninterp spec fn chacha8_key(seed: u64) -> Seq<u8>;

/// What `RngExt::random::<u64>` returns on the generator with the given key at
/// the given position, and the position that it leaves.
pub uninterp spec fn chacha8_u64(key: Seq<u8>, word_pos: u128) -> (u64, u128);

/// What `RngExt::random_range(low..high)` returns for `u64` bounds, and the
/// position that it leaves.
pub uninterp spec fn chacha8_u64_range(key: Seq<u8>, word_pos: u128, low: u64, high: u64) -> (
    u64,
    u128,
);

/// What `RngExt::random_range(0..high)` returns for a `usize` bound, and the
/// position that it leaves.
pub uninterp spec fn chacha8_usize_below(key: Seq<u8>, word_pos: u128, high: usize) -> (
    usize,
    u128,
);

/// What `RngExt::random_range(0..=high)` returns for a `usize` bound, and the
/// position that it leaves.
pub uninterp spec fn chacha8_usize_through(key: Seq<u8>, word_pos: u128, high: usize) -> (
    usize,
    u128,
);

/// What `RngExt::random_range(low..=high)` returns for `i64` bounds, and the
/// position that it leaves.
pub uninterp spec fn chacha8_i64_through(key: Seq<u8>, word_pos: u128, low: i64, high: i64) -> (
    i64,
    u128,
);

/// The 32 bytes that `RngExt::fill` writes, and the position that it leaves.
pub uninterp spec fn chacha8_bytes(key: Seq<u8>, word_pos: u128) -> (Seq<u8>, u128);

/// The key of `ChaCha8Rng::seed_from_u64(seed)`. The expansion of the seed is
/// fixed by the generator's crate and named here, not restated.
#[verifier::external_body]
fn expand_seed(seed: u64) -> (key: [u8; 32])
    ensures
        key@ == chacha8_key(seed),
{
    ChaCha8Rng::seed_from_u64(seed).get_seed()
}

/// `RngExt::random::<u64>`, on the generator that `ChaCha8Rng::from_seed` and
/// `set_word_pos` restore: the drawn value and the new position are functions
/// of key and position.
#[verifier::external_body]
fn draw_u64(key: &[u8; 32], word_pos: u128) -> (drawn: (u64, u128))
    ensures
        drawn == chacha8_u64(key@, word_pos),
{
    let mut rng = ChaCha8Rng::from_seed(*key);
    rng.set_word_pos(word_pos);
    let value: u64 = rng.random();
    (value, rng.get_word_pos())
}

/// `RngExt::random_range(low..high)` on `u64`, on the restored generator: the
/// value lies in the range, and it and the new position are functions of key,
/// position and range. An empty range panics and is left out.
#[verifier::external_body]
fn draw_u64_range(key: &[u8; 32], word_pos: u128, low: u64, high: u64) -> (drawn: (u64, u128))
    requires
        low < high,
    ensures
        drawn == chacha8_u64_range(key@, word_pos, low, high),
        low <= drawn.0 < high,
{
    let mut rng = ChaCha8Rng::from_seed(*key);
    rng.set_word_pos(word_pos);
    let value: u64 = rng.random_range(low..high);
    (value, rng.get_word_pos())
}

/// `RngExt::random_range(0..high)` on `usize`, on the restored generator: the
/// value lies in the range, and it and the new position are functions of key,
/// position and bound. An empty range panics and is left out.
#[verifier::external_body]
fn draw_usize_below(key: &[u8; 32], word_pos: u128, high: usize) -> (drawn: (usize, u128))
    requires
        0 < high,
    ensures
        drawn == chacha8_usize_below(key@, word_pos, high),
        drawn.0 < high,
{
    let mut rng = ChaCha8Rng::from_seed(*key);
    rng.set_word_pos(word_pos);
    let value: usize = rng.random_range(0..high);
    (value, rng.get_word_pos())
}

/// `RngExt::random_range(0..=high)` on `usize`, on the restored generator: the
/// value lies in the range, and it and the new position are functions of key,
/// position and bound.
#[verifier::external_body]
fn draw_usize_through(key: &[u8; 32], word_pos: u128, high: usize) -> (drawn: (usize, u128))
    ensures
        drawn == chacha8_usize_through(key@, word_pos, high),
        drawn.0 <= high,
{
    let mut rng = ChaCha8Rng::from_seed(*key);
    rng.set_word_pos(word_pos);
    let value: usize = rng.random_range(0..=high);
    (value, rng.get_word_pos())
}

/// `RngExt::random_range(low..=high)` on `i64`, on the restored generator: the
/// value lies in the range, and it and the new position are functions of key,
/// position and range. An empty range panics and is left out.
#[verifier::external_body]
fn draw_i64_through(key: &[u8; 32], word_pos: u128, low: i64, high: i64) -> (drawn: (i64, u128))
    requires
        low <= high,
    ensures
        drawn == chacha8_i64_through(key@, word_pos, low, high),
        low <= drawn.0 <= high,
{
    let mut rng = ChaCha8Rng::from_seed(*key);
    rng.set_word_pos(word_pos);
    let value: i64 = rng.random_range(low..=high);
    (value, rng.get_word_pos())
}

/// `RngExt::fill` on 32 bytes, on the restored generator: the bytes and the new
/// position are functions of key and position.
#[verifier::external_body]
fn draw_bytes(key: &[u8; 32], word_pos: u128) -> (drawn: ([u8; 32], u128))
    ensures
        (drawn.0@, drawn.1) == chacha8_bytes(key@, word_pos),
{
    let mut rng = ChaCha8Rng::from_seed(*key);
    rng.set_word_pos(word_pos);
    let mut bytes = [0u8; 32];
    rng.fill(&mut bytes);
    (bytes, rng.get_word_pos())
}

/// `slice::swap` of std: exchanges the elements at two places of a slice. It
/// panics on a place beyond the end, which is left out.
#[verifier::external_body]
fn swap_places<T>(items: &mut [T], a: usize, b: usize)
    requires
        a < old(items)@.len(),
        b < old(items)@.len(),
    ensures
        final(items)@ == old(items)@.update(a as int, old(items)@[b as int]).update(
            b as int,
            old(items)@[a as int],
        ),
{
    items.swap(a, b);
}

/// A probability, as the generator compares it with 64 random bits.
#[derive(Clone, Copy, Debug, PartialEq, Eq, Structural)]
pub enum Probability {
    /// Exactly zero.
    Never,
    /// The given number of parts out of 2^64.
    Parts(u64),
    /// Exactly one.
    Always,
}

impl Probability {
    /// Whether an event of this probability happens when the random bits read `bits`.
    pub open spec fn hits(self, bits: u64) -> bool {
        match self {
            Probability::Never => false,
            Probability::Parts(parts) => bits < parts,
            Probability::Always => true,
        }
    }

    /// Whether an event of this probability happens when the random bits read `bits`.
    pub fn happens(self, bits: u64) -> (r: bool)
        ensures
            r == self.hits(bits),
    {
        match self {
            Probability::Never => false,
            Probability::Parts(parts) => bits < parts,
            Probability::Always => true,
        }
    }
}

/// `base` moved by `jitter` nanoseconds, but not below zero.
pub fn shift(base: Duration, jitter: i64) -> (d: Duration)
    requires
        base.0 + jitter <= u64::MAX,
    ensures
        d.0 == saturated(base.0 + jitter),
{
    if jitter >= 0 {
        Duration(base.0 + jitter as u64)
    } else if jitter == i64::MIN {
        Duration(base.0.saturating_sub(0x8000_0000_0000_0000))
    } else {
        Duration(base.0.saturating_sub((-jitter) as u64))
    }
}

/// `items` after exchanging, for each place from the last down to the second,
/// what stands there with what stands at the picked place: the first pick is
/// for the last place, the next one for the place before it, and so on.
pub open spec fn exchanged<T>(items: Seq<T>, picks: Seq<usize>) -> Seq<T>
    decreases picks.len(),
{
    if picks.len() == 0 {
        items
    } else {
        let before = exchanged(items, picks.drop_last());
        let i = items.len() - picks.len();
        let j = picks.last() as int;
        before.update(i, before[j]).update(j, before[i])
    }
}

/// Exchanges, for each place of `items` from the last down to the second, what
/// stands there with what stands at the picked place.
pub fn exchange<T>(items: &mut [T], picks: &Vec<usize>)
    requires
        picks.len() <= old(items)@.len(),
        forall|k: int| 0 <= k < picks.len() ==> #[trigger] picks[k] < old(items)@.len() - k,
    ensures
        final(items)@ == exchanged(old(items)@, picks@),
{
    let n: usize = items.len();
    let mut k: usize = 0;
    while k < picks.len()
        invariant
            k <= picks.len() <= n,
            n == old(items)@.len(),
            items@.len() == n,
            forall|k: int| 0 <= k < picks.len() ==> #[trigger] picks[k] < old(items)@.len() - k,
            items@ == exchanged(old(items)@, picks@.take(k as int)),
        decreases picks.len() - k,
    {
        proof {
            assert(picks@.take(k + 1).drop_last() =~= picks@.take(k as int));
            assert(picks@.take(k + 1).last() == picks[k as int]);
        }
        swap_places(items, n - 1 - k, picks[k]);
        k = k + 1;
    }
    assert(picks@.take(picks.len() as int) =~= picks@);
}

/// The state of a generator.
#[verifier::ext_equal]
pub struct RngState {
    /// The key of the key stream.
    pub key: Seq<u8>,
    /// The position in the key stream, in 32-bit words.
    pub word_pos: u128,
}

impl RngState {
    /// The generator at the start of its stream.
    pub open spec fn start(key: Seq<u8>) -> RngState {
        RngState { key, word_pos: 0 }
    }

    /// The same stream at another position.
    pub open spec fn at(self, word_pos: u128) -> RngState {
        RngState { key: self.key, word_pos }
    }

    /// The next 64 random bits, and the state after drawing them.
    pub open spec fn next_bits(self) -> (u64, RngState) {
        let (bits, pos) = chacha8_u64(self.key, self.word_pos);
        (bits, self.at(pos))
    }

    /// Whether an event of the given probability happens, and the state after
    /// deciding it. A certain event takes no draw.
    pub open spec fn toss(self, probability: Probability) -> (bool, RngState) {
        if probability is Always {
            (true, self)
        } else {
            (probability.hits(self.next_bits().0), self.next_bits().1)
        }
    }

    /// A number in `[low, high)`, and the state after drawing it.
    pub open spec fn within(self, low: u64, high: u64) -> (u64, RngState) {
        let (value, pos) = chacha8_u64_range(self.key, self.word_pos, low, high);
        (value, self.at(pos))
    }

    /// A place in `[0, high)`, and the state after drawing it.
    pub open spec fn below(self, high: usize) -> (usize, RngState) {
        let (value, pos) = chacha8_usize_below(self.key, self.word_pos, high);
        (value, self.at(pos))
    }

    /// A place in `[0, high]`, and the state after drawing it.
    pub open spec fn through(self, high: usize) -> (usize, RngState) {
        let (value, pos) = chacha8_usize_through(self.key, self.word_pos, high);
        (value, self.at(pos))
    }

    /// A signed offset of at most `max` nanoseconds, and the state after drawing
    /// it. An offset that can only be zero takes no draw.
    pub open spec fn offset(self, max: Duration) -> (i64, RngState) {
        if max.0 == 0 {
            (0, self)
        } else {
            let (value, pos) = chacha8_i64_through(
                self.key,
                self.word_pos,
                -(max.0 as int) as i64,
                max.0 as i64,
            );
            (value, self.at(pos))
        }
    }

    /// `base` moved by a random offset of at most `max`, but not below zero, and
    /// the state after drawing the offset.
    pub open spec fn jittered(self, base: Duration, max: Duration) -> (Duration, RngState) {
        let (offset, after) = self.offset(max);
        (Duration(saturated(base.0 + offset)), after)
    }

    /// Whether `base` moved by the next random offset of at most `max` is
    /// representable: neither is longer than the largest signed number of
    /// nanoseconds, and nor is the sum.
    pub open spec fn can_jitter(self, base: Duration, max: Duration) -> bool {
        &&& base.0 <= i64::MAX
        &&& max.0 <= i64::MAX
        &&& base.0 + self.offset(max).0 <= i64::MAX
    }

    /// The first `n` picks for shuffling `len` items, and the state after
    /// drawing them.
    pub open spec fn picks(self, len: nat, n: nat) -> (Seq<usize>, RngState)
        decreases n,
    {
        if n == 0 {
            (Seq::empty(), self)
        } else {
            let (before, state) = self.picks(len, (n - 1) as nat);
            let (pick, after) = state.through((len - n) as usize);
            (before.push(pick), after)
        }
    }

    /// The child generator whose key is drawn here, and the state after drawing it.
    pub open spec fn forked(self) -> (RngState, RngState) {
        let (key, pos) = chacha8_bytes(self.key, self.word_pos);
        (RngState::start(key), self.at(pos))
    }
}

/// A deterministic random number generator: everything it hands out is a
/// function of the seed and of what was drawn before.
#[derive(Debug)]
pub struct SimRng {
    key: [u8; 32],
    word_pos: u128,
}

impl Clone for SimRng {
    fn clone(&self) -> (r: SimRng)
        ensures
            r@ == self@,
    {
        SimRng { key: self.key, word_pos: self.word_pos }
    }
}

impl View for SimRng {
    type V = RngState;

    closed spec fn view(&self) -> RngState {
        RngState { key: self.key@, word_pos: self.word_pos }
    }
}

impl SimRng {
    /// Creates a generator from a number.
    pub fn new(seed: u64) -> (r: SimRng)
        ensures
            r@ == RngState::start(chacha8_key(seed)),
    {
        SimRng { key: expand_seed(seed), word_pos: 0 }
    }

    /// Creates a generator from a key.
    pub fn from_seed(seed: [u8; 32]) -> (r: SimRng)
        ensures
            r@ == RngState::start(seed@),
    {
        SimRng { key: seed, word_pos: 0 }
    }

    /// The next 64 random bits.
    pub fn next_bits(&mut self) -> (bits: u64)
        ensures
            (bits, final(self)@) == old(self)@.next_bits(),
    {
        let drawn = draw_u64(&self.key, self.word_pos);
        self.word_pos = drawn.1;
        drawn.0
    }

    /// Whether an event of the given probability happens.
    pub fn bool(&mut self, probability: Probability) -> (r: bool)
        ensures
            (r, final(self)@) == old(self)@.toss(probability),
    {
        match probability {
            Probability::Always => true,
            _ => {
                let bits: u64 = self.next_bits();
                probability.happens(bits)
            },
        }
    }

    /// A number in `[0, max)`.
    pub fn u64(&mut self, max: u64) -> (r: u64)
        requires
            0 < max,
        ensures
            (r, final(self)@) == old(self)@.within(0, max),
            r < max,
    {
        self.u64_range(0, max)
    }

    /// A number in `[min, max)`.
    pub fn u64_range(&mut self, min: u64, max: u64) -> (r: u64)
        requires
            min < max,
        ensures
            (r, final(self)@) == old(self)@.within(min, max),
            min <= r < max,
    {
        let drawn = draw_u64_range(&self.key, self.word_pos, min, max);
        self.word_pos = drawn.1;
        drawn.0
    }

    /// A number in `[0, max)`.
    pub fn usize(&mut self, max: usize) -> (r: usize)
        requires
            0 < max,
        ensures
            (r, final(self)@) == old(self)@.below(max),
            r < max,
    {
        let drawn = draw_usize_below(&self.key, self.word_pos, max);
        self.word_pos = drawn.1;
        drawn.0
    }

    /// A fraction in `[0, 1)`, as the numerator over 2^53 of one of the evenly
    /// spaced values that a double can hold.
    pub fn fraction(&mut self) -> (r: u64)
        ensures
            r == old(self)@.next_bits().0 / 2048,
            final(self)@ == old(self)@.next_bits().1,
            r < 0x20_0000_0000_0000,
    {
        self.next_bits() / 2048
    }

    /// An offset of at most `max_jitter` nanoseconds to either side.
    pub fn jitter(&mut self, max_jitter: Duration) -> (r: i64)
        requires
            max_jitter.0 <= i64::MAX,
        ensures
            (r, final(self)@) == old(self)@.offset(max_jitter),
            -(max_jitter.0 as int) <= r <= max_jitter.0,
    {
        if max_jitter.0 == 0 {
            return 0;
        }
        let max: i64 = max_jitter.0 as i64;
        let drawn = draw_i64_through(&self.key, self.word_pos, -max, max);
        self.word_pos = drawn.1;
        drawn.0
    }

    /// Whether `base` can be moved by the next offset of at most `max_jitter`.
    pub fn can_jitter(&self, base: Duration, max_jitter: Duration) -> (r: bool)
        ensures
            r == self@.can_jitter(base, max_jitter),
            base.0 + max_jitter.0 <= i64::MAX ==> r,
    {
        let limit: u64 = 0x7fff_ffff_ffff_ffff;
        if base.0 > limit || max_jitter.0 > limit {
            return false;
        }
        if max_jitter.0 == 0 {
            return true;
        }
        let max: i64 = max_jitter.0 as i64;
        let drawn = draw_i64_through(&self.key, self.word_pos, -max, max);
        drawn.0 <= 0 || base.0 <= limit - drawn.0 as u64
    }

    /// `base` moved by an offset of at most `max_jitter`, but not below zero, or
    /// `None`, with nothing drawn, where that is not representable.
    pub fn try_duration_with_jitter(&mut self, base: Duration, max_jitter: Duration) -> (r: Option<
        Duration,
    >)
        ensures
            if old(self)@.can_jitter(base, max_jitter) {
                r is Some && (r->0, final(self)@) == old(self)@.jittered(base, max_jitter)
            } else {
                r is None && final(self)@ == old(self)@
            },
            base.0 + max_jitter.0 <= i64::MAX ==> r is Some,
    {
        if self.can_jitter(base, max_jitter) {
            Some(self.duration_with_jitter(base, max_jitter))
        } else {
            None
        }
    }

    /// `base` moved by an offset of at most `max_jitter`, but not below zero.
    pub fn duration_with_jitter(&mut self, base: Duration, max_jitter: Duration) -> (d: Duration)
        requires
            old(self)@.can_jitter(base, max_jitter),
        ensures
            (d, final(self)@) == old(self)@.jittered(base, max_jitter),
            base.0 - max_jitter.0 <= d.0 <= base.0 + max_jitter.0,
    {
        let jitter: i64 = self.jitter(max_jitter);
        shift(base, jitter)
    }

    /// A random element of a slice.
    pub fn choice<'a, T>(&mut self, items: &'a [T]) -> (r: &'a T)
        requires
            items@.len() > 0,
        ensures
            *r == items@[old(self)@.below(items@.len() as usize).0 as int],
            final(self)@ == old(self)@.below(items@.len() as usize).1,
            old(self)@.below(items@.len() as usize).0 < items@.len(),
    {
        let place: usize = self.usize(items.len());
        &items[place]
    }

    /// Shuffles a slice in place.
    pub fn shuffle<T>(&mut self, items: &mut [T])
        ensures
            ({
                let n: nat = if old(items)@.len() == 0 {
                    0
                } else {
                    (old(items)@.len() - 1) as nat
                };
                let (picks, after) = old(self)@.picks(old(items)@.len(), n);
                &&& picks.len() == n
                &&& forall|k: int|
                    0 <= k < picks.len() ==> #[trigger] picks[k] < old(items)@.len() - k
                &&& final(items)@ == exchanged(old(items)@, picks)
                &&& final(self)@ == after
            }),
            final(items)@.to_multiset() == old(items)@.to_multiset(),
    {
        let len: usize = items.len();
        let mut picks: Vec<usize> = Vec::new();
        let mut i: usize = len;
        while i > 1
            invariant
                len == old(items)@.len(),
                items@ == old(items)@,
                i <= len,
                len > 0 ==> i > 0,
                picks.len() == len - i,
                forall|k: int| 0 <= k < picks.len() ==> #[trigger] picks[k] < len - k,
                (picks@, self@) == old(self)@.picks(len as nat, (len - i) as nat),
            decreases i,
        {
            let drawn = draw_usize_through(&self.key, self.word_pos, i - 1);
            self.word_pos = drawn.1;
            picks.push(drawn.0);
            i = i - 1;
        }
        exchange(items, &picks);
        proof {
            lemma_exchanged_permutes(old(items)@, picks@);
        }
    }

    /// A generator with a key drawn from this one.
    pub fn fork(&mut self) -> (child: SimRng)
        ensures
            (child@, final(self)@) == old(self)@.forked(),
    {
        let drawn = draw_bytes(&self.key, self.word_pos);
        self.word_pos = drawn.1;
        SimRng::from_seed(drawn.0)
    }
}

impl Default for SimRng {
    fn default() -> (r: SimRng)
        ensures
            r@ == RngState::start(chacha8_key(0)),
    {
        SimRng::new(0)
    }
}

/// Exchanging two elements keeps the multiset of elements.
proof fn lemma_swap_permutes<T>(items: Seq<T>, i: int, j: int)
    requires
        0 <= i < items.len(),
        0 <= j < items.len(),
    ensures
        items.update(i, items[j]).update(j, items[i]).to_multiset() == items.to_multiset(),
{
    broadcast use vstd::seq_lib::group_to_multiset_ensures;

    vstd::seq_lib::to_multiset_update(items, i, items[j]);
    vstd::seq_lib::to_multiset_update(items.update(i, items[j]), j, items[i]);
}

/// Shuffling never loses or doubles an element, whatever the picks.
pub proof fn lemma_exchanged_permutes<T>(items: Seq<T>, picks: Seq<usize>)
    requires
        picks.len() <= items.len(),
        forall|k: int| 0 <= k < picks.len() ==> #[trigger] picks[k] < items.len() - k,
    ensures
        exchanged(items, picks).len() == items.len(),
        exchanged(items, picks).to_multiset() == items.to_multiset(),
    decreases picks.len(),
{
    if picks.len() > 0 {
        assert forall|k: int| 0 <= k < picks.drop_last().len() implies #[trigger] picks.drop_last()[k]
            < items.len() - k by {
            assert(picks[k] < items.len() - k);
        }
        lemma_exchanged_permutes(items, picks.drop_last());
        let before = exchanged(items, picks.drop_last());
        assert(picks[picks.len() - 1] < items.len() - (picks.len() - 1));
        lemma_swap_permutes(before, items.len() - picks.len(), picks.last() as int);
    }
}

} // verus!
