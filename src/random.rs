//! Seeded xorshift-128 generator: weight initialization, dropout masks and
//! batch shuffling all draw from it, so a run is reproducible from its seed.
use vstd::prelude::*;

verus! {

broadcast use vstd::seq_lib::group_to_multiset_ensures;

pub const KX: u32 = 123456789;
pub const KY: u32 = 362436069;
pub const KZ: u32 = 521288629;
pub const KW: u32 = 88675123;

/// The four words of generator state, in the order `(x, y, z, w)`.
pub type RandState = (u32, u32, u32, u32);

/// Xorshift-128 generator.
pub struct Rand {
    x: u32,
    y: u32,
    z: u32,
    w: u32,
}

impl View for Rand {
    type V = RandState;

    closed spec fn view(&self) -> RandState {
        (self.x, self.y, self.z, self.w)
    }
}

/// The state a generator made from `seed` starts in.
pub open spec fn seeded_state(seed: u32) -> RandState {
    (KX ^ seed, KY ^ seed, KZ, KW)
}

/// One xorshift-128 step.
pub open spec fn next_state(s: RandState) -> RandState {
    let t = s.0 ^ (s.0 << 11u32);
    (s.1, s.2, s.3, s.3 ^ (s.3 >> 19u32) ^ t ^ (t >> 8u32))
}

/// The word that a step from `s` hands out: the new `w`.
pub open spec fn next_word(s: RandState) -> u32 {
    next_state(s).3
}

/// `s` with the elements at `i` and `j` exchanged.
pub open spec fn swapped<T>(s: Seq<T>, i: int, j: int) -> Seq<T> {
    s.update(i, s[j]).update(j, s[i])
}

/// Fisher-Yates from position `i` down to 1: at each position `k` one word
/// is drawn and the element at `k` is exchanged with the one at
/// `word % (k + 1)`. Gives the shuffled sequence and the final state.
pub open spec fn shuffle_from<T>(s: Seq<T>, st: RandState, i: nat) -> (Seq<T>, RandState)
    decreases i,
{
    if i == 0 {
        (s, st)
    } else {
        let st2 = next_state(st);
        let j = (st2.3 as int) % ((i + 1) as int);
        shuffle_from(swapped(s, i as int, j), st2, (i - 1) as nat)
    }
}

/// The whole Fisher-Yates pass over `s`, starting in state `st`.
pub open spec fn shuffled<T>(s: Seq<T>, st: RandState) -> (Seq<T>, RandState) {
    if s.len() == 0 {
        (s, st)
    } else {
        shuffle_from(s, st, (s.len() - 1) as nat)
    }
}

/// Exchanging two elements keeps the multiset of elements.
pub proof fn lemma_swapped_multiset<T>(s: Seq<T>, i: int, j: int)
    requires
        0 <= i < s.len(),
        0 <= j < s.len(),
    ensures
        swapped(s, i, j).to_multiset() == s.to_multiset(),
        swapped(s, i, j).len() == s.len(),
{
    broadcast use vstd::seq_lib::to_multiset_update;

    let s1 = s.update(i, s[j]);
    assert(s1.to_multiset() == s.to_multiset().insert(s[j]).remove(s[i]));
    assert(s1.update(j, s[i]).to_multiset() == s1.to_multiset().insert(s[i]).remove(s1[j]));
    assert(s1[j] == s[j]);
    assert(swapped(s, i, j).to_multiset() =~= s.to_multiset());
}

/// A shuffle is a permutation: same length, same multiset of elements.
pub proof fn lemma_shuffle_from_permutes<T>(s: Seq<T>, st: RandState, i: nat)
    requires
        i < s.len(),
    ensures
        shuffle_from(s, st, i).0.len() == s.len(),
        shuffle_from(s, st, i).0.to_multiset() == s.to_multiset(),
    decreases i,
{
    if i > 0 {
        let st2 = next_state(st);
        let j = (st2.3 as int) % ((i + 1) as int);
        lemma_swapped_multiset(s, i as int, j);
        lemma_shuffle_from_permutes(swapped(s, i as int, j), st2, (i - 1) as nat);
    }
}

/// Shuffling permutes the elements: the result is a rearrangement of the
/// input, with the same length and each element as often as before.
pub proof fn lemma_shuffle_permutes<T>(s: Seq<T>, st: RandState)
    ensures
        shuffled(s, st).0.len() == s.len(),
        shuffled(s, st).0.to_multiset() == s.to_multiset(),
{
    if s.len() > 0 {
        lemma_shuffle_from_permutes(s, st, (s.len() - 1) as nat);
    }
}

impl Rand {
    /// A generator seeded with `seed`.
    pub fn new(seed: u32) -> (r: Rand)
        ensures
            r@ == seeded_state(seed),
    {
        Rand { x: KX ^ seed, y: KY ^ seed, z: KZ, w: KW }
    }

    /// Draws the next 32-bit word.
    pub fn rand(&mut self) -> (r: u32)
        ensures
            final(self)@ == next_state(old(self)@),
            r == next_word(old(self)@),
    {
        let t = self.x ^ (self.x << 11u32);
        self.x = self.y;
        self.y = self.z;
        self.z = self.w;
        self.w = self.w ^ (self.w >> 19u32) ^ t ^ (t >> 8u32);
        self.w
    }

    /// Shuffles `a` in place with Fisher-Yates, drawing one word per
    /// position from the last down to the second.
    pub fn shuffle<T: Copy>(&mut self, a: &mut Vec<T>)
        ensures
            final(a)@ == shuffled(old(a)@, old(self)@).0,
            final(self)@ == shuffled(old(a)@, old(self)@).1,
            final(a)@.to_multiset() == old(a)@.to_multiset(),
    {
        proof {
            lemma_shuffle_permutes(old(a)@, old(self)@);
        }
        if a.len() == 0 {
            return;
        }
        let n = a.len();
        let mut i: usize = n - 1;
        while i > 0
            invariant
                i < n,
                a@.len() == n,
                n == old(a)@.len(),
                shuffle_from(a@, self@, i as nat) == shuffled(old(a)@, old(self)@),
            decreases i,
        {
            let w = self.rand();
            let j: usize = (w as usize) % (i + 1);
            let tmp = a[i];
            let other = a[j];
            a.set(i, other);
            a.set(j, tmp);
            i -= 1;
        }
    }

    /// A draw in `lo..=hi`: `lo` plus the next word modulo the width of the
    /// range.
    pub fn rand_range(&mut self, lo: i32, hi: i32) -> (r: i32)
        requires
            lo <= hi,
            hi - lo + 1 <= i32::MAX,
        ensures
            final(self)@ == next_state(old(self)@),
            r == lo + (next_word(old(self)@) as int) % (hi - lo + 1),
            lo <= r <= hi,
    {
        let m: u32 = (hi - lo + 1) as u32;
        let d = self.rand() % m;
        lo + d as i32
    }
}

} // verus!
