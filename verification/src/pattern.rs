//! Binary pulse patterns: generation of the maximally even base pattern and
//! the cyclic rotation applied on top of it.

use vstd::prelude::*;
use vstd::arithmetic::div_mod::{lemma_small_mod, lemma_mod_multiples_vanish};

verus! {

broadcast use vstd::seq_lib::group_seq_properties;

/// The maximally even binary pattern with `events` pulses over `steps`
/// slots, as the generator produces it (a pulse on the first slot, the
/// remaining pulses spread as evenly as possible).
pub uninterp spec fn euclid_pattern(events: int, steps: int) -> Seq<u8>;

/// A sequence of 0/1 values only.
pub open spec fn is_binary(s: Seq<u8>) -> bool {
    forall|i: int| 0 <= i < s.len() ==> s[i] == 0 || s[i] == 1
}

/// How many slots of the pattern hold a pulse.
pub open spec fn count_ones(s: Seq<u8>) -> int
    decreases s.len(),
{
    if s.len() == 0 {
        0
    } else {
        count_ones(s.drop_last()) + if s.last() == 1 { 1int } else { 0int }
    }
}

/// The pattern shifted cyclically to the right by `r` slots: the last `r`
/// entries move to the front.
pub open spec fn rotate_right_seq(s: Seq<u8>, r: int) -> Seq<u8> {
    if 0 <= r <= s.len() {
        s.subrange(s.len() - r, s.len() as int) + s.subrange(0, s.len() - r)
    } else {
        s
    }
}

/// Relies on euclidian_rythms::euclidian_rythm: writes into a slice of
/// length `steps` the classic Bjorklund pattern for `events` pulses, a
/// binary sequence of that length with exactly `events` ones, starting on a
/// pulse; the result depends on `events` and `steps` alone.
#[verifier::external_body]
pub(crate) fn generate_pattern(events: u32, steps: u32) -> (r: Vec<u8>)
    requires
        1 <= events,
        events < steps,
    ensures
        r@ == euclid_pattern(events as int, steps as int),
        r@.len() == steps as int,
        is_binary(r@),
        count_ones(r@) == events as int,
{
    let mut p: Vec<u8> = vec![0u8; steps as usize];
    let _ = euclidian_rythms::euclidian_rythm(&mut p, events as usize);
    p
}

/// Splitting a pattern splits its pulse count.
pub proof fn lemma_count_ones_add(a: Seq<u8>, b: Seq<u8>)
    ensures
        count_ones(a + b) == count_ones(a) + count_ones(b),
    decreases b.len(),
{
    if b.len() == 0 {
        assert(a + b =~= a);
    } else {
        lemma_count_ones_add(a, b.drop_last());
        assert((a + b).drop_last() =~= a + b.drop_last());
        assert((a + b).last() == b.last());
    }
}

/// Rotation keeps the length, the pulse count, and binarity of a pattern.
pub proof fn lemma_rotate_right_preserves(s: Seq<u8>, r: int)
    requires
        0 <= r <= s.len(),
    ensures
        rotate_right_seq(s, r).len() == s.len(),
        count_ones(rotate_right_seq(s, r)) == count_ones(s),
        is_binary(s) ==> is_binary(rotate_right_seq(s, r)),
{
    let n: int = s.len() as int;
    let hi = s.subrange(n - r, n);
    let lo = s.subrange(0, n - r);
    assert(s =~= lo + hi);
    lemma_count_ones_add(lo, hi);
    lemma_count_ones_add(hi, lo);
    assert(rotate_right_seq(s, r) == hi + lo);
}

/// Rotating right by `r` is the cyclic shift that sends the entry at index
/// `i` to index `(i + r) mod n`.
pub proof fn lemma_rotate_right_shift(s: Seq<u8>, r: int)
    requires
        0 <= r <= s.len(),
    ensures
        rotate_right_seq(s, r).len() == s.len(),
        forall|i: int| 0 <= i < s.len()
            ==> rotate_right_seq(s, r)[(i + r) % (s.len() as int)] == s[i],
{
    let n: int = s.len() as int;
    let t = rotate_right_seq(s, r);
    assert forall|i: int| 0 <= i < n implies t[(i + r) % n] == s[i] by {
        if i + r < n {
            lemma_small_mod((i + r) as nat, n as nat);
            assert(t[i + r] == s[i]);
        } else {
            lemma_mod_multiples_vanish(1, i + r - n, n);
            lemma_small_mod((i + r - n) as nat, n as nat);
            assert(t[i + r - n] == s[n - r + (i + r - n)]);
        }
    }
}

/// Copies `base` shifted cyclically to the right by `rotation` slots.
pub(crate) fn rotate_right_vec(base: &Vec<u8>, rotation: u32) -> (r: Vec<u8>)
    requires
        rotation as int <= base@.len(),
    ensures
        r@ == rotate_right_seq(base@, rotation as int),
{
    let n: usize = base.len();
    let k: usize = n - rotation as usize;
    let mut out: Vec<u8> = Vec::new();
    let mut j: usize = k;
    while j < n
        invariant
            k <= j <= n,
            n == base@.len(),
            out@ == base@.subrange(k as int, j as int),
        decreases n - j,
    {
        out.push(base[j]);
        assert(out@ =~= base@.subrange(k as int, j + 1));
        j = j + 1;
    }
    let mut i: usize = 0;
    while i < k
        invariant
            0 <= i <= k <= n,
            n == base@.len(),
            out@ == base@.subrange(k as int, n as int) + base@.subrange(0, i as int),
        decreases k - i,
    {
        out.push(base[i]);
        assert(out@ =~= base@.subrange(k as int, n as int) + base@.subrange(0, i + 1));
        i = i + 1;
    }
    out
}

/// Generates the base pattern for `(events, steps)` and applies `rotation`.
pub(crate) fn build_pattern(events: u32, steps: u32, rotation: u32) -> (r: Vec<u8>)
    requires
        1 <= events,
        events < steps,
        rotation < steps,
    ensures
        r@ == rotate_right_seq(
            euclid_pattern(events as int, steps as int), rotation as int),
        r@.len() == steps as int,
        is_binary(r@),
        count_ones(r@) == events as int,
{
    let base = generate_pattern(events, steps);
    let out = rotate_right_vec(&base, rotation);
    proof {
        lemma_rotate_right_preserves(base@, rotation as int);
    }
    out
}

} // verus!
