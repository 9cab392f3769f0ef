//! Which pulse counts are valid for a given step count, per generation mode,
//! and how an arbitrary request is snapped to the nearest valid count.

use vstd::prelude::*;
use crate::numbers::{coprime, gcd_u32, lemma_gcd_one, lemma_gcd_pred};

verus! {

broadcast use vstd::seq_lib::group_seq_properties;

/// The generation mode: which pulse counts are offered for a step count.
#[derive(Clone, Copy, Debug)]
pub enum EknType {
    /// Every count from 1 to steps - 1.
    All,
    /// Only counts coprime with the step count.
    Euclidian,
    /// The coprime counts with the two degenerate ends (a single pulse,
    /// a pulse on almost every step) removed, when more than two remain.
    EuclidianNoTrivial,
}

/// The increasing list of pulse counts in [1, bound] that pass the mode's
/// test against `steps`: all of them, or only those coprime with `steps`.
pub open spec fn events_upto(steps: u32, bound: int, only_coprime: bool) -> Seq<u32>
    decreases bound,
{
    if bound < 1 {
        Seq::empty()
    } else {
        let rest = events_upto(steps, bound - 1, only_coprime);
        if !only_coprime || coprime(bound as nat, steps as nat) {
            rest.push(bound as u32)
        } else {
            rest
        }
    }
}

/// Every possible pulse count for `steps` slots, in increasing order.
pub open spec fn candidate_events(steps: u32) -> Seq<u32> {
    events_upto(steps, steps - 1, false)
}

/// The increasing list of pulse counts in [1, steps - 1] coprime with `steps`.
pub open spec fn euclidean_events(steps: u32) -> Seq<u32> {
    events_upto(steps, steps - 1, true)
}

/// The list of valid pulse counts for a step count under each mode.
pub open spec fn valid_events_for(mode: EknType, steps: u32) -> Seq<u32> {
    match mode {
        EknType::All => candidate_events(steps),
        EknType::Euclidian => euclidean_events(steps),
        EknType::EuclidianNoTrivial => {
            if euclidean_events(steps).len() > 2 {
                euclidean_events(steps).subrange(1, euclidean_events(steps).len() - 1)
            } else {
                euclidean_events(steps)
            }
        },
    }
}

/// Whether the entries of a list are in strictly increasing order.
pub open spec fn strictly_increasing(s: Seq<u32>) -> bool {
    forall|i: int, j: int| 0 <= i < j < s.len() ==> s[i] < s[j]
}

/// What `events_upto` holds: exactly the counts in [1, bound] that pass the
/// test, in increasing order.
pub proof fn lemma_events_upto(steps: u32, bound: int, only_coprime: bool)
    requires
        bound <= u32::MAX,
    ensures
        forall|x: u32| #![trigger events_upto(steps, bound, only_coprime).contains(x)]
            events_upto(steps, bound, only_coprime).contains(x)
            <==> (1 <= x && x as int <= bound
                && (only_coprime ==> coprime(x as nat, steps as nat))),
        strictly_increasing(events_upto(steps, bound, only_coprime)),
    decreases
        if bound > 0 { bound } else { 0 },
{
    if bound < 1 {
        assert(events_upto(steps, bound, only_coprime) =~= Seq::<u32>::empty());
    } else {
        lemma_events_upto(steps, bound - 1, only_coprime);
        let rest = events_upto(steps, bound - 1, only_coprime);
        let b: u32 = bound as u32;
        assert(b as int == bound);
        if !only_coprime || coprime(bound as nat, steps as nat) {
            let s = rest.push(b);
            assert(events_upto(steps, bound, only_coprime) == s);
            assert forall|x: u32| #![trigger s.contains(x)]
                s.contains(x)
                <==> (1 <= x && x as int <= bound
                    && (only_coprime ==> coprime(x as nat, steps as nat))) by {
                assert(s.contains(x) <==> (x == b || rest.contains(x)));
                assert(rest.contains(x)
                    <==> (1 <= x && x as int <= bound - 1
                        && (only_coprime ==> coprime(x as nat, steps as nat))));
            }
            assert forall|i: int, j: int| 0 <= i < j < s.len() implies s[i] < s[j] by {
                assert(s[i] == rest[i]);
                if j < s.len() - 1 {
                    assert(s[j] == rest[j]);
                    assert(rest[i] < rest[j]);
                } else {
                    assert(s[j] == b);
                    assert(rest.contains(rest[i]));
                    assert(rest[i] as int <= bound - 1);
                }
            }
            assert(strictly_increasing(s));
        } else {
            let s = events_upto(steps, bound, only_coprime);
            assert(s == rest);
            assert forall|x: u32| #![trigger s.contains(x)]
                s.contains(x)
                <==> (1 <= x && x as int <= bound
                    && (only_coprime ==> coprime(x as nat, steps as nat))) by {
                assert(rest.contains(x)
                    <==> (1 <= x && x as int <= bound - 1
                        && (only_coprime ==> coprime(x as nat, steps as nat))));
                assert(x == b ==> !(only_coprime ==> coprime(x as nat, steps as nat)));
            }
        }
    }
}

/// For a step count of at least 2, the valid list under every mode is
/// strictly increasing, non-empty, and holds only counts in [1, steps - 1].
pub proof fn lemma_valid_events_shape(mode: EknType, steps: u32)
    requires
        steps >= 2,
    ensures
        strictly_increasing(valid_events_for(mode, steps)),
        valid_events_for(mode, steps).len() > 0,
        forall|x: u32| valid_events_for(mode, steps).contains(x)
            ==> 1 <= x && x < steps,
{
    lemma_events_upto(steps, steps - 1, false);
    lemma_events_upto(steps, steps - 1, true);
    lemma_gcd_one(steps as nat);
    assert(euclidean_events(steps).contains(1u32));
    assert(candidate_events(steps).contains(1u32));
    match mode {
        EknType::All => {},
        EknType::Euclidian => {},
        EknType::EuclidianNoTrivial => {
            let e = euclidean_events(steps);
            if e.len() > 2 {
                let t = e.subrange(1, e.len() - 1);
                assert forall|x: u32| t.contains(x) implies 1 <= x && x < steps by {
                    assert(e.contains(x));
                }
                assert forall|i: int, j: int| 0 <= i < j < t.len() implies t[i] < t[j] by {
                    assert(t[i] == e[i + 1]);
                    assert(t[j] == e[j + 1]);
                }
                assert(t.len() > 0);
            }
        },
    }
}

/// Under mode Euclidian the valid list is exactly the increasing list of
/// the pulse counts in [1, steps - 1] coprime with the step count.
pub proof fn lemma_euclidean_valid_events(steps: u32)
    requires
        steps >= 2,
    ensures
        strictly_increasing(valid_events_for(EknType::Euclidian, steps)),
        forall|x: u32| valid_events_for(EknType::Euclidian, steps).contains(x)
            <==> (1 <= x && x < steps && coprime(x as nat, steps as nat)),
{
    lemma_events_upto(steps, steps - 1, true);
}

/// The Euclidean list always runs from 1 up to steps - 1, and the
/// non-trivial mode drops exactly that first and that last entry when more
/// than two entries remain, and keeps the list unchanged otherwise.
pub proof fn lemma_nontrivial_valid_events(steps: u32)
    requires
        steps >= 2,
    ensures
        euclidean_events(steps).len() > 0,
        euclidean_events(steps).first() == 1,
        euclidean_events(steps).last() == steps - 1,
        euclidean_events(steps).len() > 2
            ==> valid_events_for(EknType::EuclidianNoTrivial, steps)
                == euclidean_events(steps).subrange(1, euclidean_events(steps).len() - 1),
        euclidean_events(steps).len() <= 2
            ==> valid_events_for(EknType::EuclidianNoTrivial, steps)
                == euclidean_events(steps),
{
    lemma_events_upto(steps, steps - 1, true);
    lemma_gcd_one(steps as nat);
    lemma_gcd_pred(steps as nat);
    let e = euclidean_events(steps);
    assert(e.contains(1u32));
    assert(e.contains((steps - 1) as u32));
    let i: int = choose|i: int| 0 <= i < e.len() && e[i] == 1u32;
    if i != 0 {
        assert(e.contains(e[0]));
        assert(e[0] < e[i]);
    }
    let j: int = choose|j: int| 0 <= j < e.len() && e[j] == (steps - 1) as u32;
    if j != e.len() - 1 {
        assert(e.contains(e[e.len() - 1]));
        assert(e[j] < e[e.len() - 1]);
    }
}

/// The nearest valid count at or after `target`, searching from index `i`:
/// the first list entry at least `target`, or the last entry when none is.
pub open spec fn nearest_from(s: Seq<u32>, target: u32, i: int) -> u32
    decreases s.len() - i,
{
    if i < 0 || i >= s.len() {
        0
    } else if s[i] >= target {
        s[i]
    } else if i == s.len() - 1 {
        s[i]
    } else {
        nearest_from(s, target, i + 1)
    }
}

/// The snapping rule for pulse counts: the first list entry at least
/// `target`; the last entry when every entry is below `target`; 0 for an
/// empty list.
pub open spec fn nearest_valid(s: Seq<u32>, target: u32) -> u32 {
    if s.len() == 0 {
        0
    } else {
        nearest_from(s, target, 0)
    }
}

proof fn lemma_nearest_from_member(s: Seq<u32>, target: u32, i: int)
    requires
        0 <= i < s.len(),
    ensures
        exists|j: int| i <= j < s.len() && s[j] == nearest_from(s, target, i),
    decreases s.len() - i,
{
    if s[i] >= target || i == s.len() - 1 {
        assert(s[i] == nearest_from(s, target, i));
    } else {
        lemma_nearest_from_member(s, target, i + 1);
    }
}

/// A non-empty list always contains its nearest valid count.
pub proof fn lemma_nearest_member(s: Seq<u32>, target: u32)
    requires
        s.len() > 0,
    ensures
        s.contains(nearest_valid(s, target)),
{
    lemma_nearest_from_member(s, target, 0);
}

proof fn lemma_nearest_from_least(s: Seq<u32>, target: u32, i: int)
    requires
        strictly_increasing(s),
        0 <= i < s.len(),
    ensures
        (exists|j: int| i <= j < s.len() && s[j] >= target)
            ==> nearest_from(s, target, i) >= target,
        forall|j: int| i <= j < s.len() && s[j] >= target
            ==> nearest_from(s, target, i) <= s[j],
        (forall|j: int| i <= j < s.len() ==> s[j] < target)
            ==> nearest_from(s, target, i) == s.last(),
    decreases s.len() - i,
{
    if s[i] >= target {
        assert forall|j: int| i <= j < s.len() && s[j] >= target
            implies nearest_from(s, target, i) <= s[j] by {
            if j > i {
                assert(s[i] < s[j]);
            }
        }
    } else if i == s.len() - 1 {
    } else {
        lemma_nearest_from_least(s, target, i + 1);
    }
}

/// The snapping rule, characterized: on a strictly increasing list the
/// result is the smallest entry at or above `target` when one exists, the
/// largest entry when none does, and 0 only for an empty list.
pub proof fn lemma_nearest_valid(s: Seq<u32>, target: u32)
    requires
        strictly_increasing(s),
    ensures
        s.len() == 0 ==> nearest_valid(s, target) == 0,
        (exists|j: int| 0 <= j < s.len() && s[j] >= target)
            ==> s.contains(nearest_valid(s, target))
                && nearest_valid(s, target) >= target,
        forall|j: int| 0 <= j < s.len() && s[j] >= target
            ==> nearest_valid(s, target) <= s[j],
        (s.len() > 0 && (forall|j: int| 0 <= j < s.len() ==> s[j] < target))
            ==> nearest_valid(s, target) == s.last(),
{
    if s.len() > 0 {
        lemma_nearest_member(s, target);
        lemma_nearest_from_least(s, target, 0);
    }
}

/// Builds the valid pulse-count list for `steps` slots under `mode`.
pub(crate) fn compute_valid_events(mode: EknType, steps: u32) -> (r: Vec<u32>)
    requires
        steps >= 2,
    ensures
        r@ == valid_events_for(mode, steps),
{
    let mut v: Vec<u32> = Vec::new();
    let only_coprime = match mode {
        EknType::All => false,
        _ => true,
    };
    let mut x: u32 = 1;
    while x < steps
        invariant
            1 <= x <= steps,
            steps >= 2,
            v@ == events_upto(steps, x - 1, only_coprime),
        decreases steps - x,
    {
        if !only_coprime || gcd_u32(x, steps) == 1 {
            v.push(x);
        }
        assert(v@ == events_upto(steps, x as int, only_coprime));
        x = x + 1;
    }
    let trim = match mode {
        EknType::EuclidianNoTrivial => true,
        _ => false,
    };
    if trim && v.len() > 2 {
        let e = Ghost(v@);
        let _ = v.remove(0);
        let _ = v.pop();
        proof {
            assert(v@ =~= e@.subrange(1, e@.len() - 1));
        }
    }
    v
}

/// Finds the nearest valid count at or after `target` in `cache`, falling
/// back to the largest entry, or to 0 when the cache is empty.
pub(crate) fn nearest_in(cache: &Vec<u32>, target: u32) -> (r: u32)
    ensures
        r == nearest_valid(cache@, target),
{
    let n: usize = cache.len();
    if n == 0 {
        return 0;
    }
    let mut i: usize = 0;
    loop
        invariant
            0 <= i < n,
            n == cache@.len(),
            n > 0,
            nearest_from(cache@, target, 0) == nearest_from(cache@, target, i as int),
        ensures
            0 <= i < n,
            cache@[i as int] == nearest_from(cache@, target, 0),
        decreases n - i,
    {
        if cache[i] >= target {
            break;
        }
        if i == n - 1 {
            break;
        }
        i = i + 1;
    }
    cache[i]
}

} // verus!


