//! The rhythm engine: one owned configuration, the derived caches of valid
//! pulse counts and of the rotated pattern, and the step sequencer.

use vstd::prelude::*;
use vstd::arithmetic::div_mod::{
    lemma_small_mod, lemma_mod_multiples_vanish, lemma_add_mod_noop_right,
};
use crate::events::{
    EknType, valid_events_for, nearest_valid, compute_valid_events, nearest_in,
    lemma_valid_events_shape, lemma_nearest_member,
};
use crate::pattern::{
    euclid_pattern, rotate_right_seq, is_binary, count_ones, build_pattern,
};

verus! {

/// A Euclidean rhythm: `events` pulses over `steps` slots, shifted by
/// `rotation`, with the valid pulse counts and the rotated pattern cached,
/// and a playback position.
pub struct Ekn {
    events: u32,
    steps: u32,
    rotation: u32,
    gcd_cache: Vec<u32>,
    pattern_cache: Vec<u8>,
    ekn_type: EknType,
    current_step: u32,
}

impl Ekn {
    /// The configured pulse count.
    pub closed spec fn spec_events(self) -> u32 {
        self.events
    }

    /// The configured step count.
    pub closed spec fn spec_steps(self) -> u32 {
        self.steps
    }

    /// The configured rotation.
    pub closed spec fn spec_rotation(self) -> u32 {
        self.rotation
    }

    /// The configured generation mode.
    pub closed spec fn spec_mode(self) -> EknType {
        self.ekn_type
    }

    /// The playback position.
    pub closed spec fn spec_current_step(self) -> u32 {
        self.current_step
    }

    /// The cached list of valid pulse counts.
    pub closed spec fn event_list(self) -> Seq<u32> {
        self.gcd_cache@
    }

    /// The cached rotated pattern.
    pub closed spec fn pattern(self) -> Seq<u8> {
        self.pattern_cache@
    }

    #[verifier::type_invariant]
    spec fn wf(self) -> bool {
        &&& self.steps >= 2
        &&& self.rotation < self.steps
        &&& self.current_step < self.steps
        &&& self.gcd_cache@ == valid_events_for(self.ekn_type, self.steps)
        &&& self.gcd_cache@.contains(self.events)
        &&& 1 <= self.events && self.events < self.steps
        &&& self.pattern_cache@ == rotate_right_seq(
            euclid_pattern(self.events as int, self.steps as int),
            self.rotation as int)
        &&& self.pattern_cache@.len() == self.steps
        &&& count_ones(self.pattern_cache@) == self.events
        &&& is_binary(self.pattern_cache@)
    }

    /// Creates an engine for `k` pulses over `n` steps, applying the same
    /// normalization as `set_steps` followed by `set_events`.
    pub fn new(k: u32, n: u32) -> (r: Self)
        ensures
            r.spec_steps() == (if n <= 1 { 2u32 } else { n }),
            r.spec_mode() == EknType::Euclidian,
            r.spec_rotation() == 0,
            r.spec_current_step() == 0,
            r.event_list() == valid_events_for(EknType::Euclidian, r.spec_steps()),
            r.spec_events() == nearest_valid(r.event_list(), k),
    {
        let mut ekn = Self::default();
        ekn.set_steps(n);
        ekn.set_events(k);
        ekn
    }

    /// Changes the generation mode, recomputes the valid pulse counts,
    /// re-seeds the pulse count to the smallest valid one, regenerates the
    /// pattern, and restarts playback. Returns the new pulse count.
    pub fn set_euclidian(&mut self, ekn_type: EknType) -> (r: u32)
        ensures
            final(self).spec_mode() == ekn_type,
            final(self).spec_steps() == old(self).spec_steps(),
            final(self).spec_rotation() == old(self).spec_rotation(),
            final(self).spec_current_step() == 0,
            final(self).event_list() == valid_events_for(ekn_type, old(self).spec_steps()),
            final(self).spec_events() == nearest_valid(final(self).event_list(), 1),
            r == final(self).spec_events(),
    {
        proof {
            use_type_invariant(&*self);
        }
        let steps: u32 = self.steps;
        let rotation: u32 = self.rotation;
        let cache = compute_valid_events(ekn_type, steps);
        let ev: u32 = nearest_in(&cache, 1);
        proof {
            lemma_valid_events_shape(ekn_type, steps);
            lemma_nearest_member(cache@, 1);
        }
        let pat = build_pattern(ev, steps, rotation);
        *self = Ekn {
            events: ev,
            steps,
            rotation,
            gcd_cache: cache,
            pattern_cache: pat,
            ekn_type,
            current_step: 0,
        };
        ev
    }

    /// Returns a copy of the current rotated pattern.
    pub fn get_pattern(&self) -> (r: Vec<u8>)
        ensures
            r@ == self.pattern(),
            r@ == rotate_right_seq(
                euclid_pattern(self.spec_events() as int, self.spec_steps() as int),
                self.spec_rotation() as int),
            r@.len() == self.spec_steps(),
            count_ones(r@) == self.spec_events(),
            is_binary(r@),
    {
        proof {
            use_type_invariant(&*self);
        }
        let r = self.pattern_cache.clone();
        proof {
            assert forall|i: int| 0 <= i < r@.len()
                implies r@[i] == self.pattern_cache@[i] by {
                assert(cloned::<u8>(self.pattern_cache@[i], r@[i]));
            }
            assert(r@ =~= self.pattern_cache@);
        }
        r
    }

    /// Returns a copy of the current list of valid pulse counts.
    pub fn get_events_list(&self) -> (r: Vec<u32>)
        ensures
            r@ == self.event_list(),
            r@ == valid_events_for(self.spec_mode(), self.spec_steps()),
    {
        proof {
            use_type_invariant(&*self);
        }
        let r = self.gcd_cache.clone();
        proof {
            assert forall|i: int| 0 <= i < r@.len()
                implies r@[i] == self.gcd_cache@[i] by {
                assert(cloned::<u32>(self.gcd_cache@[i], r@[i]));
            }
            assert(r@ =~= self.gcd_cache@);
        }
        r
    }

    /// Snaps a requested pulse count to the nearest valid one: the smallest
    /// valid count at or above the request, else the largest valid count.
    /// Does not change the engine.
    pub fn get_nearest_euclidian_events(&mut self, events: u32) -> (r: u32)
        ensures
            *final(self) == *old(self),
            r == nearest_valid(old(self).event_list(), events),
    {
        nearest_in(&self.gcd_cache, events)
    }

    /// The configured pulse count.
    pub fn get_events(&self) -> (r: u32)
        ensures
            r == self.spec_events(),
            self.event_list().contains(r),
    {
        proof {
            use_type_invariant(&*self);
        }
        self.events
    }

    /// Snaps the requested pulse count to the nearest valid one, regenerates
    /// the pattern, and restarts playback. Returns the pulse count in use.
    pub fn set_events(&mut self, events: u32) -> (r: u32)
        ensures
            final(self).spec_mode() == old(self).spec_mode(),
            final(self).spec_steps() == old(self).spec_steps(),
            final(self).spec_rotation() == old(self).spec_rotation(),
            final(self).spec_current_step() == 0,
            final(self).event_list() == old(self).event_list(),
            final(self).spec_events() == nearest_valid(old(self).event_list(), events),
            r == final(self).spec_events(),
    {
        proof {
            use_type_invariant(&*self);
        }
        let steps: u32 = self.steps;
        let rotation: u32 = self.rotation;
        let mode = self.ekn_type;
        let cache = compute_valid_events(mode, steps);
        let ev: u32 = nearest_in(&cache, events);
        proof {
            lemma_valid_events_shape(mode, steps);
            lemma_nearest_member(cache@, events);
        }
        let pat = build_pattern(ev, steps, rotation);
        *self = Ekn {
            events: ev,
            steps,
            rotation,
            gcd_cache: cache,
            pattern_cache: pat,
            ekn_type: mode,
            current_step: 0,
        };
        ev
    }

    /// The playback position, in [0, steps).
    pub fn get_current_step(&self) -> (r: u32)
        ensures
            r == self.spec_current_step(),
            r < self.spec_steps(),
    {
        proof {
            use_type_invariant(&*self);
        }
        self.current_step
    }

    /// Seeks the playback position to `step`, wrapped into [0, steps).
    pub fn set_current_step(&mut self, step: u32) -> (r: u32)
        ensures
            final(self).spec_current_step() == step % old(self).spec_steps(),
            final(self).spec_events() == old(self).spec_events(),
            final(self).spec_steps() == old(self).spec_steps(),
            final(self).spec_rotation() == old(self).spec_rotation(),
            final(self).spec_mode() == old(self).spec_mode(),
            final(self).event_list() == old(self).event_list(),
            final(self).pattern() == old(self).pattern(),
            r == final(self).spec_current_step(),
    {
        proof {
            use_type_invariant(&*self);
        }
        self.current_step = step % self.steps;
        self.current_step
    }

    /// Advances the playback position by one step, wrapping at the end of
    /// the pattern, and returns the new position.
    pub fn next_step(&mut self) -> (r: u32)
        ensures
            final(self).spec_current_step()
                == (old(self).spec_current_step() + 1) % (old(self).spec_steps() as int),
            final(self).spec_events() == old(self).spec_events(),
            final(self).spec_steps() == old(self).spec_steps(),
            final(self).spec_rotation() == old(self).spec_rotation(),
            final(self).spec_mode() == old(self).spec_mode(),
            final(self).event_list() == old(self).event_list(),
            final(self).pattern() == old(self).pattern(),
            r == final(self).spec_current_step(),
    {
        proof {
            use_type_invariant(&*self);
        }
        let next: u32 = self.current_step + 1;
        self.set_current_step(next)
    }

    /// Whether the pattern holds a pulse at the current playback position.
    pub fn is_event(&self) -> (r: bool)
        ensures
            r == (self.pattern()[self.spec_current_step() as int] == 1),
    {
        proof {
            use_type_invariant(&*self);
        }
        self.pattern_cache[self.current_step as usize] == 1
    }

    /// The configured step count, always at least 2.
    pub fn get_steps(&self) -> (r: u32)
        ensures
            r == self.spec_steps(),
            r >= 2,
    {
        proof {
            use_type_invariant(&*self);
        }
        self.steps
    }

    /// Sets the step count (forcing at least 2), recomputes the valid pulse
    /// counts, re-snaps the pulse count, keeps the rotation where it still
    /// fits and otherwise clamps it to steps - 1, regenerates the pattern,
    /// and restarts playback. Returns the pulse and step counts in use.
    pub fn set_steps(&mut self, steps: u32) -> (r: (u32, u32))
        ensures
            final(self).spec_steps() == (if steps <= 1 { 2u32 } else { steps }),
            final(self).spec_mode() == old(self).spec_mode(),
            final(self).spec_rotation() == (
                if old(self).spec_rotation() < final(self).spec_steps() {
                    old(self).spec_rotation()
                } else {
                    (final(self).spec_steps() - 1) as u32
                }),
            final(self).spec_current_step() == 0,
            final(self).event_list()
                == valid_events_for(old(self).spec_mode(), final(self).spec_steps()),
            final(self).spec_events()
                == nearest_valid(final(self).event_list(), old(self).spec_events()),
            r == (final(self).spec_events(), final(self).spec_steps()),
    {
        proof {
            use_type_invariant(&*self);
        }
        let ns: u32 = if steps <= 1 { 2 } else { steps };
        let nr: u32 = if self.rotation < ns { self.rotation } else { ns - 1 };
        let mode = self.ekn_type;
        let cache = compute_valid_events(mode, ns);
        let ev: u32 = nearest_in(&cache, self.events);
        proof {
            lemma_valid_events_shape(mode, ns);
            lemma_nearest_member(cache@, old(self).spec_events());
        }
        let pat = build_pattern(ev, ns, nr);
        *self = Ekn {
            events: ev,
            steps: ns,
            rotation: nr,
            gcd_cache: cache,
            pattern_cache: pat,
            ekn_type: mode,
            current_step: 0,
        };
        (ev, ns)
    }

    /// The configured rotation, always below the step count.
    pub fn get_rotation(&self) -> (r: u32)
        ensures
            r == self.spec_rotation(),
            r < self.spec_steps(),
    {
        proof {
            use_type_invariant(&*self);
        }
        self.rotation
    }

    /// Sets the rotation, clamping a request at or above the step count to
    /// steps - 1 (not reducing it modulo the step count), and re-applies it
    /// to the freshly generated base pattern. The playback position is kept.
    /// Returns the rotation in use.
    pub fn set_rotation(&mut self, rotation: u32) -> (r: u32)
        ensures
            final(self).spec_rotation() == (
                if rotation < old(self).spec_steps() {
                    rotation
                } else {
                    (old(self).spec_steps() - 1) as u32
                }),
            final(self).spec_events() == old(self).spec_events(),
            final(self).spec_steps() == old(self).spec_steps(),
            final(self).spec_mode() == old(self).spec_mode(),
            final(self).spec_current_step() == old(self).spec_current_step(),
            final(self).event_list() == old(self).event_list(),
            final(self).pattern() == rotate_right_seq(
                euclid_pattern(
                    old(self).spec_events() as int, old(self).spec_steps() as int),
                final(self).spec_rotation() as int),
            r == final(self).spec_rotation(),
    {
        proof {
            use_type_invariant(&*self);
        }
        let steps: u32 = self.steps;
        let mode = self.ekn_type;
        let ev: u32 = self.events;
        let step_now: u32 = self.current_step;
        let nr: u32 = if rotation < steps { rotation } else { steps - 1 };
        let cache = compute_valid_events(mode, steps);
        let pat = build_pattern(ev, steps, nr);
        *self = Ekn {
            events: ev,
            steps,
            rotation: nr,
            gcd_cache: cache,
            pattern_cache: pat,
            ekn_type: mode,
            current_step: step_now,
        };
        nr
    }
}

/// The playback position after `k` single-step advances from `c`, each one
/// wrapping at `s` exactly as `next_step` does.
pub open spec fn stepped(c: int, s: int, k: nat) -> int
    decreases k,
{
    if k == 0 {
        c
    } else {
        (stepped(c, s, (k - 1) as nat) + 1) % s
    }
}

proof fn lemma_stepped_linear(c: int, s: int, k: nat)
    requires
        0 < s,
        0 <= c < s,
    ensures
        stepped(c, s, k) == (c + k) % s,
    decreases k,
{
    if k == 0 {
        lemma_small_mod(c as nat, s as nat);
    } else {
        lemma_stepped_linear(c, s, (k - 1) as nat);
        lemma_mod_multiples_vanish(0, c + k - 1, s);
        lemma_add_mod_noop_right(1, c + k - 1, s);
        assert((1 + ((c + k - 1) % s)) % s == (1 + (c + k - 1)) % s);
    }
}

/// Advancing the playback position `s` times brings it back to where it
/// started: `next_step`, whose contract is position := (position + 1) mod
/// steps, has period equal to the step count.
pub proof fn lemma_step_cycle(c: int, s: int)
    requires
        0 < s,
        0 <= c < s,
    ensures
        stepped(c, s, s as nat) == c,
{
    lemma_stepped_linear(c, s, s as nat);
    lemma_mod_multiples_vanish(1, c, s);
    lemma_small_mod(c as nat, s as nat);
}

impl Default for Ekn {
    /// The default rhythm: 3 pulses over 8 steps, no rotation, Euclidean
    /// mode, playback at step 0.
    fn default() -> (r: Self)
        ensures
            r.spec_steps() == 8,
            r.spec_mode() == EknType::Euclidian,
            r.spec_rotation() == 0,
            r.spec_current_step() == 0,
            r.event_list() == valid_events_for(EknType::Euclidian, 8),
            r.spec_events() == nearest_valid(r.event_list(), 3),
    {
        let cache = compute_valid_events(EknType::Euclidian, 8);
        let ev: u32 = nearest_in(&cache, 3);
        proof {
            lemma_valid_events_shape(EknType::Euclidian, 8);
            lemma_nearest_member(cache@, 3);
        }
        let pat = build_pattern(ev, 8, 0);
        Ekn {
            events: ev,
            steps: 8,
            rotation: 0,
            gcd_cache: cache,
            pattern_cache: pat,
            ekn_type: EknType::Euclidian,
            current_step: 0,
        }
    }
}

} // verus!
