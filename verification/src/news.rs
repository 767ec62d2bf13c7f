//! The news panel's slideshow: the loaded images are shown in turn, the
//! last one followed by the first.
use vstd::prelude::*;

verus! {

/// Which of the loaded news images is shown.
pub struct Slideshow {
    current: usize,
    count: usize,
}

impl Slideshow {
    /// The position of the image shown.
    pub closed spec fn spec_current(&self) -> nat {
        self.current as nat
    }

    /// The number of images.
    pub closed spec fn spec_count(&self) -> nat {
        self.count as nat
    }

    /// A slideshow of `count` images starting with the first; `None` when
    /// there are none, in which case the panel says so.
    pub fn new(count: usize) -> (r: Option<Slideshow>)
        ensures
            r is None <==> count == 0,
            r matches Some(s) ==> s.spec_current() == 0 && s.spec_count() == count && s.inv(),
    {
        if count == 0 {
            None
        } else {
            Some(Slideshow { current: 0, count })
        }
    }

    /// Well formed: there is an image, and the one shown is one of them.
    pub closed spec fn inv(&self) -> bool {
        self.count > 0 && self.current < self.count
    }

    /// The position of the image shown.
    pub fn current(&self) -> (r: usize)
        ensures
            r == self.spec_current(),
    {
        self.current
    }

    /// Shows the next image, the first after the last.
    pub fn advance(&mut self)
        requires
            old(self).inv(),
        ensures
            final(self).inv(),
            final(self).spec_count() == old(self).spec_count(),
            final(self).spec_current() == (old(self).spec_current() + 1) % old(self).spec_count(),
    {
        self.current = (self.current + 1) % self.count;
    }
}

/// The position shown after `steps` advances from `start`.
pub open spec fn after_steps(start: nat, count: nat, steps: nat) -> nat
    decreases steps,
{
    if steps == 0 {
        start
    } else {
        (after_steps(start, count, (steps - 1) as nat) + 1) % count
    }
}

/// Advancing moves one place at a time, so after `steps` advances the image
/// shown is `steps` places on, counted round the slideshow.
pub proof fn law_advance_cycles(start: nat, count: nat, steps: nat)
    requires
        start < count,
    ensures
        after_steps(start, count, steps) == ((start + steps) as int) % (count as int),
    decreases steps,
{
    if steps > 0 {
        law_advance_cycles(start, count, (steps - 1) as nat);
        let a = start + steps - 1;
        assert(((a % (count as int)) + 1) % (count as int) == (a + 1) % (count as int)) by {
            vstd::arithmetic::div_mod::lemma_add_mod_noop_right(1, a, count as int);
        }
    } else {
        vstd::arithmetic::div_mod::lemma_small_mod(start, count);
    }
}

/// After as many advances as there are images, the first image shown is
/// shown again.
pub proof fn law_full_turn(start: nat, count: nat)
    requires
        start < count,
    ensures
        after_steps(start, count, count) == start,
{
    law_advance_cycles(start, count, count);
    vstd::arithmetic::div_mod::lemma_mod_add_multiples_vanish(start as int, count as int);
    vstd::arithmetic::div_mod::lemma_small_mod(start, count);
}

} // verus!
