//! Capacity policy of the renderer's instance buffer.
use vstd::arithmetic::power2::{lemma_pow2_pos, lemma_pow2_unfold, pow2};
use vstd::prelude::*;

verus! {

/// `n` is a power of two.
pub open spec fn is_power_of_two(n: nat) -> bool
    decreases n,
{
    if n == 1 {
        true
    } else if n < 2 || n % 2 != 0 {
        false
    } else {
        is_power_of_two(n / 2)
    }
}

/// The powers of two are exactly the numbers `2^e`.
pub proof fn lemma_power_of_two_is_pow2(n: nat)
    ensures
        is_power_of_two(n) <==> exists|e: nat| #[trigger] pow2(e) == n,
    decreases n,
{
    if is_power_of_two(n) {
        if n == 1 {
            assert(pow2(0) == 1) by {
                vstd::arithmetic::power2::lemma_pow2(0);
                reveal(vstd::arithmetic::power::pow);
            }
        } else {
            lemma_power_of_two_is_pow2(n / 2);
            let e = choose|e: nat| #[trigger] pow2(e) == n / 2;
            lemma_pow2_unfold(e + 1);
            assert(pow2(e + 1) == n);
        }
    }
    if exists|e: nat| #[trigger] pow2(e) == n {
        let e = choose|e: nat| #[trigger] pow2(e) == n;
        lemma_pow2_of_is_power_of_two(e);
    }
}

proof fn lemma_pow2_of_is_power_of_two(e: nat)
    ensures
        is_power_of_two(pow2(e)),
    decreases e,
{
    if e == 0 {
        assert(pow2(0) == 1) by {
            vstd::arithmetic::power2::lemma_pow2(0);
            reveal(vstd::arithmetic::power::pow);
        }
    } else {
        lemma_pow2_of_is_power_of_two((e - 1) as nat);
        lemma_pow2_unfold(e);
        lemma_pow2_pos((e - 1) as nat);
        assert(pow2(e) / 2 == pow2((e - 1) as nat));
    }
}

/// The smallest power of two that is at least `n`: it is a power of two, no
/// less than `n`, and either 1 or less than twice `n`.
pub open spec fn is_next_power_of_two(r: nat, n: nat) -> bool {
    &&& is_power_of_two(r)
    &&& n <= r
    &&& (r == 1 || r < 2 * n)
}

/// The smallest power of two that is at least `n` (1 for `n == 0`).
pub fn next_power_of_two(n: usize) -> (r: usize)
    requires
        n <= usize::MAX / 2 + 1,
    ensures
        is_next_power_of_two(r as nat, n as nat),
        exists|e: nat| #[trigger] pow2(e) == r,
        n <= r,
        r == 1 || r < 2 * n,
{
    let mut p: usize = 1;
    while p < n
        invariant
            is_power_of_two(p as nat),
            1 <= p,
            p == 1 || p < 2 * n,
            n <= usize::MAX / 2 + 1,
        decreases usize::MAX - p,
    {
        assert(is_power_of_two((2 * p) as nat)) by {
            assert((2 * p) as nat / 2 == p as nat);
        }
        p = p * 2;
    }
    proof {
        lemma_power_of_two_is_pow2(p as nat);
    }
    p
}

/// What an upload of instances asks of the GPU side.
#[derive(Clone, Copy, Debug, PartialEq, Eq)]
pub struct InstanceUpload {
    /// The buffer must be created anew with the new capacity.
    pub reallocate: bool,
    /// There is instance data to write.
    pub write: bool,
}

/// Capacity and fill of an instance buffer.
pub struct InstanceSlots {
    capacity: usize,
    count: u32,
}

impl InstanceSlots {
    /// Capacity is a power of two, so at least one.
    pub open spec fn well_formed(&self) -> bool {
        is_power_of_two(self.capacity_spec() as nat)
    }

    /// How many instances the buffer has room for.
    pub closed spec fn capacity_spec(&self) -> usize {
        self.capacity
    }

    /// How many instances the last upload held, as the draw call counts them.
    pub closed spec fn count_spec(&self) -> u32 {
        self.count
    }

    /// Room for one instance, none held.
    pub fn new() -> (slots: Self)
        ensures
            slots.well_formed(),
            slots.capacity_spec() == 1,
            slots.count_spec() == 0,
    {
        InstanceSlots { capacity: 1, count: 0 }
    }

    /// Plans an upload of `needed` instances. When they do not fit, the
    /// capacity grows to the smallest power of two that holds them and the
    /// buffer must be reallocated; otherwise the capacity stays. Data is
    /// written only when there is some, and the held count becomes `needed`
    /// (as a `u32`, wrapping as a cast does).
    pub fn plan_upload(&mut self, needed: usize) -> (plan: InstanceUpload)
        requires
            needed <= usize::MAX / 2 + 1,
        ensures
            plan.reallocate == (needed > old(self).capacity_spec()),
            plan.write == (needed > 0),
            plan.reallocate ==> is_next_power_of_two(final(self).capacity_spec() as nat, needed as nat),
            !plan.reallocate ==> final(self).capacity_spec() == old(self).capacity_spec(),
            final(self).count_spec() == needed as u32,
            final(self).capacity_spec() >= needed,
            final(self).capacity_spec() >= old(self).capacity_spec(),
            old(self).well_formed() ==> final(self).well_formed(),
    {
        let reallocate = needed > self.capacity;
        if reallocate {
            self.capacity = next_power_of_two(needed);
        }
        self.count = needed as u32;
        InstanceUpload { reallocate, write: needed > 0 }
    }

    /// How many instances the buffer has room for.
    pub fn capacity(&self) -> (c: usize)
        ensures
            c == self.capacity_spec(),
    {
        self.capacity
    }

    /// How many instances the last upload held.
    pub fn count(&self) -> (c: u32)
        ensures
            c == self.count_spec(),
    {
        self.count
    }

    /// Whether there is anything to draw.
    pub fn should_draw(&self) -> (draw: bool)
        ensures
            draw == (self.count_spec() > 0),
    {
        self.count > 0
    }
}

} // verus!
