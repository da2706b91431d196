//! Keeping the agent, predator, obstacle and trail vectors at their
//! configured sizes, and advancing the trails behind the agents.
//!
//! The functions are generic in the element types: the caller creates fresh
//! elements (at random positions) and hands them in.
use vstd::math::min;
use vstd::prelude::*;

verus! {

/// `s` cut to its first `n` elements when it is longer than `n`.
pub open spec fn truncated<A>(s: Seq<A>, n: nat) -> Seq<A> {
    if s.len() > n {
        s.take(n as int)
    } else {
        s
    }
}

/// How many fresh elements a vector of length `len` needs to reach `target`.
pub open spec fn shortfall(len: nat, target: nat) -> nat {
    if len < target {
        (target - len) as nat
    } else {
        0
    }
}

/// A trail after `head` is appended and the oldest positions are dropped so
/// that at most `max_len` remain.
pub open spec fn trail_step<T>(trail: Seq<T>, head: T, max_len: nat) -> Seq<T> {
    let pushed = trail.push(head);
    if pushed.len() > max_len {
        pushed.subrange(pushed.len() - max_len, pushed.len() as int)
    } else {
        pushed
    }
}

/// Trail `i` after one update: cleared when trails are switched off
/// (`max_len == 0`), advanced by its agent's position when there is one,
/// and otherwise left alone.
pub open spec fn next_trail<T>(trail: Seq<T>, i: int, heads: Seq<T>, max_len: nat) -> Seq<T> {
    if max_len == 0 {
        Seq::empty()
    } else if i < heads.len() {
        trail_step(trail, heads[i], max_len)
    } else {
        trail
    }
}

/// The number of fresh elements needed to bring a vector of length `len`
/// up to `target` (zero when it is long enough already).
pub fn spawn_count(len: usize, target: usize) -> (n: usize)
    ensures
        n == shortfall(len as nat, target as nat),
        len < target ==> len + n == target,
        len >= target ==> n == 0,
{
    if len < target {
        target - len
    } else {
        0
    }
}

/// Brings `items` to exactly `target` elements: appends the first
/// `shortfall` fresh elements in order when it is short, and drops the
/// elements past `target` when it is long.
pub fn fill_to_count<T: Copy>(items: &mut Vec<T>, fresh: &Vec<T>, target: usize)
    requires
        fresh.len() >= shortfall(old(items).len() as nat, target as nat),
    ensures
        final(items)@ == truncated(
            old(items)@ + fresh@.take(shortfall(old(items).len() as nat, target as nat) as int),
            target as nat,
        ),
        final(items).len() == target,
        forall|i: int|
            0 <= i < target ==> #[trigger] final(items)@[i] == (if i < old(items).len() {
                old(items)@[i]
            } else {
                fresh@[i - old(items).len()]
            }),
{
    let need = spawn_count(items.len(), target);
    let ghost start = items@;
    let mut j: usize = 0;
    while j < need
        invariant
            j <= need,
            need == shortfall(start.len(), target as nat),
            fresh.len() >= need,
            items@ == start + fresh@.take(j as int),
        decreases need - j,
    {
        items.push(fresh[j]);
        assert(fresh@.take(j + 1) =~= fresh@.take(j as int).push(fresh@[j as int]));
        j += 1;
    }
    items.truncate(target);
    proof {
        lemma_truncated_keeps_prefix(start + fresh@.take(need as int), target as nat);
    }
}

/// A fresh trail for every agent, holding just the agent's position.
pub fn seed_trails<T: Copy>(heads: &Vec<T>) -> (trails: Vec<Vec<T>>)
    ensures
        trails.len() == heads.len(),
        forall|i: int| 0 <= i < heads.len() ==> (#[trigger] trails@[i])@ == seq![heads@[i]],
{
    let mut trails: Vec<Vec<T>> = Vec::new();
    let mut i: usize = 0;
    while i < heads.len()
        invariant
            i <= heads.len(),
            trails.len() == i,
            forall|k: int| 0 <= k < i ==> (#[trigger] trails@[k])@ == seq![heads@[k]],
        decreases heads.len() - i,
    {
        let mut trail: Vec<T> = Vec::new();
        trail.push(heads[i]);
        trails.push(trail);
        i += 1;
    }
    trails
}

/// Brings the agents to exactly `target`, keeping one trail per agent: when
/// agents are short, each fresh `(agent, position)` pair in order adds the
/// agent and a trail holding just its position; then agents and trails are
/// both cut to `target`.
pub fn resize_agents<B: Copy, T: Copy>(
    agents: &mut Vec<B>,
    trails: &mut Vec<Vec<T>>,
    fresh: &Vec<(B, T)>,
    target: usize,
)
    requires
        fresh.len() >= shortfall(old(agents).len() as nat, target as nat),
        old(trails).len() + shortfall(old(agents).len() as nat, target as nat) <= usize::MAX,
    ensures
        ({
            let n = shortfall(old(agents).len() as nat, target as nat) as int;
            let added_trails = old(trails).len() + n;
            &&& final(agents)@ == truncated(
                old(agents)@ + fresh@.take(n).map_values(|p: (B, T)| p.0),
                target as nat,
            )
            &&& final(agents).len() == target
            &&& final(trails).len() == (if added_trails > target { target as int } else { added_trails })
            &&& forall|i: int|
                0 <= i < final(trails).len() ==> (#[trigger] final(trails)@[i])@ == (if i < old(
                    trails,
                ).len() {
                    old(trails)@[i]@
                } else {
                    seq![fresh@[i - old(trails).len()].1]
                })
        }),
        old(trails).len() == old(agents).len() ==> final(trails).len() == target,
        forall|i: int|
            0 <= i < target ==> #[trigger] final(agents)@[i] == (if i < old(agents).len() {
                old(agents)@[i]
            } else {
                fresh@[i - old(agents).len()].0
            }),
{
    let need = spawn_count(agents.len(), target);
    let ghost start_agents = agents@;
    let ghost start_trails = trails@;
    let mut j: usize = 0;
    while j < need
        invariant
            j <= need,
            need == shortfall(start_agents.len(), target as nat),
            fresh.len() >= need,
            start_trails.len() + need <= usize::MAX,
            agents@ == start_agents + fresh@.take(j as int).map_values(|p: (B, T)| p.0),
            trails.len() == start_trails.len() + j,
            forall|i: int|
                0 <= i < trails.len() ==> (#[trigger] trails@[i])@ == (if i < start_trails.len() {
                    start_trails[i]@
                } else {
                    seq![fresh@[i - start_trails.len()].1]
                }),
        decreases need - j,
    {
        let (agent, position) = fresh[j];
        agents.push(agent);
        let mut trail: Vec<T> = Vec::new();
        trail.push(position);
        trails.push(trail);
        assert(fresh@.take(j + 1).map_values(|p: (B, T)| p.0) =~= fresh@.take(j as int).map_values(
            |p: (B, T)| p.0,
        ).push(agent));
        j += 1;
    }
    agents.truncate(target);
    trails.truncate(target);
    proof {
        lemma_truncated_keeps_prefix(
            start_agents + fresh@.take(need as int).map_values(|p: (B, T)| p.0),
            target as nat,
        );
    }
}

/// Advances every trail by its agent's position, keeping at most `max_len`
/// positions; with `max_len == 0` every trail is cleared. Trails without an
/// agent (past the end of `heads`) are left alone.
pub fn update_trails<T: Copy>(trails: &mut Vec<Vec<T>>, heads: &Vec<T>, max_len: usize)
    ensures
        final(trails).len() == old(trails).len(),
        forall|i: int|
            0 <= i < old(trails).len() ==> (#[trigger] final(trails)@[i])@ == next_trail(
                old(trails)@[i]@,
                i,
                heads@,
                max_len as nat,
            ),
        forall|i: int|
            0 <= i < old(trails).len() ==> {
                let before = old(trails)@[i]@;
                let after = (#[trigger] final(trails)@[i])@;
                &&& max_len == 0 ==> after.len() == 0
                &&& max_len > 0 && i < heads.len() ==> {
                    &&& after.len() == min(before.len() + 1int, max_len as int)
                    &&& after.last() == heads@[i]
                    &&& after == before.push(heads@[i]).subrange(
                        before.len() + 1 - after.len(),
                        before.len() + 1int,
                    )
                }
                &&& max_len > 0 && i >= heads.len() ==> after == before
            },
{
    let ghost start = trails@;
    let mut i: usize = 0;
    while i < trails.len()
        invariant
            i <= trails.len(),
            trails.len() == start.len(),
            forall|k: int|
                0 <= k < start.len() ==> (#[trigger] trails@[k])@ == (if k < i {
                    next_trail(start[k]@, k, heads@, max_len as nat)
                } else {
                    start[k]@
                }),
        decreases trails.len() - i,
    {
        let mut trail: Vec<T> = Vec::new();
        trails.set_and_swap(i, &mut trail);
        if max_len == 0 {
            trail.clear();
        } else if i < heads.len() {
            trail.push(heads[i]);
            if trail.len() > max_len {
                let overflow = trail.len() - max_len;
                trail = trail.split_off(overflow);
            }
        }
        trails.set(i, trail);
        i += 1;
    }
    assert forall|i: int| 0 <= i < start.len() implies {
        let before = start[i]@;
        let after = (#[trigger] trails@[i])@;
        &&& max_len == 0 ==> after.len() == 0
        &&& max_len > 0 && i < heads.len() ==> {
            &&& after.len() == min(before.len() + 1int, max_len as int)
            &&& after.last() == heads@[i]
            &&& after == before.push(heads@[i]).subrange(
                before.len() + 1 - after.len(),
                before.len() + 1int,
            )
        }
        &&& max_len > 0 && i >= heads.len() ==> after == before
    } by {
        lemma_next_trail_shape(start[i]@, i, heads@, max_len as nat);
    }
}

/// Cutting to `n` keeps the first `min(len, n)` elements unchanged.
pub proof fn lemma_truncated_keeps_prefix<A>(s: Seq<A>, n: nat)
    ensures
        truncated(s, n).len() == min(s.len() as int, n as int),
        forall|i: int| 0 <= i < truncated(s, n).len() ==> #[trigger] truncated(s, n)[i] == s[i],
{
}

/// One trail update: with trails switched off the trail is emptied; with an
/// agent it becomes the newest `min(len + 1, max_len)` positions of the old
/// trail followed by the agent's position; without an agent it stays.
pub proof fn lemma_next_trail_shape<T>(trail: Seq<T>, i: int, heads: Seq<T>, max_len: nat)
    ensures
        max_len == 0 ==> next_trail(trail, i, heads, max_len).len() == 0,
        max_len > 0 && 0 <= i < heads.len() ==> {
            let after = next_trail(trail, i, heads, max_len);
            &&& after.len() == min(trail.len() + 1int, max_len as int)
            &&& after.last() == heads[i]
            &&& after == trail.push(heads[i]).subrange(trail.len() + 1 - after.len(), trail.len() + 1int)
        },
        max_len > 0 && i >= heads.len() ==> next_trail(trail, i, heads, max_len) == trail,
{
    if max_len > 0 && 0 <= i < heads.len() {
        lemma_trail_step_shape(trail, heads[i], max_len);
    }
}

/// After an update with trails switched on, a trail that has an agent holds
/// at most `max_len` positions, ends at the agent's position, and is the
/// newest part of the old trail followed by that position.
pub proof fn lemma_trail_step_shape<T>(trail: Seq<T>, head: T, max_len: nat)
    requires
        max_len > 0,
    ensures
        trail_step(trail, head, max_len).len() <= max_len,
        trail_step(trail, head, max_len).last() == head,
        trail_step(trail, head, max_len).len() == (if trail.len() + 1 > max_len {
            max_len as int
        } else {
            trail.len() + 1int
        }),
        trail_step(trail, head, max_len) =~= trail.push(head).subrange(
            trail.len() + 1 - trail_step(trail, head, max_len).len(),
            trail.len() + 1int,
        ),
{
}

} // verus!
