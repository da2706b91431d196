//! Cell-keyed spatial hash.
//!
//! Agents are filed under the integer grid cell that holds them; a query for a
//! cell returns every index filed in that cell and in its 26 neighbours. The
//! mapping from a floating-point position to its cell belongs to the caller.
use std::collections::HashMap;
use vstd::prelude::*;

verus! {

broadcast use vstd::std_specs::hash::group_hash_axioms;

/// A grid cell as a coordinate triple.
pub open spec fn cell_of(cell: [i32; 3]) -> (i32, i32, i32) {
    (cell[0], cell[1], cell[2])
}

/// The single integer under which a cell's bucket is stored.
pub open spec fn packed_key(x: i32, y: i32, z: i32) -> u128 {
    ((x as u32 as u128) << 64u128) | ((y as u32 as u128) << 32u128) | (z as u32 as u128)
}

proof fn lemma_packed_key_injective(x1: i32, y1: i32, z1: i32, x2: i32, y2: i32, z2: i32)
    by (bit_vector)
    requires
        packed_key(x1, y1, z1) == packed_key(x2, y2, z2),
    ensures
        x1 == x2 && y1 == y2 && z1 == z2,
{
}

/// The indices filed under cell `c` in the abstract map `m`.
pub open spec fn bucket(m: Map<(i32, i32, i32), Seq<usize>>, c: (i32, i32, i32)) -> Seq<usize> {
    if m.contains_key(c) {
        m[c]
    } else {
        Seq::empty()
    }
}

/// A cell whose 26 neighbours all have coordinates inside the `i32` range.
pub open spec fn interior(o: (i32, i32, i32)) -> bool {
    &&& i32::MIN < o.0 < i32::MAX
    &&& i32::MIN < o.1 < i32::MAX
    &&& i32::MIN < o.2 < i32::MAX
}

/// Two cells that differ by at most one step along each axis.
pub open spec fn adjacent(c: (i32, i32, i32), o: (i32, i32, i32)) -> bool {
    &&& -1 <= c.0 - o.0 <= 1
    &&& -1 <= c.1 - o.1 <= 1
    &&& -1 <= c.2 - o.2 <= 1
}

/// The `k`-th cell of the 3x3x3 block around `o`, with the x offset varying
/// slowest and the z offset fastest, each running -1, 0, 1.
pub open spec fn neighbour_cell(o: (i32, i32, i32), k: int) -> (i32, i32, i32) {
    ((o.0 + k / 9 - 1) as i32, (o.1 + (k / 3) % 3 - 1) as i32, (o.2 + k % 3 - 1) as i32)
}

/// The buckets of the first `k` cells of the block around `o`, concatenated.
pub open spec fn gathered(m: Map<(i32, i32, i32), Seq<usize>>, o: (i32, i32, i32), k: nat) -> Seq<
    usize,
>
    decreases k,
{
    if k == 0 {
        Seq::empty()
    } else {
        gathered(m, o, (k - 1) as nat) + bucket(m, neighbour_cell(o, k - 1))
    }
}

/// What a query for cell `o` returns: the buckets of all 27 cells of the
/// block around `o`, in block order.
pub open spec fn nearby(m: Map<(i32, i32, i32), Seq<usize>>, o: (i32, i32, i32)) -> Seq<usize> {
    gathered(m, o, 27)
}

/// The buckets of the 27 cells of the block around `o`, in block order.
pub open spec fn block_buckets(m: Map<(i32, i32, i32), Seq<usize>>, o: (i32, i32, i32)) -> Seq<
    Seq<usize>,
> {
    Seq::new(27, |k: int| bucket(m, neighbour_cell(o, k)))
}

/// Whether an `(index, cell)` entry lies in cell `c`.
pub open spec fn entry_in_cell(c: (i32, i32, i32)) -> spec_fn((usize, [i32; 3])) -> bool {
    |e: (usize, [i32; 3])| cell_of(e.1) == c
}

/// The index of an `(index, cell)` entry.
pub open spec fn entry_index() -> spec_fn((usize, [i32; 3])) -> usize {
    |e: (usize, [i32; 3])| e.0
}

/// The indices that a list of `(index, cell)` entries files under cell `c`,
/// in list order.
pub open spec fn indices_in_cell(entries: Seq<(usize, [i32; 3])>, c: (i32, i32, i32)) -> Seq<usize>
    decreases entries.len(),
{
    if entries.len() == 0 {
        Seq::empty()
    } else {
        let prev = indices_in_cell(entries.drop_last(), c);
        if cell_of(entries.last().1) == c {
            prev.push(entries.last().0)
        } else {
            prev
        }
    }
}

proof fn lemma_gathered_contains(
    m: Map<(i32, i32, i32), Seq<usize>>,
    o: (i32, i32, i32),
    k: nat,
    i: usize,
)
    ensures
        gathered(m, o, k).contains(i) <==> exists|j: int|
            0 <= j < k && #[trigger] bucket(m, neighbour_cell(o, j)).contains(i),
    decreases k,
{
    if k > 0 {
        lemma_gathered_contains(m, o, (k - 1) as nat, i);
        let prev = gathered(m, o, (k - 1) as nat);
        let last = bucket(m, neighbour_cell(o, k - 1));
        assert((prev + last).contains(i) <==> prev.contains(i) || last.contains(i)) by {
            if (prev + last).contains(i) {
                let n = choose|n: int| 0 <= n < (prev + last).len() && (prev + last)[n] == i;
                if n < prev.len() {
                    assert(prev[n] == i);
                } else {
                    assert(last[n - prev.len()] == i);
                }
            }
            if prev.contains(i) {
                let n = choose|n: int| 0 <= n < prev.len() && prev[n] == i;
                assert((prev + last)[n] == i);
            }
            if last.contains(i) {
                let n = choose|n: int| 0 <= n < last.len() && last[n] == i;
                assert((prev + last)[prev.len() + n] == i);
            }
        }
    }
}

proof fn lemma_block_position(o: (i32, i32, i32), c: (i32, i32, i32))
    requires
        interior(o),
        adjacent(c, o),
    ensures
        ({
            let j = (c.0 - o.0 + 1) * 9 + (c.1 - o.1 + 1) * 3 + (c.2 - o.2 + 1);
            0 <= j < 27 && neighbour_cell(o, j) == c
        }),
{
    let dx = c.0 - o.0 + 1;
    let dy = c.1 - o.1 + 1;
    let dz = c.2 - o.2 + 1;
    let j = dx * 9 + dy * 3 + dz;
    assert(j / 9 == dx);
    assert(j / 3 == dx * 3 + dy);
    assert((j / 3) % 3 == dy);
    assert(j % 3 == dz);
}

/// A query returns an index exactly when that index is filed in some cell
/// that differs from the queried cell by at most one step along each axis.
pub proof fn lemma_nearby_membership(
    m: Map<(i32, i32, i32), Seq<usize>>,
    o: (i32, i32, i32),
    i: usize,
)
    requires
        interior(o),
    ensures
        nearby(m, o).contains(i) <==> exists|c: (i32, i32, i32)|
            adjacent(c, o) && #[trigger] bucket(m, c).contains(i),
{
    lemma_gathered_contains(m, o, 27, i);
    if nearby(m, o).contains(i) {
        let j = choose|j: int| 0 <= j < 27 && #[trigger] bucket(m, neighbour_cell(o, j)).contains(i);
        let c = neighbour_cell(o, j);
        assert(adjacent(c, o));
        assert(bucket(m, c).contains(i));
    }
    if exists|c: (i32, i32, i32)| adjacent(c, o) && #[trigger] bucket(m, c).contains(i) {
        let c = choose|c: (i32, i32, i32)| adjacent(c, o) && #[trigger] bucket(m, c).contains(i);
        lemma_block_position(o, c);
        let j = (c.0 - o.0 + 1) * 9 + (c.1 - o.1 + 1) * 3 + (c.2 - o.2 + 1);
        assert(bucket(m, neighbour_cell(o, j)).contains(i));
    }
}

/// An index is filed under a cell exactly when some entry pairs it with
/// that cell.
pub proof fn lemma_indices_in_cell_membership(
    entries: Seq<(usize, [i32; 3])>,
    c: (i32, i32, i32),
    i: usize,
)
    ensures
        indices_in_cell(entries, c).contains(i) <==> exists|j: int|
            0 <= j < entries.len() && #[trigger] entries[j].0 == i && cell_of(entries[j].1) == c,
    decreases entries.len(),
{
    if entries.len() > 0 {
        let init = entries.drop_last();
        lemma_indices_in_cell_membership(init, c, i);
        let prev = indices_in_cell(init, c);
        let n = entries.len() - 1;
        if cell_of(entries.last().1) == c {
            assert(prev.push(entries.last().0).contains(i) <==> prev.contains(i) || entries.last().0
                == i) by {
                if prev.push(entries.last().0).contains(i) {
                    let k = choose|k: int|
                        0 <= k < prev.len() + 1 && prev.push(entries.last().0)[k] == i;
                    if k < prev.len() {
                        assert(prev[k] == i);
                    }
                }
                if prev.contains(i) {
                    let k = choose|k: int| 0 <= k < prev.len() && prev[k] == i;
                    assert(prev.push(entries.last().0)[k] == i);
                }
                if entries.last().0 == i {
                    assert(prev.push(entries.last().0)[prev.len() as int] == i);
                }
            }
        }
        if exists|j: int| 0 <= j < entries.len() && #[trigger] entries[j].0 == i && cell_of(entries[j].1) == c {
            let j = choose|j: int|
                0 <= j < entries.len() && #[trigger] entries[j].0 == i && cell_of(entries[j].1) == c;
            if j < n {
                assert(init[j].0 == i);
            }
        }
        if exists|j: int| 0 <= j < init.len() && #[trigger] init[j].0 == i && cell_of(init[j].1) == c {
            let j = choose|j: int|
                0 <= j < init.len() && #[trigger] init[j].0 == i && cell_of(init[j].1) == c;
            assert(entries[j].0 == i);
        }
    }
}

/// After a rebuild from a list of `(index, cell)` entries, a query for cell
/// `o` returns an index exactly when some entry pairs it with a cell that
/// differs from `o` by at most one step along each axis.
pub proof fn lemma_query_after_rebuild(
    m: Map<(i32, i32, i32), Seq<usize>>,
    entries: Seq<(usize, [i32; 3])>,
    o: (i32, i32, i32),
    i: usize,
)
    requires
        interior(o),
        forall|c: (i32, i32, i32)| #[trigger] bucket(m, c) == indices_in_cell(entries, c),
    ensures
        nearby(m, o).contains(i) <==> exists|j: int|
            0 <= j < entries.len() && #[trigger] entries[j].0 == i && adjacent(cell_of(entries[j].1), o),
{
    lemma_nearby_membership(m, o, i);
    if nearby(m, o).contains(i) {
        let c = choose|c: (i32, i32, i32)| adjacent(c, o) && #[trigger] bucket(m, c).contains(i);
        lemma_indices_in_cell_membership(entries, c, i);
        let j = choose|j: int|
            0 <= j < entries.len() && #[trigger] entries[j].0 == i && cell_of(entries[j].1) == c;
        assert(entries[j].0 == i && adjacent(cell_of(entries[j].1), o));
    }
    if exists|j: int| 0 <= j < entries.len() && #[trigger] entries[j].0 == i && adjacent(cell_of(entries[j].1), o) {
        let j = choose|j: int|
            0 <= j < entries.len() && #[trigger] entries[j].0 == i && adjacent(cell_of(entries[j].1), o);
        let c = cell_of(entries[j].1);
        lemma_indices_in_cell_membership(entries, c, i);
        assert(bucket(m, c).contains(i));
    }
}

/// An index just filed under cell `c` is returned by a query for any cell
/// next to `c` (or `c` itself).
pub proof fn lemma_query_finds_inserted(
    m: Map<(i32, i32, i32), Seq<usize>>,
    c: (i32, i32, i32),
    i: usize,
    o: (i32, i32, i32),
)
    requires
        interior(o),
        adjacent(c, o),
    ensures
        nearby(m.insert(c, bucket(m, c).push(i)), o).contains(i),
{
    let after = m.insert(c, bucket(m, c).push(i));
    assert(bucket(after, c) == bucket(m, c).push(i));
    assert(bucket(after, c)[bucket(m, c).len() as int] == i);
    assert(bucket(after, c).contains(i));
    lemma_nearby_membership(after, o, i);
}

/// A query on an empty hash returns nothing.
pub proof fn lemma_empty_query(o: (i32, i32, i32))
    requires
        interior(o),
    ensures
        nearby(Map::<(i32, i32, i32), Seq<usize>>::empty(), o).len() == 0,
{
    let m = Map::<(i32, i32, i32), Seq<usize>>::empty();
    if nearby(m, o).len() > 0 {
        let i = nearby(m, o)[0];
        assert(nearby(m, o).contains(i));
        lemma_nearby_membership(m, o, i);
        let c = choose|c: (i32, i32, i32)| adjacent(c, o) && #[trigger] bucket(m, c).contains(i);
        assert(bucket(m, c).len() == 0);
    }
}

/// Neighbour candidates never name the excluded agent, and name every other
/// index that the query returns.
pub proof fn lemma_candidates_membership(
    m: Map<(i32, i32, i32), Seq<usize>>,
    o: (i32, i32, i32),
    exclude: usize,
    i: usize,
)
    ensures
        nearby(m, o).filter(|x: usize| x != exclude).contains(i) <==> (nearby(m, o).contains(i) && i
            != exclude),
{
    let all = nearby(m, o);
    let pred = |x: usize| x != exclude;
    if all.filter(pred).contains(i) {
        let k = choose|k: int| 0 <= k < all.filter(pred).len() && all.filter(pred)[k] == i;
        all.lemma_filter_pred(pred, k);
        all.lemma_filter_contains_rev(pred, i);
    }
    if all.contains(i) && i != exclude {
        let k = choose|k: int| 0 <= k < all.len() && all[k] == i;
        all.lemma_filter_contains(pred, k);
    }
}

/// A query lists the bucket of each of the 27 cells around `o` exactly
/// once, in block order (x offset slowest, z offset fastest): the result is
/// the concatenation of those buckets, so its length is the sum of their
/// lengths and every index occurs as often as in those buckets together.
/// The block holds the cell `o + (dx, dy, dz)` at position
/// `9 (dx + 1) + 3 (dy + 1) + (dz + 1)`.
pub proof fn lemma_nearby_is_block_flattened(m: Map<(i32, i32, i32), Seq<usize>>, o: (i32, i32, i32))
    requires
        interior(o),
    ensures
        nearby(m, o) == block_buckets(m, o).flatten(),
        block_buckets(m, o).len() == 27,
        forall|dx: int, dy: int, dz: int|
            -1 <= dx <= 1 && -1 <= dy <= 1 && -1 <= dz <= 1 ==> #[trigger] block_buckets(m, o)[9 * (
            dx + 1) + 3 * (dy + 1) + (dz + 1)] == bucket(
                m,
                ((o.0 + dx) as i32, (o.1 + dy) as i32, (o.2 + dz) as i32),
            ),
{
    let block = block_buckets(m, o);
    assert forall|k: nat| k <= 27 implies #[trigger] gathered(m, o, k) == block.take(k as int).flatten() by {
        lemma_gathered_is_prefix_flattened(m, o, k);
    }
    assert(block.take(27) =~= block);
    assert(gathered(m, o, 27) == block.take(27).flatten());
    assert forall|dx: int, dy: int, dz: int|
        -1 <= dx <= 1 && -1 <= dy <= 1 && -1 <= dz <= 1 implies #[trigger] block[9 * (dx + 1) + 3 * (
        dy + 1) + (dz + 1)] == bucket(m, ((o.0 + dx) as i32, (o.1 + dy) as i32, (o.2 + dz) as i32)) by {
        let c = ((o.0 + dx) as i32, (o.1 + dy) as i32, (o.2 + dz) as i32);
        assert(adjacent(c, o));
        lemma_block_position(o, c);
    }
}

proof fn lemma_gathered_is_prefix_flattened(
    m: Map<(i32, i32, i32), Seq<usize>>,
    o: (i32, i32, i32),
    k: nat,
)
    requires
        k <= 27,
    ensures
        gathered(m, o, k) == block_buckets(m, o).take(k as int).flatten(),
    decreases k,
{
    let block = block_buckets(m, o);
    if k == 0 {
        assert(block.take(0) =~= Seq::<Seq<usize>>::empty());
    } else {
        lemma_gathered_is_prefix_flattened(m, o, (k - 1) as nat);
        assert(block.take(k as int) =~= block.take(k - 1).push(block[k - 1]));
        block.take(k - 1).lemma_flatten_push(block[k - 1]);
    }
}

/// After a rebuild each cell holds exactly the indices of the entries filed
/// in that cell, each once, in list order: the entries in the cell, with
/// their cells dropped.
pub proof fn lemma_indices_in_cell_is_filter(entries: Seq<(usize, [i32; 3])>, c: (i32, i32, i32))
    ensures
        indices_in_cell(entries, c) == entries.filter(entry_in_cell(c)).map_values(entry_index()),
        indices_in_cell(entries, c).len() == entries.filter(entry_in_cell(c)).len(),
    decreases entries.len(),
{
    reveal(Seq::filter);
    if entries.len() > 0 {
        let init = entries.drop_last();
        lemma_indices_in_cell_is_filter(init, c);
        let sub = init.filter(entry_in_cell(c));
        assert(entries.filter(entry_in_cell(c)) == (if cell_of(entries.last().1) == c {
            sub.push(entries.last())
        } else {
            sub
        }));
        if cell_of(entries.last().1) == c {
            assert(sub.push(entries.last()).map_values(entry_index()) =~= sub.map_values(
                entry_index(),
            ).push(entries.last().0));
        }
    } else {
        assert(entries.filter(entry_in_cell(c)).map_values(entry_index()) =~= Seq::<usize>::empty());
    }
}

/// Buckets of agent indices keyed by grid cell.
#[derive(Debug, Clone)]
pub struct SpatialHash {
    cells: HashMap<u128, Vec<usize>>,
}

impl View for SpatialHash {
    type V = Map<(i32, i32, i32), Seq<usize>>;

    closed spec fn view(&self) -> Map<(i32, i32, i32), Seq<usize>> {
        Map::new(
            |c: (i32, i32, i32)| self.cells@.contains_key(packed_key(c.0, c.1, c.2)),
            |c: (i32, i32, i32)| self.cells@[packed_key(c.0, c.1, c.2)]@,
        )
    }
}

fn pack_cell(x: i32, y: i32, z: i32) -> (key: u128)
    ensures
        key == packed_key(x, y, z),
{
    ((x as u32 as u128) << 64u128) | ((y as u32 as u128) << 32u128) | (z as u32 as u128)
}

impl SpatialHash {
    /// An empty hash.
    pub fn new() -> (hash: Self)
        ensures
            hash@ == Map::<(i32, i32, i32), Seq<usize>>::empty(),
    {
        let hash = SpatialHash { cells: HashMap::new() };
        assert(hash@ =~= Map::<(i32, i32, i32), Seq<usize>>::empty());
        hash
    }

    /// Removes every entry.
    pub fn clear(&mut self)
        ensures
            final(self)@ == Map::<(i32, i32, i32), Seq<usize>>::empty(),
    {
        self.cells.clear();
        assert(self@ =~= Map::<(i32, i32, i32), Seq<usize>>::empty());
    }

    /// Files `index` under `cell`, after the indices already there.
    pub fn insert(&mut self, index: usize, cell: [i32; 3])
        ensures
            final(self)@ == old(self)@.insert(cell_of(cell), bucket(old(self)@, cell_of(cell)).push(index)),
    {
        let key = pack_cell(cell[0], cell[1], cell[2]);
        let ghost c = cell_of(cell);
        let ghost before = self@;
        let taken = self.cells.remove(&key);
        let mut indices = match taken {
            Some(v) => v,
            None => Vec::new(),
        };
        assert(indices@ == bucket(before, c));
        indices.push(index);
        self.cells.insert(key, indices);
        assert forall|c2: (i32, i32, i32)| #![auto]
            packed_key(c2.0, c2.1, c2.2) == key implies c2 == c by {
            lemma_packed_key_injective(c2.0, c2.1, c2.2, c.0, c.1, c.2);
        }
        assert(self@ =~= before.insert(c, bucket(before, c).push(index)));
    }
}

impl SpatialHash {
    /// Clears the hash and files every `(index, cell)` entry in list order.
    pub fn rebuild(&mut self, entries: &Vec<(usize, [i32; 3])>)
        ensures
            forall|c: (i32, i32, i32)| #[trigger]
                bucket(final(self)@, c) == indices_in_cell(entries@, c),
            forall|c: (i32, i32, i32)| #[trigger]
                bucket(final(self)@, c) == entries@.filter(entry_in_cell(c)).map_values(
                    entry_index(),
                ),
    {
        self.clear();
        let mut j: usize = 0;
        while j < entries.len()
            invariant
                j <= entries.len(),
                forall|c: (i32, i32, i32)| #[trigger]
                    bucket(self@, c) == indices_in_cell(entries@.take(j as int), c),
            decreases entries.len() - j,
        {
            let (index, cell) = entries[j];
            let ghost before = self@;
            self.insert(index, cell);
            assert forall|c: (i32, i32, i32)| #[trigger]
                bucket(self@, c) == indices_in_cell(entries@.take(j + 1), c) by {
                let prefix = entries@.take(j + 1);
                assert(prefix.drop_last() =~= entries@.take(j as int));
                assert(prefix.last() == entries@[j as int]);
                assert(entries@[j as int] == (index, cell));
                assert(prefix.len() > 0);
                assert(bucket(before, c) == indices_in_cell(entries@.take(j as int), c));
                if c == cell_of(cell) {
                    assert(indices_in_cell(prefix, c) == indices_in_cell(
                        entries@.take(j as int),
                        c,
                    ).push(index));
                } else {
                    assert(indices_in_cell(prefix, c) == indices_in_cell(
                        entries@.take(j as int),
                        c,
                    ));
                }
            }
            j += 1;
        }
        assert(entries@.take(entries.len() as int) =~= entries@);
        assert forall|c: (i32, i32, i32)| #[trigger]
            bucket(self@, c) == entries@.filter(entry_in_cell(c)).map_values(entry_index()) by {
            lemma_indices_in_cell_is_filter(entries@, c);
        }
    }

    /// The indices filed in the 27 cells around `origin`: the x offset runs
    /// slowest and the z offset fastest, each over -1, 0, 1, and each cell's
    /// indices come in filing order.
    pub fn nearby_indices(&self, origin: [i32; 3]) -> (found: Vec<usize>)
        requires
            interior(cell_of(origin)),
        ensures
            found@ == nearby(self@, cell_of(origin)),
            found@ == block_buckets(self@, cell_of(origin)).flatten(),
    {
        let ghost o = cell_of(origin);
        let mut found: Vec<usize> = Vec::new();
        let mut k: usize = 0;
        while k < 27
            invariant
                k <= 27,
                o == cell_of(origin),
                interior(o),
                found@ == gathered(self@, o, k as nat),
            decreases 27 - k,
        {
            let x: i32 = origin[0] + ((k / 9) as i32 - 1);
            let y: i32 = origin[1] + (((k / 3) % 3) as i32 - 1);
            let z: i32 = origin[2] + ((k % 3) as i32 - 1);
            assert((x, y, z) == neighbour_cell(o, k as int));
            let key = pack_cell(x, y, z);
            match self.cells.get(&key) {
                Some(indices) => {
                    let ghost start = found@;
                    let mut i: usize = 0;
                    while i < indices.len()
                        invariant
                            i <= indices.len(),
                            found@ == start + indices@.take(i as int),
                        decreases indices.len() - i,
                    {
                        found.push(indices[i]);
                        assert(indices@.take(i + 1) =~= indices@.take(i as int).push(indices@[i as int]));
                        i += 1;
                    }
                    assert(indices@.take(indices.len() as int) =~= indices@);
                },
                None => {},
            }
            k += 1;
        }
        proof {
            lemma_nearby_is_block_flattened(self@, o);
        }
        found
    }

    /// The indices around `origin`, as `nearby_indices` gives them, without
    /// the index `exclude` (an agent is not its own neighbour).
    pub fn neighbor_candidates(&self, origin: [i32; 3], exclude: usize) -> (candidates: Vec<usize>)
        requires
            interior(cell_of(origin)),
        ensures
            candidates@ == nearby(self@, cell_of(origin)).filter(|x: usize| x != exclude),
    {
        let all = self.nearby_indices(origin);
        let mut candidates: Vec<usize> = Vec::new();
        let mut i: usize = 0;
        while i < all.len()
            invariant
                i <= all.len(),
                candidates@ == all@.take(i as int).filter(|x: usize| x != exclude),
            decreases all.len() - i,
        {
            let candidate = all[i];
            proof {
                assert(all@.take(i + 1) =~= all@.take(i as int).push(candidate));
                all@.take(i as int).lemma_filter_push(candidate, |x: usize| x != exclude);
            }
            if candidate != exclude {
                candidates.push(candidate);
            }
            i += 1;
        }
        assert(all@.take(all.len() as int) =~= all@);
        candidates
    }
}

} // verus!
