//! Distance fields: for every tile, the length of the shortest walk that
//! reaches it from a set of source tiles.

use vstd::prelude::*;
use crate::map::{spec_walkable, GridMap, TileType, NUM_TILES};

verus! {

/// The distance recorded for a tile that no walk reaches within the search
/// radius.
pub const UNREACHABLE: u32 = 0xFFFF_FFFF;

/// Two tiles are adjacent when they are neighbours in a row or in a column
/// of the grid.
pub open spec fn adjacent(i: int, j: int) -> bool {
    &&& 0 <= i < NUM_TILES
    &&& 0 <= j < NUM_TILES
    &&& ((j == i + 1 && i % 80 != 79) || (i == j + 1 && j % 80 != 79) || j == i + 80 || i == j
        + 80)
}

/// The tiles named by a list of sources; entries that name no tile are
/// ignored.
pub open spec fn source_set(sources: Seq<usize>) -> Set<int> {
    Set::new(|i: int| 0 <= i < NUM_TILES && exists|k: int| 0 <= k < sources.len() && sources[k] == i)
}

/// There is a walk of exactly `n` steps from some source to tile `i`, each
/// step entering a walkable tile adjacent to the one before.
pub open spec fn walk(tiles: Seq<TileType>, sources: Set<int>, i: int, n: nat) -> bool
    decreases n,
{
    if n == 0 {
        sources.contains(i)
    } else {
        spec_walkable(tiles, i) && exists|j: int|
            #[trigger] adjacent(j, i) && walk(tiles, sources, j, (n - 1) as nat)
    }
}

/// A walk to `j` extends by one step to any walkable neighbour `i`.
pub proof fn lemma_walk_step(tiles: Seq<TileType>, sources: Set<int>, j: int, i: int, m: nat)
    requires
        adjacent(j, i),
        spec_walkable(tiles, i),
        walk(tiles, sources, j, m),
    ensures
        walk(tiles, sources, i, m + 1),
{
    assert(walk(tiles, sources, j, ((m + 1) - 1) as nat));
}

/// The tile before the last on a walk of at least one step.
pub open spec fn walk_predecessor(tiles: Seq<TileType>, sources: Set<int>, i: int, n: nat) -> int {
    choose|j: int| #[trigger] adjacent(j, i) && walk(tiles, sources, j, (n - 1) as nat)
}

/// A walk of at least one step ends on a walkable tile and passes through
/// its predecessor.
pub proof fn lemma_walk_back(tiles: Seq<TileType>, sources: Set<int>, i: int, n: nat)
    requires
        n > 0,
        walk(tiles, sources, i, n),
    ensures
        spec_walkable(tiles, i),
        adjacent(walk_predecessor(tiles, sources, i, n), i),
        walk(tiles, sources, walk_predecessor(tiles, sources, i, n), (n - 1) as nat),
{
}

/// `d` is the length of the shortest walk from a source to tile `i`.
pub open spec fn shortest(tiles: Seq<TileType>, sources: Set<int>, i: int, d: nat) -> bool {
    walk(tiles, sources, i, d) && forall|m: nat| m < d ==> !#[trigger] walk(tiles, sources, i, m)
}

/// `dist` records, for every tile, the length of its shortest walk from the
/// sources when that length is below `radius`, and `UNREACHABLE` otherwise.
pub open spec fn is_distance_field(
    dist: Seq<u32>,
    tiles: Seq<TileType>,
    sources: Set<int>,
    radius: int,
) -> bool {
    &&& dist.len() == NUM_TILES
    &&& forall|i: int|
        0 <= i < NUM_TILES && #[trigger] dist[i] != UNREACHABLE ==> dist[i] < radius && shortest(
            tiles,
            sources,
            i,
            dist[i] as nat,
        )
    &&& forall|i: int, d: nat|
        0 <= i < NUM_TILES && d < radius && #[trigger] shortest(tiles, sources, i, d) ==> dist[i]
            == d
}

/// Tile `a` has the greatest recorded distance; among tiles at that
/// distance it has the lowest index.
pub open spec fn is_farthest(dist: Seq<u32>, a: int) -> bool {
    &&& 0 <= a < dist.len()
    &&& dist[a] != UNREACHABLE
    &&& forall|j: int|
        0 <= j < dist.len() && #[trigger] dist[j] != UNREACHABLE ==> dist[j] <= dist[a] && (dist[j]
            == dist[a] ==> a <= j)
}

/// A tile reached by some walk has a shortest walk, no longer than that one.
pub proof fn lemma_walk_has_shortest(tiles: Seq<TileType>, sources: Set<int>, i: int, n: nat)
    requires
        walk(tiles, sources, i, n),
    ensures
        exists|d: nat| d <= n && #[trigger] shortest(tiles, sources, i, d),
    decreases n,
{
    if forall|m: nat| m < n ==> !#[trigger] walk(tiles, sources, i, m) {
        assert(shortest(tiles, sources, i, n));
    } else {
        let m = choose|m: nat| m < n && walk(tiles, sources, i, m);
        lemma_walk_has_shortest(tiles, sources, i, m);
        let d = choose|d: nat| d <= m && #[trigger] shortest(tiles, sources, i, d);
        assert(d <= n && shortest(tiles, sources, i, d));
    }
}

/// The tile before the last on a shortest walk is itself at the shortest
/// distance one less.
pub proof fn lemma_shortest_predecessor(tiles: Seq<TileType>, sources: Set<int>, i: int, d: nat)
    requires
        d > 0,
        shortest(tiles, sources, i, d),
    ensures
        spec_walkable(tiles, i),
        exists|j: int| adjacent(j, i) && #[trigger] shortest(tiles, sources, j, (d - 1) as nat),
{
    lemma_walk_back(tiles, sources, i, d);
    let j = walk_predecessor(tiles, sources, i, d);
    assert forall|m: nat| m < d - 1 implies !#[trigger] walk(tiles, sources, j, m) by {
        if walk(tiles, sources, j, m) {
            lemma_walk_step(tiles, sources, j, i, m);
        }
    }
    assert(shortest(tiles, sources, j, (d - 1) as nat));
}

/// If no tile lies at shortest distance `k`, none lies at a greater one.
pub proof fn lemma_empty_level(tiles: Seq<TileType>, sources: Set<int>, k: nat, m: nat, i: int)
    requires
        forall|j: int| !#[trigger] shortest(tiles, sources, j, k),
        k <= m,
    ensures
        !shortest(tiles, sources, i, m),
    decreases m,
{
    if m > k && shortest(tiles, sources, i, m) {
        lemma_shortest_predecessor(tiles, sources, i, m);
        let j = choose|j: int| adjacent(j, i) && #[trigger] shortest(tiles, sources, j, (m - 1) as nat);
        lemma_empty_level(tiles, sources, k, (m - 1) as nat, j);
    }
}

/// A map has one distance field for given sources and radius.
pub proof fn lemma_distance_field_unique(
    a: Seq<u32>,
    b: Seq<u32>,
    tiles: Seq<TileType>,
    sources: Set<int>,
    radius: int,
)
    requires
        is_distance_field(a, tiles, sources, radius),
        is_distance_field(b, tiles, sources, radius),
    ensures
        a == b,
{
    assert forall|i: int| 0 <= i < NUM_TILES implies a[i] == b[i] by {
        if a[i] != UNREACHABLE {
            assert(shortest(tiles, sources, i, a[i] as nat));
        } else if b[i] != UNREACHABLE {
            assert(shortest(tiles, sources, i, b[i] as nat));
        }
    }
    assert(a =~= b);
}

/// Every tile with a distance up to `k` has it recorded, and nothing else is
/// recorded.
spec fn levels_done(dist: Seq<u32>, tiles: Seq<TileType>, sources: Set<int>, k: int) -> bool {
    &&& dist.len() == NUM_TILES
    &&& forall|i: int|
        0 <= i < NUM_TILES ==> #[trigger] tile_done(dist, tiles, sources, k, i)
}

/// Tile `i` is settled with respect to the levels up to `k`.
spec fn tile_done(dist: Seq<u32>, tiles: Seq<TileType>, sources: Set<int>, k: int, i: int) -> bool {
    &&& dist[i] != UNREACHABLE ==> dist[i] <= k && shortest(tiles, sources, i, dist[i] as nat)
    &&& forall|d: nat| d <= k && #[trigger] shortest(tiles, sources, i, d) ==> dist[i] == d
}

/// Whether some neighbour of tile `i` has the recorded distance `k`.
fn neighbour_at(dist: &Vec<u32>, i: usize, k: u32) -> (b: bool)
    requires
        dist@.len() == NUM_TILES,
        i < NUM_TILES,
    ensures
        b == exists|j: int| adjacent(j, i as int) && #[trigger] dist@[j] == k,
{
    let right = i % 80 != 79 && i + 1 < NUM_TILES && dist[i + 1] == k;
    let left = i % 80 != 0 && dist[i - 1] == k;
    let below = i + 80 < NUM_TILES && dist[i + 80] == k;
    let above = i >= 80 && dist[i - 80] == k;
    proof {
        if right {
            assert(adjacent(i + 1, i as int) && dist@[i + 1] == k);
        }
        if left {
            assert(adjacent(i - 1, i as int) && dist@[i - 1] == k);
        }
        if below {
            assert(adjacent(i + 80, i as int) && dist@[i + 80] == k);
        }
        if above {
            assert(adjacent(i - 80, i as int) && dist@[i - 80] == k);
        }
    }
    right || left || below || above
}

/// Settles tile `i` for level `k + 1`, given that all tiles are settled for
/// the levels up to `k`.
proof fn lemma_settle(
    before: Seq<u32>,
    tiles: Seq<TileType>,
    sources: Set<int>,
    k: nat,
    i: int,
    hit: bool,
)
    requires
        before.len() == NUM_TILES,
        0 <= i < NUM_TILES,
        k + 1 < UNREACHABLE,
        tile_done(before, tiles, sources, k as int, i),
        forall|j: int|
            0 <= j < NUM_TILES ==> (#[trigger] before[j] == k <==> shortest(tiles, sources, j, k)),
        hit == (before[i] == UNREACHABLE && spec_walkable(tiles, i) && exists|j: int|
            adjacent(j, i) && #[trigger] before[j] == k),
    ensures
        hit <==> shortest(tiles, sources, i, k + 1),
        hit ==> tile_done(before.update(i, (k + 1) as u32), tiles, sources, k as int + 1, i),
        !hit ==> tile_done(before, tiles, sources, k as int + 1, i),
{
    if before[i] != UNREACHABLE {
        assert(walk(tiles, sources, i, before[i] as nat));
    } else {
        assert forall|m: nat| m <= k implies !#[trigger] walk(tiles, sources, i, m) by {
            if walk(tiles, sources, i, m) {
                lemma_walk_has_shortest(tiles, sources, i, m);
            }
        }
        if hit {
            let j = choose|j: int| adjacent(j, i) && #[trigger] before[j] == k;
            lemma_walk_step(tiles, sources, j, i, k);
        } else if shortest(tiles, sources, i, k + 1) {
            lemma_shortest_predecessor(tiles, sources, i, k + 1);
            let j = choose|j: int| adjacent(j, i) && #[trigger] shortest(tiles, sources, j, k);
            assert(before[j] == k);
        }
    }
}

/// Computes the distance field of `sources` over the walkable tiles of
/// `map`, looking no farther than `max_depth` steps.
pub fn distance_field(map: &GridMap, sources: &Vec<usize>, max_depth: u32) -> (dist: Vec<u32>)
    requires
        map.wf(),
    ensures
        is_distance_field(dist@, map.tiles@, source_set(sources@), max_depth as int),
{
    let ghost tiles = map.tiles@;
    let ghost src = source_set(sources@);
    let mut dist: Vec<u32> = Vec::new();
    let mut n: usize = 0;
    while n < NUM_TILES
        invariant
            n <= NUM_TILES,
            dist@.len() == n,
            forall|i: int| 0 <= i < n ==> dist@[i] == UNREACHABLE,
        decreases NUM_TILES - n,
    {
        dist.push(UNREACHABLE);
        n += 1;
    }
    if max_depth == 0 {
        return dist;
    }
    let mut s: usize = 0;
    while s < sources.len()
        invariant
            s <= sources@.len(),
            dist@.len() == NUM_TILES,
            forall|i: int|
                0 <= i < NUM_TILES ==> (#[trigger] dist@[i] == 0 <==> exists|k: int|
                    0 <= k < s && sources@[k] == i),
            forall|i: int| 0 <= i < NUM_TILES ==> dist@[i] == 0 || #[trigger] dist@[i] == UNREACHABLE,
        decreases sources@.len() - s,
    {
        let t = sources[s];
        if t < NUM_TILES {
            dist[t] = 0;
        }
        s += 1;
    }
    assert forall|i: int| 0 <= i < NUM_TILES implies #[trigger] tile_done(dist@, tiles, src, 0, i) by {
        if dist@[i] == 0 {
            assert(src.contains(i));
            assert(walk(tiles, src, i, 0));
        }
        assert forall|d: nat| d <= 0 && #[trigger] shortest(tiles, src, i, d) implies dist@[i]
            == d by {
            assert(walk(tiles, src, i, 0));
        }
    }
    let mut k: u32 = 0;
    let mut grew = true;
    while grew && k + 1 < max_depth
        invariant
            k < max_depth,
            map.wf(),
            tiles == map.tiles@,
            levels_done(dist@, tiles, src, k as int),
            !grew ==> forall|j: int| !#[trigger] shortest(tiles, src, j, k as nat),
        decreases max_depth - k,
    {
        grew = false;
        let mut i: usize = 0;
        proof {
            assert forall|j: int| 0 <= j < NUM_TILES implies (#[trigger] dist@[j] == k <==> shortest(
                tiles,
                src,
                j,
                k as nat,
            )) by {
                assert(tile_done(dist@, tiles, src, k as int, j));
            }
        }
        while i < NUM_TILES
            invariant
                i <= NUM_TILES,
                k + 1 < max_depth,
                map.wf(),
                tiles == map.tiles@,
                dist@.len() == NUM_TILES,
                forall|j: int| 0 <= j < i ==> #[trigger] tile_done(dist@, tiles, src, k + 1, j),
                forall|j: int|
                    i <= j < NUM_TILES ==> #[trigger] tile_done(dist@, tiles, src, k as int, j),
                forall|j: int|
                    0 <= j < NUM_TILES ==> (#[trigger] dist@[j] == k <==> shortest(
                        tiles,
                        src,
                        j,
                        k as nat,
                    )),
                !grew ==> forall|j: int|
                    0 <= j < i ==> !#[trigger] shortest(tiles, src, j, (k + 1) as nat),
            decreases NUM_TILES - i,
        {
            let hit = dist[i] == UNREACHABLE && map.is_walkable(i) && neighbour_at(&dist, i, k);
            proof {
                assert(tile_done(dist@, tiles, src, k as int, i as int));
                lemma_settle(dist@, tiles, src, k as nat, i as int, hit);
            }
            let ghost before = dist@;
            if hit {
                dist[i] = k + 1;
                grew = true;
            }
            proof {
                assert forall|j: int| 0 <= j < i + 1 implies #[trigger] tile_done(
                    dist@,
                    tiles,
                    src,
                    k + 1,
                    j,
                ) by {
                    if j < i {
                        assert(tile_done(before, tiles, src, k + 1, j));
                    }
                }
                assert forall|j: int| i + 1 <= j < NUM_TILES implies #[trigger] tile_done(
                    dist@,
                    tiles,
                    src,
                    k as int,
                    j,
                ) by {
                    assert(tile_done(before, tiles, src, k as int, j));
                }
            }
            i += 1;
        }
        let ghost next: nat = (k + 1) as nat;
        proof {
            if !grew {
                assert forall|j: int| !#[trigger] shortest(tiles, src, j, next) by {
                    if shortest(tiles, src, j, next) {
                        lemma_shortest_predecessor(tiles, src, j, next);
                        assert(0 <= j < NUM_TILES);
                        assert(!shortest(tiles, src, j, (k + 1) as nat));
                    }
                }
            }
        }
        k += 1;
        assert(k as nat == next);
    }
    proof {
        assert forall|i: int, d: nat|
            0 <= i < NUM_TILES && d < max_depth && #[trigger] shortest(tiles, src, i, d) implies dist@[i]
            == d by {
            assert(tile_done(dist@, tiles, src, k as int, i));
            if d > k {
                lemma_empty_level(tiles, src, k as nat, d, i);
            }
        }
        assert forall|i: int| 0 <= i < NUM_TILES && #[trigger] dist@[i] != UNREACHABLE implies dist@[i]
            < max_depth && shortest(tiles, src, i, dist@[i] as nat) by {
            assert(tile_done(dist@, tiles, src, k as int, i));
        }
    }
    dist
}

/// The tile with the greatest recorded distance, the first such in index
/// order, or `None` when no tile has a recorded distance.
pub fn farthest(dist: &Vec<u32>) -> (r: Option<usize>)
    ensures
        r matches Some(a) ==> is_farthest(dist@, a as int),
        r.is_none() ==> forall|j: int| 0 <= j < dist@.len() ==> dist@[j] == UNREACHABLE,
{
    let mut best: Option<usize> = None;
    let mut i: usize = 0;
    while i < dist.len()
        invariant
            i <= dist@.len(),
            best matches Some(a) ==> is_farthest(dist@.take(i as int), a as int),
            best.is_none() ==> forall|j: int| 0 <= j < i ==> dist@[j] == UNREACHABLE,
        decreases dist@.len() - i,
    {
        if dist[i] != UNREACHABLE {
            let better = match best {
                Some(a) => dist[i] > dist[a],
                None => true,
            };
            if better {
                best = Some(i);
            }
        }
        i += 1;
    }
    proof {
        assert(dist@.take(i as int) == dist@);
    }
    best
}

} // verus!
