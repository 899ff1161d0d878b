//! Bucket fills: which tiles a fill spreads to, and the limit on how many it may change.
use vstd::prelude::*;

use crate::geometry::{Coord, Size, in_bounds};
use crate::placement::PlacementKind;
use crate::tool::{spec_includes, FillError, FillMode, SelectionMask};

verus! {

/// Whether `coord` is on the map: every axis between one and the map's extent.
pub fn coord_in_bounds(coord: Coord, size: Size) -> (inside: bool)
    ensures
        inside == in_bounds(coord, size),
{
    1 <= coord.x && coord.x <= size.x && 1 <= coord.y && coord.y <= size.y && 1 <= coord.z
        && coord.z <= size.z
}

/// The tiles west, east, south and north of `coord` (in that order) that are still on the map.
pub open spec fn spec_cardinal_neighbors(coord: Coord, size: Size) -> Seq<Coord> {
    let west = if coord.x > 1 {
        seq![Coord { x: (coord.x - 1) as u32, y: coord.y, z: coord.z }]
    } else {
        seq![]
    };
    let east = if coord.x < size.x {
        seq![Coord { x: (coord.x + 1) as u32, y: coord.y, z: coord.z }]
    } else {
        seq![]
    };
    let south = if coord.y > 1 {
        seq![Coord { x: coord.x, y: (coord.y - 1) as u32, z: coord.z }]
    } else {
        seq![]
    };
    let north = if coord.y < size.y {
        seq![Coord { x: coord.x, y: (coord.y + 1) as u32, z: coord.z }]
    } else {
        seq![]
    };
    west + east + south + north
}

pub fn cardinal_neighbors(coord: Coord, size: Size) -> (neighbors: Vec<Coord>)
    ensures
        neighbors@ == spec_cardinal_neighbors(coord, size),
{
    let mut neighbors: Vec<Coord> = Vec::new();
    if coord.x > 1 {
        neighbors.push(Coord::new(coord.x - 1, coord.y, coord.z));
    }
    if coord.x < size.x {
        neighbors.push(Coord::new(coord.x + 1, coord.y, coord.z));
    }
    if coord.y > 1 {
        neighbors.push(Coord::new(coord.x, coord.y - 1, coord.z));
    }
    if coord.y < size.y {
        neighbors.push(Coord::new(coord.x, coord.y + 1, coord.z));
    }
    proof {
        assert(neighbors@ =~= spec_cardinal_neighbors(coord, size));
    }
    neighbors
}

/// Two tiles of the same level that share an edge.
pub open spec fn adjacent(a: Coord, b: Coord) -> bool {
    &&& a.z == b.z
    &&& ((a.x == b.x && (a.y + 1 == b.y || b.y + 1 == a.y)) || (a.y == b.y && (a.x + 1 == b.x
        || b.x + 1 == a.x)))
}

/// The tiles of one level of a map that a fill may spread to: one flag per tile, row by row
/// from the south-west corner.
pub struct FillGrid {
    pub size: Size,
    pub level: u32,
    pub open: Vec<bool>,
}

impl FillGrid {
    pub open spec fn well_formed(&self) -> bool {
        &&& self.size.x as int * self.size.y as int <= usize::MAX
        &&& self.open@.len() == self.size.x as int * self.size.y as int
    }

    /// `coord` is a tile of this grid's level on the map.
    pub open spec fn on_level(&self, coord: Coord) -> bool {
        &&& 1 <= coord.x <= self.size.x
        &&& 1 <= coord.y <= self.size.y
        &&& coord.z == self.level
    }

    pub open spec fn index_of(&self, coord: Coord) -> int {
        (coord.y - 1) * self.size.x + (coord.x - 1)
    }

    /// A fill may enter `coord`.
    pub open spec fn is_open(&self, coord: Coord) -> bool {
        self.on_level(coord) && self.open@[self.index_of(coord)]
    }

    /// `path` walks from tile to neighbouring tile through open tiles only.
    pub open spec fn is_path(&self, path: Seq<Coord>) -> bool {
        &&& path.len() > 0
        &&& forall|k: int| 0 <= k < path.len() ==> self.is_open(#[trigger] path[k])
        &&& forall|k: int| 0 <= k < path.len() - 1 ==> adjacent(#[trigger] path[k], path[k + 1])
    }

    /// A fill started at `seed` reaches `coord`.
    pub open spec fn reaches(&self, seed: Coord, coord: Coord) -> bool {
        exists|path: Seq<Coord>| #[trigger]
            self.is_path(path) && path[0] == seed && path.last() == coord
    }
}

proof fn lemma_index_bounds(grid: &FillGrid, coord: Coord)
    requires
        grid.well_formed(),
        grid.on_level(coord),
    ensures
        0 <= grid.index_of(coord) < grid.size.x as int * grid.size.y as int,
{
    let sx = grid.size.x as int;
    let sy = grid.size.y as int;
    let y = coord.y - 1;
    let x = coord.x - 1;
    assert(0 <= y * sx + x < sx * sy) by (nonlinear_arith)
        requires
            0 <= x < sx,
            0 <= y < sy,
    ;
}

proof fn lemma_index_injective(grid: &FillGrid, a: Coord, b: Coord)
    requires
        grid.on_level(a),
        grid.on_level(b),
        grid.index_of(a) == grid.index_of(b),
    ensures
        a == b,
{
    let sx = grid.size.x as int;
    let ya = a.y - 1;
    let yb = b.y - 1;
    let xa = a.x - 1;
    let xb = b.x - 1;
    assert(ya == yb && xa == xb) by (nonlinear_arith)
        requires
            0 <= xa < sx,
            0 <= xb < sx,
            0 <= ya,
            0 <= yb,
            ya * sx + xa == yb * sx + xb,
    {
        if ya < yb {
            assert(yb * sx >= (ya + 1) * sx);
        } else if yb < ya {
            assert(ya * sx >= (yb + 1) * sx);
        }
    }
}

fn grid_index(grid: &FillGrid, coord: Coord) -> (index: usize)
    requires
        grid.well_formed(),
        grid.on_level(coord),
    ensures
        index as int == grid.index_of(coord),
        index < grid.open@.len(),
{
    proof {
        lemma_index_bounds(grid, coord);
    }
    (coord.y - 1) as usize * grid.size.x as usize + (coord.x - 1) as usize
}

proof fn lemma_neighbors_adjacent(grid: &FillGrid, coord: Coord)
    requires
        grid.on_level(coord),
    ensures
        forall|k: int|
            0 <= k < spec_cardinal_neighbors(coord, grid.size).len() ==> {
                let n = #[trigger] spec_cardinal_neighbors(coord, grid.size)[k];
                &&& adjacent(coord, n)
                &&& grid.on_level(n)
            },
        forall|n: Coord|
            grid.on_level(n) && adjacent(coord, n) ==> spec_cardinal_neighbors(
                coord,
                grid.size,
            ).contains(n),
{
    let s = spec_cardinal_neighbors(coord, grid.size);
    assert forall|n: Coord| grid.on_level(n) && adjacent(coord, n) implies s.contains(n) by {
        let west = Coord { x: (coord.x - 1) as u32, y: coord.y, z: coord.z };
        let east = Coord { x: (coord.x + 1) as u32, y: coord.y, z: coord.z };
        let south = Coord { x: coord.x, y: (coord.y - 1) as u32, z: coord.z };
        let north = Coord { x: coord.x, y: (coord.y + 1) as u32, z: coord.z };
        let w = if coord.x > 1 { seq![west] } else { seq![] };
        let e = if coord.x < grid.size.x { seq![east] } else { seq![] };
        let so = if coord.y > 1 { seq![south] } else { seq![] };
        let no = if coord.y < grid.size.y { seq![north] } else { seq![] };
        assert(s == w + e + so + no);
        if n == west {
            assert(s[0] == n);
        } else if n == east {
            assert(s[w.len() as int] == n);
        } else if n == south {
            assert(s[(w.len() + e.len()) as int] == n);
        } else {
            assert(n == north);
            assert(s[(w.len() + e.len() + so.len()) as int] == n);
        }
    }
}

/// How many flags of `flags` are set.
pub open spec fn count_set(flags: Seq<bool>) -> nat
    decreases flags.len(),
{
    if flags.len() == 0 {
        0
    } else {
        count_set(flags.drop_last()) + if flags.last() {
            1nat
        } else {
            0nat
        }
    }
}

proof fn lemma_count_set_bound(flags: Seq<bool>)
    ensures
        count_set(flags) <= flags.len(),
    decreases flags.len(),
{
    if flags.len() > 0 {
        lemma_count_set_bound(flags.drop_last());
    }
}

proof fn lemma_count_set_update(flags: Seq<bool>, i: int)
    requires
        0 <= i < flags.len(),
        !flags[i],
    ensures
        count_set(flags.update(i, true)) == count_set(flags) + 1,
    decreases flags.len(),
{
    let updated = flags.update(i, true);
    if i == flags.len() - 1 {
        assert(updated.drop_last() =~= flags.drop_last());
    } else {
        lemma_count_set_update(flags.drop_last(), i);
        assert(updated.drop_last() =~= flags.drop_last().update(i, true));
    }
}

proof fn lemma_count_set_none(flags: Seq<bool>)
    requires
        forall|m: int| 0 <= m < flags.len() ==> !flags[m],
    ensures
        count_set(flags) == 0,
    decreases flags.len(),
{
    if flags.len() > 0 {
        lemma_count_set_none(flags.drop_last());
    }
}

/// The visited flags mark exactly the queued tiles, which are distinct tiles of the level.
pub open spec fn tracks(grid: &FillGrid, visited: Seq<bool>, queue: Seq<Coord>) -> bool {
    &&& visited.len() == grid.open@.len()
    &&& count_set(visited) == queue.len()
    &&& forall|m: int| 0 <= m < queue.len() ==> grid.on_level(#[trigger] queue[m])
    &&& forall|c: Coord| grid.on_level(c) ==> (visited[grid.index_of(c)] <==> queue.contains(c))
    &&& queue.no_duplicates()
}

/// Queues the neighbours of `coord` that were not visited yet.
fn enqueue_neighbors(grid: &FillGrid, coord: Coord, visited: &mut Vec<bool>, queue: &mut Vec<Coord>)
    requires
        grid.well_formed(),
        grid.on_level(coord),
        tracks(grid, old(visited)@, old(queue)@),
    ensures
        tracks(grid, final(visited)@, final(queue)@),
        old(queue)@.len() <= final(queue)@.len(),
        forall|m: int| 0 <= m < old(queue)@.len() ==> final(queue)@[m] == old(queue)@[m],
        forall|m: int|
            old(queue)@.len() <= m < final(queue)@.len() ==> adjacent(coord, #[trigger] final(queue)@[m]),
        forall|c: Coord| grid.on_level(c) && adjacent(coord, c) ==> final(queue)@.contains(c),
{
    let neighbors = cardinal_neighbors(coord, grid.size);
    proof {
        lemma_neighbors_adjacent(grid, coord);
    }
    let ghost old_queue = queue@;
    let mut j: usize = 0;
    while j < neighbors.len()
        invariant
            grid.well_formed(),
            grid.on_level(coord),
            neighbors@ == spec_cardinal_neighbors(coord, grid.size),
            forall|k: int|
                0 <= k < neighbors@.len() ==> adjacent(coord, #[trigger] neighbors@[k])
                    && grid.on_level(neighbors@[k]),
            forall|c: Coord| grid.on_level(c) && adjacent(coord, c) ==> neighbors@.contains(c),
            j <= neighbors@.len(),
            tracks(grid, visited@, queue@),
            old_queue.len() <= queue@.len(),
            forall|m: int| 0 <= m < old_queue.len() ==> queue@[m] == old_queue[m],
            forall|m: int|
                old_queue.len() <= m < queue@.len() ==> adjacent(coord, #[trigger] queue@[m]),
            forall|k: int| 0 <= k < j ==> queue@.contains(#[trigger] neighbors@[k]),
        decreases neighbors.len() - j,
    {
        let neighbor = neighbors[j];
        let neighbor_index = grid_index(grid, neighbor);
        if !visited[neighbor_index] {
            let ghost before = queue@;
            proof {
                lemma_count_set_update(visited@, neighbor_index as int);
            }
            visited.set(neighbor_index, true);
            queue.push(neighbor);
            proof {
                assert forall|c: Coord| grid.on_level(c) implies (visited@[grid.index_of(c)]
                    <==> queue@.contains(c)) by {
                    lemma_index_bounds(grid, c);
                    if c == neighbor {
                        assert(queue@[queue@.len() - 1] == c);
                    } else {
                        if grid.index_of(c) == neighbor_index as int {
                            lemma_index_injective(grid, c, neighbor);
                        }
                        if queue@.contains(c) {
                            let m = choose|m: int| 0 <= m < queue@.len() && queue@[m] == c;
                            assert(before[m] == c);
                        }
                        if before.contains(c) {
                            let m = choose|m: int| 0 <= m < before.len() && before[m] == c;
                            assert(queue@[m] == c);
                        }
                    }
                }
                assert(!before.contains(neighbor));
                assert forall|a: int, b: int|
                    0 <= a < b < queue@.len() implies queue@[a] != queue@[b] by {
                    if b == queue@.len() - 1 {
                        assert(before[a] == queue@[a]);
                    } else {
                        assert(before[a] == queue@[a] && before[b] == queue@[b]);
                    }
                }
                assert forall|k: int| 0 <= k < j + 1 implies queue@.contains(
                    #[trigger] neighbors@[k],
                ) by {
                    if k < j {
                        let m = choose|m: int| 0 <= m < before.len() && before[m] == neighbors@[k];
                        assert(queue@[m] == neighbors@[k]);
                    } else {
                        assert(queue@[queue@.len() - 1] == neighbors@[k]);
                    }
                }
            }
        } else {
            proof {
                lemma_index_bounds(grid, neighbor);
            }
        }
        j = j + 1;
    }
    proof {
        assert forall|c: Coord| grid.on_level(c) && adjacent(coord, c) implies queue@.contains(c) by {
            let k = choose|k: int| 0 <= k < neighbors@.len() && neighbors@[k] == c;
        }
    }
}

/// The state of a breadth-first fill after `head` queued tiles were taken: the processed open
/// tiles form the region, whose neighbours are all queued, every queued tile is the seed or
/// neighbours the region, and the seed reaches every region tile.
pub open spec fn fill_progress(
    grid: &FillGrid,
    seed: Coord,
    queue: Seq<Coord>,
    head: int,
    region: Seq<Coord>,
) -> bool {
    &&& 0 <= head <= queue.len()
    &&& queue.len() > 0
    &&& queue[0] == seed
    &&& forall|m: int| 0 <= m < head && grid.is_open(#[trigger] queue[m]) ==> region.contains(queue[m])
    &&& forall|c: Coord|
        region.contains(c) ==> grid.is_open(c) && exists|m: int| 0 <= m < head && queue[m] == c
    &&& region.no_duplicates()
    &&& region.len() > 0 ==> region[0] == seed
    &&& forall|r: Coord, c: Coord|
        region.contains(r) && grid.on_level(c) && adjacent(r, c) ==> queue.contains(c)
    &&& forall|m: int|
        0 <= m < queue.len() ==> (#[trigger] queue[m] == seed || exists|r: Coord|
            region.contains(r) && adjacent(r, queue[m]))
    &&& forall|c: Coord| region.contains(c) ==> grid.reaches(seed, c)
}

/// Taking a closed tile from the queue only moves the head.
proof fn lemma_progress_skip(
    grid: &FillGrid,
    seed: Coord,
    queue: Seq<Coord>,
    head: int,
    region: Seq<Coord>,
)
    requires
        fill_progress(grid, seed, queue, head, region),
        head < queue.len(),
        !grid.is_open(queue[head]),
    ensures
        fill_progress(grid, seed, queue, head + 1, region),
{
    assert forall|c: Coord| region.contains(c) implies grid.is_open(c) && exists|m: int|
        0 <= m < head + 1 && queue[m] == c by {
        let m = choose|m: int| 0 <= m < head && queue[m] == c;
    }
}

/// Taking an open tile from the queue adds it to the region, and is then followed by queueing
/// its neighbours.
#[verifier::rlimit(100)]
#[verifier::spinoff_prover]
proof fn lemma_progress_take(
    grid: &FillGrid,
    seed: Coord,
    queue: Seq<Coord>,
    head: int,
    region: Seq<Coord>,
    new_queue: Seq<Coord>,
)
    requires
        fill_progress(grid, seed, queue, head, region),
        queue.no_duplicates(),
        head < queue.len(),
        grid.is_open(queue[head]),
        queue.len() <= new_queue.len(),
        forall|m: int| 0 <= m < queue.len() ==> new_queue[m] == queue[m],
        forall|m: int|
            queue.len() <= m < new_queue.len() ==> adjacent(queue[head], #[trigger] new_queue[m]),
        forall|c: Coord| grid.on_level(c) && adjacent(queue[head], c) ==> new_queue.contains(c),
    ensures
        fill_progress(grid, seed, new_queue, head + 1, region.push(queue[head])),
{
    let coord = queue[head];
    let grown = region.push(coord);
    // the tile is reached: it is the seed, or it neighbours a reached region tile
    if coord == seed {
        let path = seq![seed];
        assert(grid.is_path(path));
        assert(path.last() == seed);
    } else {
        let r = choose|r: Coord| region.contains(r) && adjacent(r, coord);
        let path = choose|path: Seq<Coord>| #[trigger]
            grid.is_path(path) && path[0] == seed && path.last() == r;
        let longer = path.push(coord);
        assert(longer[longer.len() - 2] == r);
        assert(grid.is_path(longer));
        assert(longer[0] == seed);
        assert(longer.last() == coord);
    }
    assert(!region.contains(coord)) by {
        if region.contains(coord) {
            let m = choose|m: int| 0 <= m < head && queue[m] == coord;
        }
    }
    assert forall|m: int| 0 <= m < head + 1 && grid.is_open(#[trigger] new_queue[m]) implies grown.contains(new_queue[m]) by {
        assert(new_queue[m] == queue[m]);
        if m < head {
            let k = choose|k: int| 0 <= k < region.len() && region[k] == queue[m];
            assert(grown[k] == queue[m]);
        } else {
            assert(grown[region.len() as int] == coord);
        }
    }
    assert forall|c: Coord| grown.contains(c) implies grid.is_open(c) && exists|m: int|
        0 <= m < head + 1 && new_queue[m] == c by {
        let k = choose|k: int| 0 <= k < grown.len() && grown[k] == c;
        if k == region.len() {
            assert(new_queue[head] == c);
        } else {
            assert(region[k] == c);
            assert(region.contains(c));
            let m = choose|m: int| 0 <= m < head && queue[m] == c;
            assert(new_queue[m] == c);
        }
    }
    assert(grown.no_duplicates()) by {
        assert forall|a: int, b: int| 0 <= a < b < grown.len() implies grown[a] != grown[b] by {
            if b == region.len() {
                assert(region[a] == grown[a]);
                assert(region.contains(grown[a]));
            }
        }
    }
    assert(grown.len() > 0 ==> grown[0] == seed) by {
        if region.len() == 0 && coord != seed {
            let r = choose|r: Coord| region.contains(r) && adjacent(r, queue[head]);
        }
    }
    assert forall|r: Coord, c: Coord| grown.contains(r) && grid.on_level(c) && adjacent(r, c) implies new_queue.contains(c) by {
        let k = choose|k: int| 0 <= k < grown.len() && grown[k] == r;
        if k < region.len() {
            assert(region[k] == r);
            assert(region.contains(r));
            assert(queue.contains(c));
            let m = choose|m: int| 0 <= m < queue.len() && queue[m] == c;
            assert(new_queue[m] == c);
        }
    }
    assert forall|m: int| 0 <= m < new_queue.len() implies (#[trigger] new_queue[m] == seed || exists|r: Coord|
        grown.contains(r) && adjacent(r, new_queue[m])) by {
        if m < queue.len() {
            assert(new_queue[m] == queue[m]);
            if queue[m] != seed {
                let r = choose|r: Coord| region.contains(r) && adjacent(r, queue[m]);
                let k = choose|k: int| 0 <= k < region.len() && region[k] == r;
                assert(grown[k] == r);
            }
        } else {
            assert(grown[region.len() as int] == coord);
            assert(adjacent(coord, new_queue[m]));
        }
    }
    assert forall|c: Coord| grown.contains(c) implies grid.reaches(seed, c) by {
        let k = choose|k: int| 0 <= k < grown.len() && grown[k] == c;
        if k < region.len() {
            assert(region[k] == c);
            assert(region.contains(c));
        }
    }
    assert(new_queue[0] == seed);
}

/// The tiles a fill started at `seed` spreads to, in breadth-first order: every open tile that a
/// walk through open neighbouring tiles reaches from the seed, nothing else, each once, the seed
/// first. A seed the fill may not enter gives no tiles.
pub fn flood_region(grid: &FillGrid, seed: Coord) -> (region: Vec<Coord>)
    requires
        grid.well_formed(),
        grid.on_level(seed),
    ensures
        forall|c: Coord| region@.contains(c) <==> grid.reaches(seed, c),
        region@.no_duplicates(),
        region@.len() > 0 ==> region@[0] == seed,
{
    let n = grid.open.len();
    let mut visited: Vec<bool> = Vec::new();
    let mut k: usize = 0;
    while k < n
        invariant
            n == grid.open@.len(),
            k <= n,
            visited@.len() == k,
            forall|m: int| 0 <= m < k ==> !visited@[m],
        decreases n - k,
    {
        visited.push(false);
        k = k + 1;
    }
    let mut queue: Vec<Coord> = Vec::new();
    let mut region: Vec<Coord> = Vec::new();
    let seed_index = grid_index(grid, seed);
    proof {
        lemma_count_set_none(visited@);
        lemma_count_set_update(visited@, seed_index as int);
    }
    visited.set(seed_index, true);
    queue.push(seed);
    proof {
        assert forall|c: Coord| grid.on_level(c) implies (visited@[grid.index_of(c)]
            <==> queue@.contains(c)) by {
            lemma_index_bounds(grid, c);
            if visited@[grid.index_of(c)] {
                if c != seed {
                    lemma_index_injective(grid, c, seed);
                }
                assert(queue@[0] == c);
            }
        }
        assert(fill_progress(grid, seed, queue@, 0, region@));
    }
    let mut head: usize = 0;
    while head < queue.len()
        invariant
            grid.well_formed(),
            grid.on_level(seed),
            tracks(grid, visited@, queue@),
            fill_progress(grid, seed, queue@, head as int, region@),
        decreases 2 * grid.open@.len() - queue@.len() - head,
    {
        proof {
            lemma_count_set_bound(visited@);
        }
        let coord = queue[head];
        let index = grid_index(grid, coord);
        if grid.open[index] {
            let ghost old_queue = queue@;
            let ghost old_region = region@;
            enqueue_neighbors(grid, coord, &mut visited, &mut queue);
            region.push(coord);
            proof {
                lemma_progress_take(grid, seed, old_queue, head as int, old_region, queue@);
            }
        } else {
            proof {
                lemma_progress_skip(grid, seed, queue@, head as int, region@);
            }
        }
        proof {
            lemma_count_set_bound(visited@);
        }
        head = head + 1;
    }
    proof {
        assert forall|c: Coord| grid.reaches(seed, c) implies region@.contains(c) by {
            let path = choose|path: Seq<Coord>| #[trigger]
                grid.is_path(path) && path[0] == seed && path.last() == c;
            assert(queue@.contains(seed)) by {
                assert(queue@[0] == seed);
            }
            lemma_path_in_region(grid, seed, path, queue@, region@);
        }
    }
    region
}

/// Once every queued open tile is in the region and the neighbours of region tiles are queued,
/// every walk from the seed through open tiles stays in the region.
proof fn lemma_path_in_region(
    grid: &FillGrid,
    seed: Coord,
    path: Seq<Coord>,
    queue: Seq<Coord>,
    region: Seq<Coord>,
)
    requires
        grid.is_path(path),
        path[0] == seed,
        queue.contains(seed),
        forall|m: int| 0 <= m < queue.len() && grid.is_open(#[trigger] queue[m]) ==> region.contains(queue[m]),
        forall|r: Coord, c: Coord| region.contains(r) && grid.on_level(c) && adjacent(r, c) ==> queue.contains(c),
    ensures
        region.contains(path.last()),
    decreases path.len(),
{
    if path.len() == 1 {
        let m = choose|m: int| 0 <= m < queue.len() && queue[m] == seed;
        assert(grid.is_open(path[0]));
    } else {
        let front = path.drop_last();
        assert(grid.is_path(front)) by {
            assert forall|k: int| 0 <= k < front.len() implies grid.is_open(#[trigger] front[k]) by {
                assert(front[k] == path[k]);
            }
            assert forall|k: int| 0 <= k < front.len() - 1 implies adjacent(#[trigger] front[k], front[k + 1]) by {
                assert(front[k] == path[k] && front[k + 1] == path[k + 1]);
            }
        }
        lemma_path_in_region(grid, seed, front, queue, region);
        let r = front.last();
        let c = path.last();
        assert(r == path[path.len() - 2]);
        assert(adjacent(r, c));
        assert(grid.is_open(c));
        assert(queue.contains(c));
        let m = choose|m: int| 0 <= m < queue.len() && queue[m] == c;
    }
}

/// Refuses a fill that would change more tiles than `max_tiles`, when there is a limit.
pub fn check_fill_limit(changed: usize, max_tiles: Option<usize>) -> (checked: Result<(), FillError>)
    ensures
        checked == match max_tiles {
            Some(limit) => if changed > limit {
                Err(FillError::TooLarge { limit })
            } else {
                Ok(())
            },
            None => Ok(()),
        },
{
    match max_tiles {
        Some(limit) => {
            if changed > limit {
                Err(FillError::TooLarge { limit })
            } else {
                Ok(())
            }
        },
        None => Ok(()),
    }
}

/// Whether a fill keeps the walls of the region: an entire-area fill with a floor turf does.
pub fn preserves_walls(kind: PlacementKind, mode: FillMode, floor_turf: bool) -> (preserves: bool)
    ensures
        preserves == (kind == PlacementKind::Turf && mode == FillMode::EntireArea && floor_turf),
{
    kind == PlacementKind::Turf && mode == FillMode::EntireArea && floor_turf
}

/// Which tiles of a region a fill changes: those it would replace something on, leaving walls
/// out when it keeps them.
pub open spec fn fill_keeps(wall: bool, replaces: bool, preserve_walls: bool) -> bool {
    (!preserve_walls || !wall) && replaces
}

/// A fill changes a tile of its region exactly when it would replace something there, except
/// that a fill keeping walls never changes a wall.
pub proof fn lemma_fill_changes_what_it_replaces(wall: bool, replaces: bool, preserve_walls: bool)
    ensures
        !replaces ==> !fill_keeps(wall, replaces, preserve_walls),
        preserve_walls && wall ==> !fill_keeps(wall, replaces, preserve_walls),
        replaces && (!preserve_walls || !wall) ==> fill_keeps(wall, replaces, preserve_walls),
{
}

pub open spec fn spec_fill_targets(
    region: Seq<Coord>,
    walls: Seq<bool>,
    replaces: Seq<bool>,
    preserve_walls: bool,
) -> Seq<Coord>
    decreases region.len(),
{
    if region.len() == 0 {
        Seq::empty()
    } else {
        let k = region.len() - 1;
        let earlier = spec_fill_targets(region.drop_last(), walls, replaces, preserve_walls);
        if fill_keeps(walls[k], replaces[k], preserve_walls) {
            earlier.push(region[k])
        } else {
            earlier
        }
    }
}

/// The tiles of `region` a fill changes, in order, or the limit when there are more of them
/// than `max_tiles`: a fill over the limit changes nothing, and only tiles that would change
/// count towards it.
pub fn fill_targets(
    region: &Vec<Coord>,
    walls: &Vec<bool>,
    replaces: &Vec<bool>,
    preserve_walls: bool,
    max_tiles: Option<usize>,
) -> (targets: Result<Vec<Coord>, FillError>)
    requires
        walls@.len() == region@.len(),
        replaces@.len() == region@.len(),
    ensures
        ({
            let changed = spec_fill_targets(region@, walls@, replaces@, preserve_walls);
            match max_tiles {
                Some(limit) if changed.len() > limit => targets == Err::<Vec<Coord>, FillError>(
                    FillError::TooLarge { limit },
                ),
                _ => targets matches Ok(t) && t@ == changed,
            }
        }),
{
    let mut kept: Vec<Coord> = Vec::new();
    let mut i: usize = 0;
    while i < region.len()
        invariant
            walls@.len() == region@.len(),
            replaces@.len() == region@.len(),
            i <= region@.len(),
            kept@ == spec_fill_targets(region@.take(i as int), walls@, replaces@, preserve_walls),
        decreases region.len() - i,
    {
        proof {
            assert(region@.take(i + 1).drop_last() =~= region@.take(i as int));
        }
        if (!preserve_walls || !walls[i]) && replaces[i] {
            kept.push(region[i]);
        }
        i = i + 1;
    }
    proof {
        assert(region@.take(i as int) =~= region@);
    }
    match check_fill_limit(kept.len(), max_tiles) {
        Ok(()) => Ok(kept),
        Err(error) => Err(error),
    }
}

} // verus!

verus! {

/// The tiles a fill from `seed` changes: the tiles it reaches whose flags keep them (whether the
/// tile holds a wall, and whether the fill would replace something on it, both by tile index).
pub open spec fn fill_changes(
    grid: FillGrid,
    seed: Coord,
    walls: Seq<bool>,
    replaces: Seq<bool>,
    preserve_walls: bool,
) -> Set<Coord> {
    Set::new(
        |c: Coord|
            grid.reaches(seed, c) && fill_keeps(
                walls[grid.index_of(c)],
                replaces[grid.index_of(c)],
                preserve_walls,
            ),
    )
}

proof fn lemma_fill_targets_shape(
    region: Seq<Coord>,
    walls: Seq<bool>,
    replaces: Seq<bool>,
    preserve_walls: bool,
)
    requires
        walls.len() >= region.len(),
        replaces.len() >= region.len(),
    ensures
        forall|c: Coord|
            spec_fill_targets(region, walls, replaces, preserve_walls).contains(c) <==> exists|k: int|
                0 <= k < region.len() && region[k] == c && fill_keeps(
                    walls[k],
                    replaces[k],
                    preserve_walls,
                ),
        region.no_duplicates() ==> spec_fill_targets(region, walls, replaces, preserve_walls).no_duplicates(),
    decreases region.len(),
{
    if region.len() > 0 {
        let front = region.drop_last();
        let k = region.len() - 1;
        lemma_fill_targets_shape(front, walls, replaces, preserve_walls);
        let earlier = spec_fill_targets(front, walls, replaces, preserve_walls);
        let targets = spec_fill_targets(region, walls, replaces, preserve_walls);
        assert forall|c: Coord| targets.contains(c) <==> exists|m: int|
            0 <= m < region.len() && region[m] == c && fill_keeps(walls[m], replaces[m], preserve_walls) by {
            if targets.contains(c) {
                if fill_keeps(walls[k], replaces[k], preserve_walls) && c == region[k] {
                    assert(region[k] == c);
                } else {
                    if fill_keeps(walls[k], replaces[k], preserve_walls) {
                        let i = choose|i: int| 0 <= i < targets.len() && targets[i] == c;
                        assert(i < earlier.len());
                        assert(earlier[i] == c);
                    }
                    assert(earlier.contains(c));
                    let m = choose|m: int|
                        0 <= m < front.len() && front[m] == c && fill_keeps(walls[m], replaces[m], preserve_walls);
                    assert(region[m] == c);
                }
            }
            if exists|m: int| 0 <= m < region.len() && region[m] == c && fill_keeps(walls[m], replaces[m], preserve_walls) {
                let m = choose|m: int|
                    0 <= m < region.len() && region[m] == c && fill_keeps(walls[m], replaces[m], preserve_walls);
                if m == k {
                    assert(targets[targets.len() - 1] == c);
                } else {
                    assert(front[m] == c);
                    assert(earlier.contains(c));
                    let i = choose|i: int| 0 <= i < earlier.len() && earlier[i] == c;
                    if fill_keeps(walls[k], replaces[k], preserve_walls) {
                        assert(targets[i] == c);
                    }
                }
            }
        }
        if region.no_duplicates() {
            assert(front.no_duplicates()) by {
                assert forall|i: int, j: int| 0 <= i < front.len() && 0 <= j < front.len() && i != j implies front[i] != front[j] by {
                    assert(front[i] == region[i]);
                    assert(front[j] == region[j]);
                }
            }
            if fill_keeps(walls[k], replaces[k], preserve_walls) {
                assert(!earlier.contains(region[k])) by {
                    if earlier.contains(region[k]) {
                        let m = choose|m: int|
                            0 <= m < front.len() && front[m] == region[k] && fill_keeps(walls[m], replaces[m], preserve_walls);
                        assert(region[m] == region[k]);
                    }
                }
                assert forall|i: int, j: int| 0 <= i < targets.len() && 0 <= j < targets.len() && i != j implies targets[i] != targets[j] by {
                    if i < earlier.len() && j < earlier.len() {
                    } else if i < earlier.len() {
                        assert(earlier[i] != region[k]);
                    } else if j < earlier.len() {
                        assert(earlier[j] != region[k]);
                    }
                }
            }
        }
    }
}

/// The tiles a fill started at `seed` changes, or the limit when there are more of them than
/// `max_tiles`: a fill over the limit changes nothing, only tiles that would change count towards
/// it, and under the limit the fill changes the same tiles as without one. `grid` holds the tiles
/// the fill may spread through; `walls` and `replaces` flag each tile of the level by index.
pub fn fill_plan(
    grid: &FillGrid,
    seed: Coord,
    walls: &Vec<bool>,
    replaces: &Vec<bool>,
    preserve_walls: bool,
    max_tiles: Option<usize>,
) -> (plan: Result<Vec<Coord>, FillError>)
    requires
        grid.well_formed(),
        grid.on_level(seed),
        walls@.len() == grid.open@.len(),
        replaces@.len() == grid.open@.len(),
    ensures
        fill_changes(*grid, seed, walls@, replaces@, preserve_walls).finite(),
        ({
            let changed = fill_changes(*grid, seed, walls@, replaces@, preserve_walls);
            match max_tiles {
                Some(limit) if changed.len() > limit => plan == Err::<Vec<Coord>, FillError>(
                    FillError::TooLarge { limit },
                ),
                _ => plan matches Ok(t) && t@.to_set() == changed && t@.no_duplicates(),
            }
        }),
{
    let region = flood_region(grid, seed);
    let mut region_walls: Vec<bool> = Vec::new();
    let mut region_replaces: Vec<bool> = Vec::new();
    let mut k: usize = 0;
    while k < region.len()
        invariant
            grid.well_formed(),
            walls@.len() == grid.open@.len(),
            replaces@.len() == grid.open@.len(),
            forall|c: Coord| region@.contains(c) <==> grid.reaches(seed, c),
            k <= region@.len(),
            region_walls@.len() == k,
            region_replaces@.len() == k,
            forall|m: int| 0 <= m < k ==> region_walls@[m] == walls@[grid.index_of(#[trigger] region@[m])],
            forall|m: int| 0 <= m < k ==> region_replaces@[m] == replaces@[grid.index_of(#[trigger] region@[m])],
        decreases region.len() - k,
    {
        let c = region[k];
        proof {
            assert(region@.contains(c));
            let path = choose|path: Seq<Coord>| #[trigger] grid.is_path(path) && path[0] == seed && path.last() == c;
            assert(grid.is_open(path[path.len() - 1]));
        }
        let index = grid_index(grid, c);
        region_walls.push(walls[index]);
        region_replaces.push(replaces[index]);
        k = k + 1;
    }
    let ghost targets = spec_fill_targets(region@, region_walls@, region_replaces@, preserve_walls);
    let ghost changed = fill_changes(*grid, seed, walls@, replaces@, preserve_walls);
    proof {
        lemma_fill_targets_shape(region@, region_walls@, region_replaces@, preserve_walls);
        assert forall|c: Coord| #[trigger] changed.contains(c) <==> targets.contains(c) by {
            if changed.contains(c) {
                assert(region@.contains(c));
                let m = choose|m: int| 0 <= m < region@.len() && region@[m] == c;
                assert(region_walls@[m] == walls@[grid.index_of(region@[m])]);
                assert(region_replaces@[m] == replaces@[grid.index_of(region@[m])]);
            }
            if targets.contains(c) {
                let m = choose|m: int|
                    0 <= m < region@.len() && region@[m] == c && fill_keeps(
                        region_walls@[m],
                        region_replaces@[m],
                        preserve_walls,
                    );
                assert(region@.contains(c));
                assert(region_walls@[m] == walls@[grid.index_of(region@[m])]);
                assert(region_replaces@[m] == replaces@[grid.index_of(region@[m])]);
            }
        }
        assert(changed =~= targets.to_set());
        targets.unique_seq_to_set();
    }
    fill_targets(&region, &region_walls, &region_replaces, preserve_walls, max_tiles)
}

/// What the fill reads of a tile of the seed's level.
#[derive(Debug, Clone, Copy, PartialEq, Eq)]
pub struct FillTile {
    /// The tile may be edited.
    pub editable: bool,
    /// The tile holds one of the types that bound the fill: a wall for a wall fill, one of the
    /// custom boundaries for a custom fill.
    pub boundary: bool,
    /// The area on the tile, by an id that two tiles share exactly when they hold the same area.
    pub area: Option<u64>,
    /// The tile holds a wall.
    pub wall: bool,
    /// Placing the fill's prefab would replace something on the tile.
    pub replaces: bool,
}

/// Whether a fill in `mode` may spread onto the tile `c` holding `tile`, started from a tile
/// holding `seed_tile`: the tile must be editable and inside the mask, if any; a wall or custom
/// fill stops at its boundary types (and spreads nowhere when none of them is known), an
/// entire-area fill stays on the area of the seed (and spreads nowhere from a tile with none).
pub open spec fn fill_may_enter(
    mode: FillMode,
    tile: FillTile,
    seed_tile: Option<FillTile>,
    mask: Option<SelectionMask>,
    boundaries_known: bool,
    c: Coord,
) -> bool {
    let base = tile.editable && match mask {
        None => true,
        Some(m) => spec_includes(m.mode, m.bounds, c),
    };
    match mode {
        FillMode::Wall | FillMode::Custom => boundaries_known && base && !tile.boundary,
        FillMode::EntireArea => base && (seed_tile matches Some(s) && s.area is Some && tile.area
            == s.area),
    }
}

/// Where a fill may spread: only onto editable tiles, only inside the selection mask when there
/// is one (in every fill mode), never onto a boundary of a wall or custom fill, and for an
/// entire-area fill only onto tiles of the seed's own area.
pub proof fn lemma_fill_stays_inside(
    mode: FillMode,
    tile: FillTile,
    seed_tile: Option<FillTile>,
    mask: Option<SelectionMask>,
    boundaries_known: bool,
    c: Coord,
)
    requires
        fill_may_enter(mode, tile, seed_tile, mask, boundaries_known, c),
    ensures
        tile.editable,
        mask matches Some(m) ==> spec_includes(m.mode, m.bounds, c),
        mode != FillMode::EntireArea ==> boundaries_known && !tile.boundary,
        mode == FillMode::EntireArea ==> (seed_tile matches Some(s) && tile.area is Some && tile.area
            == s.area),
{
}

/// A fill spreads onto every editable tile inside the mask (if any) that its mode allows: for a
/// wall or custom fill with a known boundary, any tile that is not a boundary; for an
/// entire-area fill, any tile of the seed's area.
pub proof fn lemma_fill_enters_every_allowed_tile(
    mode: FillMode,
    tile: FillTile,
    seed_tile: Option<FillTile>,
    mask: Option<SelectionMask>,
    boundaries_known: bool,
    c: Coord,
)
    requires
        tile.editable,
        mask matches Some(m) ==> spec_includes(m.mode, m.bounds, c),
        mode != FillMode::EntireArea ==> boundaries_known && !tile.boundary,
        mode == FillMode::EntireArea ==> (seed_tile matches Some(s) && tile.area is Some && tile.area
            == s.area),
    ensures
        fill_may_enter(mode, tile, seed_tile, mask, boundaries_known, c),
{
}

/// The tile of `tiles` at `c`, when `c` is on the `size` map's level.
pub open spec fn tile_at(size: Size, tiles: Seq<FillTile>, c: Coord) -> Option<FillTile> {
    if 1 <= c.x <= size.x && 1 <= c.y <= size.y {
        Some(tiles[(c.y - 1) * size.x + (c.x - 1)])
    } else {
        None
    }
}

/// `c` is a tile of the level `level` of a `size` map.
pub open spec fn on_level_of(size: Size, level: u32, c: Coord) -> bool {
    1 <= c.x <= size.x && 1 <= c.y <= size.y && c.z == level
}

/// The index of the tile `c` in a level listed row by row from the south-west corner.
pub open spec fn level_index(size: Size, c: Coord) -> int {
    (c.y - 1) * size.x + (c.x - 1)
}

proof fn lemma_rows_le(a: int, b: int, s: int)
    requires
        a <= b,
        0 <= s,
    ensures
        a * s <= b * s,
{
    assert(a * s <= b * s) by (nonlinear_arith)
        requires
            a <= b,
            0 <= s,
    ;
}

proof fn lemma_row_step(a: int, b: int, s: int)
    requires
        0 <= a < b,
        0 <= s,
    ensures
        a * s + s <= b * s,
{
    assert(a * s + s <= b * s) by (nonlinear_arith)
        requires
            0 <= a < b,
            0 <= s,
    ;
}

/// The tiles of the seed's level a fill may spread onto, one flag per tile as `tiles` lists them
/// (row by row from the south-west corner).
pub fn fill_grid(
    size: Size,
    seed: Coord,
    mode: FillMode,
    tiles: &Vec<FillTile>,
    mask: Option<SelectionMask>,
    boundaries_known: bool,
) -> (grid: FillGrid)
    requires
        size.x as int * size.y as int <= usize::MAX,
        tiles@.len() == size.x as int * size.y as int,
    ensures
        grid.well_formed(),
        grid.size == size,
        grid.level == seed.z,
        forall|c: Coord|
            #[trigger] grid.on_level(c) ==> grid.is_open(c) == fill_may_enter(
                mode,
                tiles@[grid.index_of(c)],
                tile_at(size, tiles@, seed),
                mask,
                boundaries_known,
                c,
            ),
        forall|c: Coord|
            #[trigger] grid.is_open(c) ==> tiles@[grid.index_of(c)].editable && match mask {
                Some(m) => spec_includes(m.mode, m.bounds, c),
                None => true,
            },
        forall|c: Coord|
            #[trigger] grid.is_open(c) ==> (mode != FillMode::EntireArea ==> boundaries_known
                && !tiles@[grid.index_of(c)].boundary) && (mode == FillMode::EntireArea ==> (tile_at(
                size,
                tiles@,
                seed,
            ) matches Some(s) && s.area is Some && tiles@[grid.index_of(c)].area == s.area)),
        forall|c: Coord|
            #[trigger] grid.on_level(c) && tiles@[grid.index_of(c)].editable && (mask matches Some(m)
                ==> spec_includes(m.mode, m.bounds, c)) && (mode != FillMode::EntireArea
                ==> boundaries_known && !tiles@[grid.index_of(c)].boundary) && (mode
                == FillMode::EntireArea ==> (tile_at(size, tiles@, seed) matches Some(s) && s.area is Some
                && tiles@[grid.index_of(c)].area == s.area)) ==> grid.is_open(c),
{
    let seed_tile = if 1 <= seed.x && seed.x <= size.x && 1 <= seed.y && seed.y <= size.y {
        proof {
            let sx = size.x as int;
            let sy = size.y as int;
            let y = seed.y - 1;
            let x = seed.x - 1;
            assert(0 <= y * sx + x < sx * sy) by (nonlinear_arith)
                requires
                    0 <= x < sx,
                    0 <= y < sy,
            ;
        }
        Some(tiles[(seed.y - 1) as usize * size.x as usize + (seed.x - 1) as usize])
    } else {
        None
    };
    let n = tiles.len();
    let ghost sx = size.x as int;
    let mut open: Vec<bool> = Vec::new();
    let mut x: u64 = 1;
    let mut y: u64 = 1;
    let mut k: usize = 0;
    proof {
        assert(n == sx * size.y as int);
        if sx == 0 {
            assert(n == 0) by (nonlinear_arith)
                requires
                    n == sx * size.y as int,
                    sx == 0,
            ;
        }
    }
    while k < n
        invariant
            n == tiles@.len(),
            n == size.x as int * size.y as int,
            seed_tile == tile_at(size, tiles@, seed),
            sx == size.x as int,
            open@.len() == k,
            k <= n,
            1 <= x <= size.x || (k == n && x == 1),
            1 <= y,
            k == (y - 1) * sx + (x - 1),
            forall|c: Coord|
                #![trigger level_index(size, c)]
                on_level_of(size, seed.z, c) && (c.y < y || (c.y == y && c.x < x)) ==> level_index(size, c) < k
                    && open@[level_index(size, c)] == fill_may_enter(
                    mode,
                    tiles@[level_index(size, c)],
                    seed_tile,
                    mask,
                    boundaries_known,
                    c,
                ),
        decreases n - k,
    {
        proof {
            assert(n == size.y as int * sx) by (nonlinear_arith)
                requires
                    n == sx * size.y as int,
            ;
            if y > size.y {
                lemma_rows_le(size.y as int, (y - 1) as int, sx);
            }
        }
        let c = Coord { x: x as u32, y: y as u32, z: seed.z };
        let tile = tiles[k];
        let inside = match mask {
            None => true,
            Some(m) => m.includes(c),
        };
        let enter = match mode {
            FillMode::Wall | FillMode::Custom => boundaries_known && tile.editable && inside && !tile.boundary,
            FillMode::EntireArea => tile.editable && inside && match seed_tile {
                Some(s) => match (s.area, tile.area) {
                    (Some(a), Some(b)) => a == b,
                    _ => false,
                },
                None => false,
            },
        };
        open.push(enter);
        proof {
            assert(level_index(size, c) == k);
            assert forall|d: Coord|
                #![trigger level_index(size, d)]
                on_level_of(size, seed.z, d) && (d.y < y || (d.y == y && d.x < x + 1)) implies level_index(size, d) < k + 1
                    && open@[level_index(size, d)] == fill_may_enter(
                    mode,
                    tiles@[level_index(size, d)],
                    seed_tile,
                    mask,
                    boundaries_known,
                    d,
                ) by {
                if d.y < y {
                    lemma_row_step((d.y - 1) as int, (y - 1) as int, sx);
                    assert(level_index(size, d) < k);
                } else if d.x < x {
                } else {
                    assert(d == c);
                }
            }
        }
        k = k + 1;
        if x < size.x as u64 {
            x = x + 1;
        } else {
            proof {
                assert(k == y * sx) by (nonlinear_arith)
                    requires
                        k == (y - 1) * sx + (x - 1) + 1,
                        x == sx,
                ;
            }
            x = 1;
            y = y + 1;
            proof {
                assert forall|d: Coord|
                    #![trigger level_index(size, d)]
                    on_level_of(size, seed.z, d) && (d.y < y || (d.y == y && d.x < x)) implies level_index(size, d) < k
                        && open@[level_index(size, d)] == fill_may_enter(
                        mode,
                        tiles@[level_index(size, d)],
                        seed_tile,
                        mask,
                        boundaries_known,
                        d,
                    ) by {
                    assert(d.y < y);
                    assert(d.y < y - 1 || (d.y == y - 1 && d.x < sx + 1));
                }
            }
        }
    }
    proof {
        assert(n == size.y as int * sx) by (nonlinear_arith)
            requires
                n == sx * size.y as int,
        ;
        if sx > 0 && y <= size.y {
            if x == 1 && k == n {
                lemma_row_step((y - 1) as int, size.y as int, sx);
            } else {
                lemma_rows_le(y as int, size.y as int, sx);
                assert(y * sx == (y - 1) * sx + sx) by (nonlinear_arith);
            }
        }
    }
    let grid = FillGrid { size, level: seed.z, open };
    proof {
        assert forall|c: Coord| #[trigger] grid.on_level(c) implies grid.is_open(c) == fill_may_enter(
            mode,
            tiles@[grid.index_of(c)],
            tile_at(size, tiles@, seed),
            mask,
            boundaries_known,
            c,
        ) by {
            assert(level_index(size, c) == grid.index_of(c));
            assert(on_level_of(size, seed.z, c));
            assert(c.y < y);
        }
        assert forall|c: Coord| #[trigger] grid.is_open(c) implies tiles@[grid.index_of(c)].editable
            && match mask {
            Some(m) => spec_includes(m.mode, m.bounds, c),
            None => true,
        } by {
            assert(grid.on_level(c));
            assert(level_index(size, c) == grid.index_of(c));
            assert(on_level_of(size, seed.z, c));
            lemma_fill_stays_inside(mode, tiles@[grid.index_of(c)], seed_tile, mask, boundaries_known, c);
        }
        assert forall|c: Coord| #[trigger] grid.is_open(c) implies (mode != FillMode::EntireArea ==> boundaries_known
            && !tiles@[grid.index_of(c)].boundary) && (mode == FillMode::EntireArea ==> (tile_at(
            size,
            tiles@,
            seed,
        ) matches Some(s) && s.area is Some && tiles@[grid.index_of(c)].area == s.area)) by {
            assert(grid.on_level(c));
            assert(level_index(size, c) == grid.index_of(c));
            assert(on_level_of(size, seed.z, c));
            lemma_fill_stays_inside(mode, tiles@[grid.index_of(c)], seed_tile, mask, boundaries_known, c);
        }
        assert forall|c: Coord|
            #[trigger] grid.on_level(c) && tiles@[grid.index_of(c)].editable && (mask matches Some(m)
                ==> spec_includes(m.mode, m.bounds, c)) && (mode != FillMode::EntireArea
                ==> boundaries_known && !tiles@[grid.index_of(c)].boundary) && (mode
                == FillMode::EntireArea ==> (tile_at(size, tiles@, seed) matches Some(s) && s.area is Some
                && tiles@[grid.index_of(c)].area == s.area)) implies grid.is_open(c) by {
            assert(level_index(size, c) == grid.index_of(c));
            assert(on_level_of(size, seed.z, c));
            lemma_fill_enters_every_allowed_tile(mode, tiles@[grid.index_of(c)], seed_tile, mask, boundaries_known, c);
        }
    }
    grid
}

/// Whether each tile of a level holds a wall, by tile index.
pub open spec fn tile_walls(tiles: Seq<FillTile>) -> Seq<bool> {
    tiles.map_values(|t: FillTile| t.wall)
}

/// Whether the fill would replace something on each tile of a level, by tile index.
pub open spec fn tile_replaces(tiles: Seq<FillTile>) -> Seq<bool> {
    tiles.map_values(|t: FillTile| t.replaces)
}

/// A bucket fill from `seed` over the tiles of its level: the tiles it may spread onto (as
/// `fill_grid` decides them for `mode`), and the tiles it changes, or the limit when more than
/// `max_tiles` would change. A seed off the map changes nothing. Otherwise the fill changes
/// exactly the tiles it reaches from the seed through tiles it may enter and would replace
/// something on, leaving walls out when it keeps them; over the limit it changes nothing.
pub fn fill_region(
    size: Size,
    seed: Coord,
    mode: FillMode,
    tiles: &Vec<FillTile>,
    mask: Option<SelectionMask>,
    boundaries_known: bool,
    preserve_walls: bool,
    max_tiles: Option<usize>,
) -> (fill: (FillGrid, Result<Vec<Coord>, FillError>))
    requires
        size.x as int * size.y as int <= usize::MAX,
        tiles@.len() == size.x as int * size.y as int,
    ensures
        fill.0.well_formed(),
        fill.0.size == size,
        fill.0.level == seed.z,
        forall|c: Coord|
            #[trigger] fill.0.on_level(c) ==> fill.0.is_open(c) == fill_may_enter(
                mode,
                tiles@[fill.0.index_of(c)],
                tile_at(size, tiles@, seed),
                mask,
                boundaries_known,
                c,
            ),
        !fill.0.on_level(seed) ==> (fill.1 matches Ok(t) && t@.len() == 0),
        fill.0.on_level(seed) ==> ({
            let changed = fill_changes(fill.0, seed, tile_walls(tiles@), tile_replaces(tiles@), preserve_walls);
            &&& changed.finite()
            &&& match max_tiles {
                Some(limit) if changed.len() > limit => fill.1 == Err::<Vec<Coord>, FillError>(
                    FillError::TooLarge { limit },
                ),
                _ => fill.1 matches Ok(t) && t@.to_set() == changed && t@.no_duplicates(),
            }
        }),
        fill.1 matches Ok(t) ==> forall|i: int|
            0 <= i < t@.len() ==> {
                let c = #[trigger] t@[i];
                &&& fill.0.on_level(c)
                &&& tiles@[fill.0.index_of(c)].editable
                &&& tiles@[fill.0.index_of(c)].replaces
                &&& (preserve_walls ==> !tiles@[fill.0.index_of(c)].wall)
                &&& match mask {
                    Some(m) => spec_includes(m.mode, m.bounds, c),
                    None => true,
                }
            },
{
    let grid = fill_grid(size, seed, mode, tiles, mask, boundaries_known);
    if !(1 <= seed.x && seed.x <= size.x && 1 <= seed.y && seed.y <= size.y) {
        return (grid, Ok(Vec::new()));
    }
    let mut walls: Vec<bool> = Vec::new();
    let mut replaces: Vec<bool> = Vec::new();
    let mut k: usize = 0;
    while k < tiles.len()
        invariant
            k <= tiles@.len(),
            walls@ == tile_walls(tiles@).take(k as int),
            replaces@ == tile_replaces(tiles@).take(k as int),
        decreases tiles.len() - k,
    {
        walls.push(tiles[k].wall);
        replaces.push(tiles[k].replaces);
        k = k + 1;
        proof {
            assert(walls@ =~= tile_walls(tiles@).take(k as int));
            assert(replaces@ =~= tile_replaces(tiles@).take(k as int));
        }
    }
    proof {
        assert(walls@ =~= tile_walls(tiles@));
        assert(replaces@ =~= tile_replaces(tiles@));
    }
    let plan = fill_plan(&grid, seed, &walls, &replaces, preserve_walls, max_tiles);
    proof {
        if plan is Ok {
            let t = plan->Ok_0;
            let changed = fill_changes(grid, seed, walls@, replaces@, preserve_walls);
            assert forall|i: int| 0 <= i < t@.len() implies {
                let c = #[trigger] t@[i];
                &&& grid.on_level(c)
                &&& tiles@[grid.index_of(c)].editable
                &&& tiles@[grid.index_of(c)].replaces
                &&& (preserve_walls ==> !tiles@[grid.index_of(c)].wall)
                &&& match mask {
                    Some(m) => spec_includes(m.mode, m.bounds, c),
                    None => true,
                }
            } by {
                let c = t@[i];
                assert(t@.to_set().contains(c));
                assert(changed.contains(c));
                let path = choose|path: Seq<Coord>| #[trigger] grid.is_path(path) && path[0] == seed && path.last() == c;
                assert(grid.is_open(path[path.len() - 1]));
                lemma_index_bounds(&grid, c);
                assert(replaces@ == tile_replaces(tiles@));
                assert(replaces@[grid.index_of(c)] == tiles@[grid.index_of(c)].replaces);
                assert(walls@ == tile_walls(tiles@));
                assert(walls@[grid.index_of(c)] == tiles@[grid.index_of(c)].wall);
            }
        }
    }
    (grid, plan)
}

} // verus!
