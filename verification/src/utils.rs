use vstd::prelude::*;
use crate::tiling::is_grid;
use crate::types::{Tile, Tilemap};

verus! {

/// Whether `shape` counts the columns and rows that the keys of `tiles` reach: one more than
/// the largest column and the largest row among them, and `(1, 1)` where there is no key.
pub open spec fn is_shape_of(tiles: Map<(u32, u32), Tile>, shape: (int, int)) -> bool {
    &&& shape.0 >= 1
    &&& shape.1 >= 1
    &&& forall|k: (u32, u32)| #[trigger] tiles.contains_key(k) ==> k.0 < shape.0 && k.1 < shape.1
    &&& shape.0 == 1 || exists|k: (u32, u32)| #[trigger] tiles.contains_key(k) && k.0 + 1 == shape.0
    &&& shape.1 == 1 || exists|k: (u32, u32)| #[trigger] tiles.contains_key(k) && k.1 + 1 == shape.1
}

impl Tilemap {
    /// The number of columns and rows that the keys reach.
    pub open spec fn shape(&self) -> (int, int) {
        choose|shape: (int, int)| is_shape_of(self@, shape)
    }

    /// Whether the map is a dense grid of tiles of edge `t` with at least one tile.
    pub open spec fn is_grid_of(&self, t: int) -> bool {
        &&& is_grid(self@, self.shape().0, self.shape().1, t)
        &&& self.shape().0 <= u32::MAX
        &&& self.shape().1 <= u32::MAX
        &&& t > 0
    }
}

/// A map has one shape at most.
pub proof fn lemma_shape_unique(tiles: Map<(u32, u32), Tile>, a: (int, int), b: (int, int))
    requires
        is_shape_of(tiles, a),
        is_shape_of(tiles, b),
    ensures
        a == b,
{
    if a.0 != 1 {
        let k = choose|k: (u32, u32)| #[trigger] tiles.contains_key(k) && k.0 + 1 == a.0;
        assert(k.0 < b.0);
    }
    if b.0 != 1 {
        let k = choose|k: (u32, u32)| #[trigger] tiles.contains_key(k) && k.0 + 1 == b.0;
        assert(k.0 < a.0);
    }
    if a.1 != 1 {
        let k = choose|k: (u32, u32)| #[trigger] tiles.contains_key(k) && k.1 + 1 == a.1;
        assert(k.1 < b.1);
    }
    if b.1 != 1 {
        let k = choose|k: (u32, u32)| #[trigger] tiles.contains_key(k) && k.1 + 1 == b.1;
        assert(k.1 < a.1);
    }
}

/// The shape of a dense grid is its number of columns and rows.
pub proof fn lemma_grid_shape(grid: Tilemap, nx: int, ny: int, t: int)
    requires
        is_grid(grid@, nx, ny, t),
        1 <= nx <= u32::MAX,
        1 <= ny <= u32::MAX,
        t > 0,
    ensures
        is_shape_of(grid@, (nx, ny)),
        grid.shape() == (nx, ny),
        grid.is_grid_of(t),
{
    let corner = ((nx - 1) as u32, (ny - 1) as u32);
    assert(grid@.contains_key(corner));
    assert(is_shape_of(grid@, (nx, ny)));
    lemma_shape_unique(grid@, (nx, ny), grid.shape());
}

/// The number of columns and rows of a grid, found from the keys of its tiles.
pub fn get_grid_shape(grid: &Tilemap) -> (shape: (u32, u32))
    requires
        forall|k: (u32, u32)| #[trigger] grid@.contains_key(k) ==> k.0 < u32::MAX && k.1 < u32::MAX,
    ensures
        is_shape_of(grid@, (shape.0 as int, shape.1 as int)),
        grid.shape() == (shape.0 as int, shape.1 as int),
{
    let keys = grid.key_list();
    let mut x_max: u32 = 0;
    let mut y_max: u32 = 0;
    let ghost mut x_at: int = 0;
    let ghost mut y_at: int = 0;
    let mut i: usize = 0;
    while i < keys.len()
        invariant
            i <= keys.len(),
            forall|k: (u32, u32)| keys@.contains(k) <==> grid@.contains_key(k),
            forall|j: int| 0 <= j < i ==> (#[trigger] keys[j]).0 <= x_max && keys[j].1 <= y_max,
            x_max == 0 || (0 <= x_at < i && keys[x_at].0 == x_max),
            y_max == 0 || (0 <= y_at < i && keys[y_at].1 == y_max),
        decreases keys.len() - i,
    {
        let (x, y) = keys[i];
        if x > x_max {
            x_max = x;
            proof {
                x_at = i as int;
            }
        }
        if y > y_max {
            y_max = y;
            proof {
                y_at = i as int;
            }
        }
        i += 1;
    }
    proof {
        assert forall|k: (u32, u32)| #[trigger] grid@.contains_key(k) implies k.0 <= x_max && k.1
            <= y_max by {
            assert(keys@.contains(k));
            let j = choose|j: int| 0 <= j < keys@.len() && keys@[j] == k;
            assert(keys[j].0 <= x_max);
        }
        if x_max != 0 {
            assert(keys@.contains(keys[x_at]));
            assert(grid@.contains_key(keys[x_at]));
        }
        if y_max != 0 {
            assert(keys@.contains(keys[y_at]));
            assert(grid@.contains_key(keys[y_at]));
        }
        assert(is_shape_of(grid@, (x_max + 1, y_max + 1)));
        lemma_shape_unique(grid@, (x_max + 1, y_max + 1), grid.shape());
    }
    (x_max + 1, y_max + 1)
}

/// How the primitives spread over the tiles of a grid.
#[derive(Debug, PartialEq, Eq, Clone, Copy)]
pub struct TilemapStats {
    /// Number of columns and of rows.
    pub grid_size: (usize, usize),
    /// Number of tiles.
    pub num_bins: u64,
    /// Number of tiles that hold at least one primitive.
    pub num_occupied_bins: u64,
    /// Number of assignments of a primitive to a tile.
    pub num_rects_incl_duplicates: u128,
    /// The fewest primitives that an occupied tile holds; 0 where no tile is occupied.
    pub min: usize,
    /// The most primitives that a tile holds.
    pub max: usize,
}

/// The sum of all counts.
pub open spec fn total_of(counts: Seq<usize>) -> int
    decreases counts.len(),
{
    if counts.len() == 0 {
        0
    } else {
        total_of(counts.drop_last()) + counts.last()
    }
}

/// The number of counts that are not zero.
pub open spec fn occupied_of(counts: Seq<usize>) -> int
    decreases counts.len(),
{
    if counts.len() == 0 {
        0
    } else if counts.last() > 0 {
        occupied_of(counts.drop_last()) + 1
    } else {
        occupied_of(counts.drop_last())
    }
}

/// The smallest count that is not zero, and 0 where every count is zero.
pub open spec fn fewest_of(counts: Seq<usize>) -> int
    decreases counts.len(),
{
    if counts.len() == 0 {
        0
    } else if counts.last() == 0 {
        fewest_of(counts.drop_last())
    } else if fewest_of(counts.drop_last()) == 0 || counts.last() < fewest_of(counts.drop_last()) {
        counts.last() as int
    } else {
        fewest_of(counts.drop_last())
    }
}

/// The largest count, and 0 where there is none.
pub open spec fn most_of(counts: Seq<usize>) -> int
    decreases counts.len(),
{
    if counts.len() == 0 {
        0
    } else if counts.last() > most_of(counts.drop_last()) {
        counts.last() as int
    } else {
        most_of(counts.drop_last())
    }
}

/// All rows of a matrix, one after the other.
pub open spec fn flattened(rows: Seq<Vec<usize>>) -> Seq<usize>
    decreases rows.len(),
{
    if rows.len() == 0 {
        Seq::empty()
    } else {
        flattened(rows.drop_last()) + rows.last()@
    }
}

/// Whether `counts` is the matrix of the numbers of primitives per tile of a dense grid of
/// `shape.0` columns and `shape.1` rows: one row per `iy`, one count per `ix`.
pub open spec fn counts_of(
    tiles: Map<(u32, u32), Tile>,
    shape: (int, int),
    counts: Seq<Vec<usize>>,
) -> bool {
    &&& counts.len() == shape.1
    &&& forall|iy: int| 0 <= iy < shape.1 ==> (#[trigger] counts[iy]).len() == shape.0
    &&& forall|ix: int, iy: int|
        0 <= ix < shape.0 && 0 <= iy < shape.1 ==> (#[trigger] counts[iy][ix]) == tiles[(
            ix as u32,
            iy as u32,
        )].shapes@.len()
}

/// What `tilemap_stats` makes of a matrix of counts.
pub open spec fn stats_of(counts: Seq<Vec<usize>>) -> TilemapStats {
    TilemapStats {
        grid_size: (
            if counts.len() == 0 {
                0
            } else {
                counts[0].len()
            },
            counts.len() as usize,
        ),
        num_bins: flattened(counts).len() as u64,
        num_occupied_bins: occupied_of(flattened(counts)) as u64,
        num_rects_incl_duplicates: total_of(flattened(counts)) as u128,
        min: fewest_of(flattened(counts)) as usize,
        max: most_of(flattened(counts)) as usize,
    }
}

impl Tilemap {
    /// Whether the map holds a tile for every column and row that its keys reach.
    pub open spec fn is_dense(&self) -> bool {
        &&& forall|k: (u32, u32)| #[trigger]
            self@.contains_key(k) <==> k.0 < self.shape().0 && k.1 < self.shape().1
        &&& self.shape().0 <= u32::MAX
        &&& self.shape().1 <= u32::MAX
    }
}

/// The number of primitives in every tile of a dense grid, row by row.
pub fn tile_counts(grid: &Tilemap) -> (counts: Vec<Vec<usize>>)
    requires
        grid.is_dense(),
    ensures
        counts_of(grid@, grid.shape(), counts@),
{
    let grid_size = get_grid_shape(grid);
    let mut counts: Vec<Vec<usize>> = Vec::new();
    let mut iy: u32 = 0;
    while iy < grid_size.1
        invariant
            grid.is_dense(),
            grid.shape() == (grid_size.0 as int, grid_size.1 as int),
            iy <= grid_size.1,
            counts_of(grid@, (grid_size.0 as int, iy as int), counts@),
        decreases grid_size.1 - iy,
    {
        let mut row: Vec<usize> = Vec::new();
        let mut ix: u32 = 0;
        while ix < grid_size.0
            invariant
                grid.is_dense(),
                grid.shape() == (grid_size.0 as int, grid_size.1 as int),
                iy < grid_size.1,
                ix <= grid_size.0,
                row.len() == ix,
                forall|x: int|
                    0 <= x < ix ==> (#[trigger] row[x]) == grid@[(x as u32, iy)].shapes@.len(),
            decreases grid_size.0 - ix,
        {
            assert(grid@.contains_key((ix, iy)));
            let count = match grid.tile_ref((ix, iy)) {
                Some(tile) => tile.shapes.len(),
                None => 0,
            };
            row.push(count);
            ix += 1;
        }
        counts.push(row);
        iy += 1;
    }
    counts
}

/// Appending a count to a list of counts updates each statistic by that count alone.
pub proof fn lemma_stats_push(counts: Seq<usize>, count: usize)
    ensures
        total_of(counts.push(count)) == total_of(counts) + count,
        occupied_of(counts.push(count)) == occupied_of(counts) + (if count > 0 {
            1int
        } else {
            0int
        }),
        fewest_of(counts.push(count)) == (if count == 0 {
            fewest_of(counts)
        } else if fewest_of(counts) == 0 || count < fewest_of(counts) {
            count as int
        } else {
            fewest_of(counts)
        }),
        most_of(counts.push(count)) == (if count > most_of(counts) {
            count as int
        } else {
            most_of(counts)
        }),
{
    assert(counts.push(count).drop_last() =~= counts);
}

/// The statistics of a list of counts stay within what the counts allow.
pub proof fn lemma_stats_bounds(counts: Seq<usize>)
    ensures
        0 <= occupied_of(counts) <= counts.len(),
        0 <= total_of(counts) <= counts.len() * usize::MAX,
        0 <= fewest_of(counts) <= most_of(counts) <= usize::MAX,
    decreases counts.len(),
{
    if counts.len() > 0 {
        lemma_stats_bounds(counts.drop_last());
        assert((counts.len() - 1) * usize::MAX + usize::MAX == counts.len() * usize::MAX)
            by (nonlinear_arith);
    }
}

/// The summary of a matrix of counts per tile, as `tile_counts` gives it.
pub fn tilemap_stats(counts: &Vec<Vec<usize>>) -> (stats: TilemapStats)
    requires
        counts.len() <= u32::MAX,
        forall|i: int| 0 <= i < counts.len() ==> (#[trigger] counts[i]).len() <= u32::MAX,
    ensures
        stats == stats_of(counts@),
        stats.num_bins == flattened(counts@).len(),
        stats.num_occupied_bins == occupied_of(flattened(counts@)),
        stats.num_rects_incl_duplicates == total_of(flattened(counts@)),
        stats.min == fewest_of(flattened(counts@)),
        stats.max == most_of(flattened(counts@)),
{
    let mut num_bins: u64 = 0;
    let mut num_occupied_bins: u64 = 0;
    let mut total: u128 = 0;
    let mut min: usize = 0;
    let mut max: usize = 0;
    let ghost mut seen: Seq<usize> = Seq::empty();
    let mut i: usize = 0;
    assert(counts@.take(0) =~= Seq::<Vec<usize>>::empty());
    while i < counts.len()
        invariant
            i <= counts.len(),
            counts.len() <= u32::MAX,
            forall|r: int| 0 <= r < counts.len() ==> (#[trigger] counts[r]).len() <= u32::MAX,
            seen == flattened(counts@.take(i as int)),
            seen.len() <= i * u32::MAX,
            num_bins == seen.len(),
            num_occupied_bins == occupied_of(seen),
            total == total_of(seen),
            min == fewest_of(seen),
            max == most_of(seen),
        decreases counts.len() - i,
    {
        let row = &counts[i];
        let ghost start = seen;
        let mut j: usize = 0;
        assert(row@.take(0) =~= Seq::<usize>::empty());
        assert(start + row@.take(0) =~= start);
        while j < row.len()
            invariant
                j <= row.len(),
                i < counts.len(),
                counts.len() <= u32::MAX,
                row.len() <= u32::MAX,
                start.len() <= i * u32::MAX,
                seen == start + row@.take(j as int),
                num_bins == seen.len(),
                num_occupied_bins == occupied_of(seen),
                total == total_of(seen),
                min == fewest_of(seen),
                max == most_of(seen),
            decreases row.len() - j,
        {
            let count = row[j];
            proof {
                lemma_stats_push(seen, count);
                lemma_stats_bounds(seen.push(count));
                assert(start + row@.take(j + 1) =~= seen.push(count));
                assert(i * u32::MAX + u32::MAX <= u32::MAX * u32::MAX) by (nonlinear_arith)
                    requires
                        i < u32::MAX,
                ;
                assert((seen.len() + 1) * usize::MAX <= u32::MAX * u32::MAX * usize::MAX)
                    by (nonlinear_arith)
                    requires
                        seen.len() + 1 <= u32::MAX * u32::MAX,
                ;
            }
            num_bins += 1;
            total += count as u128;
            if count > 0 {
                num_occupied_bins += 1;
                if min == 0 || count < min {
                    min = count;
                }
            }
            if count > max {
                max = count;
            }
            proof {
                seen = seen.push(count);
            }
            j += 1;
        }
        proof {
            assert(row@.take(row.len() as int) =~= row@);
            assert(counts@.take(i + 1).drop_last() =~= counts@.take(i as int));
            assert(counts@.take(i + 1).last() == counts[i as int]);
            assert((i + 1) * u32::MAX == i * u32::MAX + u32::MAX) by (nonlinear_arith);
        }
        i += 1;
    }
    assert(counts@.take(counts.len() as int) =~= counts@);
    TilemapStats {
        grid_size: (
            if counts.len() == 0 {
                0
            } else {
                counts[0].len()
            },
            counts.len(),
        ),
        num_bins,
        num_occupied_bins,
        num_rects_incl_duplicates: total,
        min,
        max,
    }
}

/// The occupancy of a dense grid: the summary, and the matrix of counts that it is made
/// from.
pub fn tilemap_stats_and_debug(grid: &Tilemap) -> (report: (TilemapStats, Vec<Vec<usize>>))
    requires
        grid.is_dense(),
    ensures
        counts_of(grid@, grid.shape(), report.1@),
        report.0 == stats_of(report.1@),
{
    let counts = tile_counts(grid);
    let stats = tilemap_stats(&counts);
    (stats, counts)
}

} // verus!
