use vstd::prelude::*;

use crate::math::scalar::{Scalar, SCALE, in_range};
use crate::geometry::point::Point;
use crate::odometry::pose::Pose;
use crate::sensor::laserscanner::{Scan, meas_point_s};
use crate::pointcloud::PointCloud;

verus! {

/// What is known of one grid cell: never observed, seen through, or
/// hit some number of times.
#[derive(Debug, Copy, Clone, PartialEq, Eq, Structural)]
pub enum CellState {
    Occupied(u32),
    Freespace,
    Void,
}

impl Default for CellState {
    /// Cells start unobserved.
    fn default() -> (r: CellState)
        ensures
            r == CellState::Void,
    {
        CellState::Void
    }
}

/// Knowledge about a cell only ever grows: unknown may become seen
/// or hit, seen-through may become hit, and a hit count never drops.
pub open spec fn cell_le(a: CellState, b: CellState) -> bool {
    match a {
        CellState::Void => true,
        CellState::Freespace => !(b is Void),
        CellState::Occupied(n) => b matches CellState::Occupied(m) && m >= n,
    }
}

/// `cell_le` is transitive.
pub proof fn lemma_cell_le_trans(a: CellState, b: CellState, c: CellState)
    requires
        cell_le(a, b),
        cell_le(b, c),
    ensures
        cell_le(a, c),
{
}

/// Registering a hit: a first hit occupies the cell, a later hit
/// raises the count (saturating at the counter's limit).
pub open spec fn occupy_step(c: CellState) -> CellState {
    match c {
        CellState::Occupied(n) => if n < u32::MAX {
            CellState::Occupied((n + 1) as u32)
        } else {
            CellState::Occupied(n)
        },
        CellState::Freespace => CellState::Occupied(1),
        CellState::Void => CellState::Occupied(1),
    }
}

/// Seeing through a cell: only an unobserved cell becomes free space.
pub open spec fn free_step(c: CellState) -> CellState {
    match c {
        CellState::Void => CellState::Freespace,
        o => o,
    }
}

/// The grid index that a world coordinate falls in: the floor of
/// `dist / cell_size + n / 2`, taken over the integers.
pub open spec fn index_s(cell_size: int, n: int, dist: int) -> int {
    (2 * dist + n * cell_size) / (2 * cell_size)
}

/// Whether a world coordinate falls inside an `n`-cell axis.
pub open spec fn index_ok(cell_size: int, n: int, dist: int) -> bool {
    0 <= index_s(cell_size, n, dist) < n
}

/// The grid point standing for a cell, with indices as whole scalars.
pub open spec fn cell_point(i: int, j: int) -> Point {
    Point { x: (i * SCALE) as i64, y: (j * SCALE) as i64 }
}

/// The point names a hit cell of the grid.
pub open spec fn from_occupied(g: Seq<Seq<CellState>>, n: int, p: Point) -> bool {
    exists|i: int, j: int|
        0 <= i < n && 0 <= j < n && g[i][j] is Occupied && p == #[trigger] cell_point(i, j)
}

/// The hit cells of row `i` among its first `j` columns, in order.
pub open spec fn occ_row_s(g: Seq<Seq<CellState>>, i: int, j: int) -> Seq<Point>
    decreases j,
{
    if j <= 0 {
        Seq::empty()
    } else {
        occ_row_s(g, i, j - 1) + if g[i][j - 1] is Occupied {
            seq![cell_point(i, j - 1)]
        } else {
            Seq::empty()
        }
    }
}

/// The hit cells of the first `i` rows, row by row.
pub open spec fn occ_all_s(g: Seq<Seq<CellState>>, n: int, i: int) -> Seq<Point>
    decreases i,
{
    if i <= 0 {
        Seq::empty()
    } else {
        occ_all_s(g, n, i - 1) + occ_row_s(g, i - 1, n)
    }
}

/// A point of the walk stays in the bounding box of its endpoints.
pub open spec fn in_box(a: (i64, i64), b: (i64, i64), p: (i64, i64)) -> bool {
    (a.0 <= p.0 <= b.0 || b.0 <= p.0 <= a.0) && (a.1 <= p.1 <= b.1 || b.1 <= p.1 <= a.1)
}

/// The discrete line that line_drawing::Bresenham walks between two
/// cells: a function of its endpoints alone.
pub uninterp spec fn bresenham_of(start: (i64, i64), end: (i64, i64)) -> Seq<(i64, i64)>;

/// Relies on line_drawing::Bresenham: the walk over the discrete line
/// from `start` to `end` is `bresenham_of(start, end)` — determined
/// by its endpoints alone — and it includes both endpoints, begins at
/// `start`, finishes at `end`, and never leaves their bounding box.
#[verifier::external_body]
fn bresenham_line(start: (i64, i64), end: (i64, i64)) -> (r: Vec<(i64, i64)>)
    requires
        in_range(start.0 as int),
        in_range(start.1 as int),
        in_range(end.0 as int),
        in_range(end.1 as int),
    ensures
        r@ == bresenham_of(start, end),
        r@.len() >= 1,
        r@[0] == start,
        r@[r@.len() - 1] == end,
        forall|k: int| 0 <= k < r@.len() ==> in_box(start, end, #[trigger] r@[k]),
{
    line_drawing::Bresenham::new(start, end).collect()
}

/// One hit registered at a cell of the grid.
pub open spec fn occupy_at_s(g: Seq<Seq<CellState>>, x: int, y: int) -> Seq<Seq<CellState>> {
    g.update(x, g[x].update(y, occupy_step(g[x][y])))
}

/// Free space carved along the first `t` cells of a walk: each cell
/// of the walk that lies inside an `n`-cell grid is seen through.
pub open spec fn carve_s(
    g: Seq<Seq<CellState>>,
    walk: Seq<(i64, i64)>,
    n: int,
    t: int,
) -> Seq<Seq<CellState>>
    decreases t,
{
    if t <= 0 {
        g
    } else {
        let g1 = carve_s(g, walk, n, t - 1);
        let cx = walk[t - 1].0 as int;
        let cy = walk[t - 1].1 as int;
        if 0 <= cx < n && 0 <= cy < n {
            g1.update(cx, g1[cx].update(cy, free_step(g1[cx][cy])))
        } else {
            g1
        }
    }
}

/// One measurement folded into a grid from a pose: when the robot
/// cell and the hit cell both lie inside the grid, the hit cell takes
/// a hit and the walk between the two cells is carved to free space;
/// otherwise that measurement is skipped and the grid is unchanged.
pub open spec fn apply_meas_s(
    g: Seq<Seq<CellState>>,
    cs: int,
    n: int,
    pose: crate::odometry::pose::Pose,
    m: crate::sensor::laserscanner::Measurement,
) -> Seq<Seq<CellState>> {
    let p = meas_point_s(m, pose);
    if index_ok(cs, n, pose.position.x as int) && index_ok(cs, n, pose.position.y as int)
        && index_ok(cs, n, p.x as int) && index_ok(cs, n, p.y as int) {
        let sx = index_s(cs, n, pose.position.x as int);
        let sy = index_s(cs, n, pose.position.y as int);
        let ex = index_s(cs, n, p.x as int);
        let ey = index_s(cs, n, p.y as int);
        let walk = bresenham_of((sx as i64, sy as i64), (ex as i64, ey as i64));
        carve_s(occupy_at_s(g, ex, ey), walk, n, walk.len() as int)
    } else {
        g
    }
}

/// The first `k` measurements of a scan folded into a grid, in order.
pub open spec fn update_s(
    g: Seq<Seq<CellState>>,
    cs: int,
    n: int,
    pose: crate::odometry::pose::Pose,
    ms: Seq<crate::sensor::laserscanner::Measurement>,
    k: int,
) -> Seq<Seq<CellState>>
    decreases k,
{
    if k <= 0 {
        g
    } else {
        apply_meas_s(update_s(g, cs, n, pose, ms, k - 1), cs, n, pose, ms[k - 1])
    }
}

/// Euclidean (floor) division of a wide value by a positive divisor.
#[verifier::rlimit(50)]
fn ediv128(a: i128, d: i128) -> (r: i128)
    requires
        d > 0,
        -0x4_0000_0000_0000_0000_0000 <= a <= 0x4_0000_0000_0000_0000_0000,
        d <= 0x1_0000_0000_0000_0000,
    ensures
        r as int == a as int / d as int,
{
    if a >= 0 {
        let q: u128 = (a as u128) / (d as u128);
        assert(q <= a as int) by {
            vstd::arithmetic::div_mod::lemma_div_is_ordered_by_denominator(a as int, 1, d as int);
            vstd::arithmetic::div_mod::lemma_div_basics(a as int);
        }
        q as i128
    } else {
        let m: u128 = ((-a) as u128) / (d as u128);
        proof {
            vstd::arithmetic::div_mod::lemma_fundamental_div_mod(-(a as int), d as int);
            let q = -(a as int) / d as int;
            let rm = -(a as int) % d as int;
            if rm == 0 {
                assert(a as int == (-q) * d + 0) by (nonlinear_arith)
                    requires
                        -(a as int) == d * q + rm,
                        rm == 0,
                ;
                vstd::arithmetic::div_mod::lemma_fundamental_div_mod_converse(
                    a as int,
                    d as int,
                    -q,
                    0,
                );
            } else {
                assert(a as int == (-q - 1) * d + (d - rm)) by (nonlinear_arith)
                    requires
                        -(a as int) == d * q + rm,
                ;
                vstd::arithmetic::div_mod::lemma_fundamental_div_mod_converse(
                    a as int,
                    d as int,
                    -q - 1,
                    d - rm,
                );
            }
        }
        assert(((-a) as u128) as int == -(a as int));
        assert((d as u128) as int == d as int);
        assert(m as int == (((-a) as u128) as int) / ((d as u128) as int));
        assert(m as int == -(a as int) / d as int);
        assert(m as int * (d as int) <= -(a as int)) by {
            vstd::arithmetic::div_mod::lemma_fundamental_div_mod(-(a as int), d as int);
            assert(m as int * (d as int) == d as int * (-(a as int) / d as int))
                by (nonlinear_arith)
                requires
                    m as int == -(a as int) / d as int,
            ;
        }
        let back: u128 = m * (d as u128);
        assert(back as int == d as int * (-(a as int) / d as int)) by (nonlinear_arith)
            requires
                m as int == -(a as int) / d as int,
                back as int == m as int * (d as int),
        ;
        if back == (-a) as u128 {
            -(m as i128)
        } else {
            -(m as i128) - 1
        }
    }
}

/// A square occupancy grid centered on the world origin, with a fixed
/// cell edge length.
pub struct GridMap {
    map_size: usize,
    cells: Vec<Vec<CellState>>,
    cell_size: Scalar,
}

impl Default for GridMap {
    /// A moderate grid centered on the origin: 111 cells per side, a
    /// quarter unit each.
    fn default() -> (r: GridMap)
        ensures
            r.wf(),
            r.size_spec() == 111,
            r.cell_size_spec() == 16384,
            forall|i: int, j: int|
                0 <= i < 111 && 0 <= j < 111 ==> r.grid()[i][j] == CellState::Void,
    {
        GridMap::new(111, 16384)
    }
}

impl Clone for GridMap {
    /// A deep copy: the clone owns its own cells.
    fn clone(&self) -> (r: Self)
        ensures
            r.grid() == self.grid(),
            r.size_spec() == self.size_spec(),
            r.cell_size_spec() == self.cell_size_spec(),
    {
        let mut cells: Vec<Vec<CellState>> = Vec::new();
        let mut i: usize = 0;
        while i < self.cells.len()
            invariant
                i <= self.cells@.len(),
                cells@.len() == i,
                forall|a: int| 0 <= a < i ==> #[trigger] cells@[a]@ == self.cells@[a]@,
            decreases self.cells@.len() - i,
        {
            let row = &self.cells[i];
            let mut new_row: Vec<CellState> = Vec::new();
            let mut j: usize = 0;
            while j < row.len()
                invariant
                    j <= row@.len(),
                    new_row@ =~= row@.take(j as int),
                decreases row@.len() - j,
            {
                new_row.push(row[j]);
                proof {
                    assert(new_row@ =~= row@.take(j as int + 1));
                }
                j = j + 1;
            }
            proof {
                assert(new_row@ =~= row@);
            }
            cells.push(new_row);
            i = i + 1;
        }
        let r = GridMap { map_size: self.map_size, cells, cell_size: self.cell_size };
        proof {
            assert(r.grid() =~= self.grid()) by {
                assert(forall|a: int|
                    0 <= a < r.cells@.len() ==> #[trigger] r.grid()[a] == r.cells@[a]@);
                assert(forall|a: int|
                    0 <= a < self.cells@.len() ==> #[trigger] self.grid()[a] == self.cells@[a]@);
            }
        }
        r
    }
}

impl GridMap {
    /// The cell states, row by row.
    pub closed spec fn grid(&self) -> Seq<Seq<CellState>> {
        self.cells@.map_values(|row: Vec<CellState>| row@)
    }

    /// Cells per side.
    pub closed spec fn size_spec(&self) -> int {
        self.map_size as int
    }

    /// Edge length of one cell, as a scalar value.
    pub closed spec fn cell_size_spec(&self) -> int {
        self.cell_size as int
    }

    /// A well-formed grid: square, with a positive cell size and a
    /// side that keeps index arithmetic in range.
    pub open spec fn wf(&self) -> bool {
        &&& self.grid().len() == self.size_spec()
        &&& forall|i: int| 0 <= i < self.grid().len() ==> #[trigger] self.grid()[i].len() == self.size_spec()
        &&& 1 <= self.size_spec() <= 0x10000
        &&& 1 <= self.cell_size_spec() <= SCALE as int * 0x10000
    }

    /// Cells per side.
    pub fn map_size(&self) -> (r: usize)
        ensures
            r as int == self.size_spec(),
    {
        self.map_size
    }

    /// A fresh, fully unobserved square grid.
    pub fn new(map_size: usize, cell_size: Scalar) -> (r: GridMap)
        requires
            1 <= map_size <= 0x10000,
            1 <= cell_size <= SCALE as int * 0x10000,
        ensures
            r.wf(),
            r.size_spec() == map_size,
            r.cell_size_spec() == cell_size,
            forall|i: int, j: int|
                0 <= i < map_size && 0 <= j < map_size ==> r.grid()[i][j] == CellState::Void,
    {
        let mut cells: Vec<Vec<CellState>> = Vec::new();
        let mut i: usize = 0;
        while i < map_size
            invariant
                i <= map_size,
                cells@.len() == i,
                forall|a: int| 0 <= a < i ==> (#[trigger] cells@[a])@.len() == map_size,
                forall|a: int, b: int|
                    0 <= a < i && 0 <= b < map_size ==> cells@[a]@[b] == CellState::Void,
            decreases map_size - i,
        {
            let mut row: Vec<CellState> = Vec::new();
            let mut j: usize = 0;
            while j < map_size
                invariant
                    j <= map_size,
                    row@.len() == j,
                    forall|b: int| 0 <= b < j ==> row@[b] == CellState::Void,
                decreases map_size - j,
            {
                row.push(CellState::Void);
                j = j + 1;
            }
            cells.push(row);
            i = i + 1;
        }
        GridMap { map_size, cells, cell_size }
    }

    /// Reset every cell to unobserved.
    pub fn clear(&mut self)
        requires
            old(self).wf(),
        ensures
            final (self).wf(),
            final (self).size_spec() == old(self).size_spec(),
            final (self).cell_size_spec() == old(self).cell_size_spec(),
            forall|i: int, j: int|
                0 <= i < final (self).size_spec() && 0 <= j < final (self).size_spec()
                    ==> final (self).grid()[i][j] == CellState::Void,
    {
        let fresh = GridMap::new(self.map_size, self.cell_size);
        self.cells = fresh.cells;
    }

    /// The state of the cell at the given indices, or nothing when
    /// they fall outside the grid.
    pub fn cell_state(&self, x: usize, y: usize) -> (r: Option<CellState>)
        requires
            self.wf(),
        ensures
            r is Some <==> x < self.size_spec() && y < self.size_spec(),
            x < self.size_spec() && y < self.size_spec() ==> r == Some(self.grid()[x as int][y as int]),
    {
        if x < self.map_size && y < self.map_size {
            proof {
                assert(self.grid()[x as int] == self.cells@[x as int]@);
            }
            Some(self.cells[x][y])
        } else {
            None
        }
    }

    /// The grid index a world coordinate falls in along one axis, or
    /// nothing when it lies outside the grid.
    pub fn index_from_dist(&self, dist: Scalar) -> (r: Option<usize>)
        requires
            self.wf(),
        ensures
            r is Some <==> index_ok(self.cell_size_spec(), self.size_spec(), dist as int),
            r matches Some(i) ==> i as int == index_s(
                self.cell_size_spec(),
                self.size_spec(),
                dist as int,
            ),
    {
        assert(0 <= self.map_size as int * self.cell_size as int <= 0x1_0000_0000_0000_0000_0000)
            by (nonlinear_arith)
            requires
                1 <= self.map_size as int <= 0x10000,
                1 <= self.cell_size as int <= 0x4000_0000_0000_0000,
        ;
        let num: i128 = 2 * (dist as i128) + (self.map_size as i128) * (self.cell_size as i128);
        let den: i128 = 2 * (self.cell_size as i128);
        let q = ediv128(num, den);
        if 0 <= q && q < self.map_size as i128 {
            Some(q as usize)
        } else {
            None
        }
    }

    /// Both grid indices of a world point, or nothing when either
    /// coordinate falls outside the grid.
    pub fn world_to_map(&self, point: Point) -> (r: Option<(usize, usize)>)
        requires
            self.wf(),
        ensures
            r is Some <==> index_ok(self.cell_size_spec(), self.size_spec(), point.x as int)
                && index_ok(self.cell_size_spec(), self.size_spec(), point.y as int),
            r matches Some(p) ==> p.0 as int == index_s(
                self.cell_size_spec(),
                self.size_spec(),
                point.x as int,
            ) && p.1 as int == index_s(self.cell_size_spec(), self.size_spec(), point.y as int),
    {
        match self.index_from_dist(point.x) {
            Some(x) => match self.index_from_dist(point.y) {
                Some(y) => Some((x, y)),
                None => None,
            },
            None => None,
        }
    }

    /// The grid coordinates of every hit cell, as points of whole
    /// scalar units, in row-major order.
    pub fn get_all_occupied_cells(&self) -> (r: PointCloud)
        requires
            self.wf(),
        ensures
            r@ == occ_all_s(self.grid(), self.size_spec(), self.size_spec()),
            forall|i: int, j: int|
                0 <= i < self.size_spec() && 0 <= j < self.size_spec() && self.grid()[i][j]
                    is Occupied ==> r@.contains(#[trigger] cell_point(i, j)),
            forall|k: int|
                0 <= k < r@.len() ==> from_occupied(self.grid(), self.size_spec(), #[trigger] r@[k]),
    {
        let mut occupied = PointCloud::empty();
        let n = self.map_size;
        let mut i: usize = 0;
        proof {
            assert(occupied@ =~= occ_all_s(self.grid(), n as int, 0));
        }
        while i < n
            invariant
                self.wf(),
                n == self.size_spec(),
                i <= n,
                occupied@ == occ_all_s(self.grid(), n as int, i as int),
                forall|a: int, b: int|
                    0 <= a < i && 0 <= b < n && self.grid()[a][b] is Occupied ==> occupied@.contains(
                        #[trigger] cell_point(a, b),
                    ),
                forall|k: int|
                    0 <= k < occupied@.len() ==> from_occupied(
                        self.grid(),
                        self.size_spec(),
                        #[trigger] occupied@[k],
                    ),
            decreases n - i,
        {
            let mut j: usize = 0;
            proof {
                assert(occupied@ =~= occ_all_s(self.grid(), n as int, i as int) + occ_row_s(
                    self.grid(),
                    i as int,
                    0,
                ));
            }
            while j < n
                invariant
                    self.wf(),
                    n == self.size_spec(),
                    i < n,
                    j <= n,
                    occupied@ == occ_all_s(self.grid(), n as int, i as int) + occ_row_s(
                        self.grid(),
                        i as int,
                        j as int,
                    ),
                    forall|a: int, b: int|
                        0 <= a < i && 0 <= b < n && self.grid()[a][b] is Occupied ==> occupied@.contains(
                            #[trigger] cell_point(a, b),
                        ),
                    forall|b: int|
                        0 <= b < j && self.grid()[i as int][b] is Occupied ==> occupied@.contains(
                            #[trigger] cell_point(i as int, b),
                        ),
                    forall|k: int|
                        0 <= k < occupied@.len() ==> from_occupied(
                            self.grid(),
                            self.size_spec(),
                            #[trigger] occupied@[k],
                        ),
                decreases n - j,
            {
                let c = self.cells[i][j];
                proof {
                    assert(self.grid()[i as int] == self.cells@[i as int]@);
                }
                match c {
                    CellState::Occupied(_) => {
                        let ghost before = occupied@;
                        occupied.add(Point::new((i as i64) * SCALE, (j as i64) * SCALE));
                        proof {
                            assert(occupied@[before.len() as int] == cell_point(i as int, j as int));
                            assert(from_occupied(
                                self.grid(),
                                self.size_spec(),
                                occupied@[before.len() as int],
                            ));
                            assert(forall|p: Point| before.contains(p) ==> occupied@.contains(p)) by {
                                assert(forall|k: int|
                                    0 <= k < before.len() ==> occupied@[k] == before[k]);
                            }
                            assert(occupied@ =~= occ_all_s(self.grid(), n as int, i as int)
                                + occ_row_s(self.grid(), i as int, j as int + 1));
                        }
                    },
                    _ => {
                        proof {
                            assert(occupied@ =~= occ_all_s(self.grid(), n as int, i as int)
                                + occ_row_s(self.grid(), i as int, j as int + 1));
                        }
                    },
                }
                j = j + 1;
            }
            proof {
                assert(occupied@ =~= occ_all_s(self.grid(), n as int, i as int + 1));
            }
            i = i + 1;
        }
        occupied
    }
}

/// Taking a hit only grows a cell, and leaves it occupied.
pub proof fn lemma_occupy_le(c: CellState)
    ensures
        cell_le(c, occupy_step(c)),
        occupy_step(c) is Occupied,
{
}

/// Seeing through a cell only grows it, and never downgrades a hit.
pub proof fn lemma_free_le(c: CellState)
    ensures
        cell_le(c, free_step(c)),
        c is Occupied ==> free_step(c) == c,
{
}

impl GridMap {
    /// Overwrite one cell.
    fn set_cell(&mut self, x: usize, y: usize, v: CellState)
        requires
            old(self).wf(),
            x < old(self).size_spec(),
            y < old(self).size_spec(),
        ensures
            final (self).wf(),
            final (self).size_spec() == old(self).size_spec(),
            final (self).cell_size_spec() == old(self).cell_size_spec(),
            final (self).grid() == old(self).grid().update(
                x as int,
                old(self).grid()[x as int].update(y as int, v),
            ),
    {
        proof {
            assert(self.grid()[x as int] == self.cells@[x as int]@);
        }
        self.cells[x].set(y, v);
        proof {
            assert(final (self).grid() =~= old(self).grid().update(
                x as int,
                old(self).grid()[x as int].update(y as int, v),
            )) by {
                assert(forall|i: int|
                    0 <= i < self.cells@.len() ==> self.grid()[i] == #[trigger] self.cells@[i]@);
            }
        }
    }

    /// Fold one scan into the map from a pose: for every measurement
    /// whose endpoints both fall inside the grid, the hit cell takes a
    /// hit and the unobserved cells along the discrete line from the
    /// robot to the hit become free space. A measurement with an
    /// endpoint outside the grid is skipped; the rest of the scan is
    /// still applied. Knowledge in every cell only ever grows.
    #[verifier::loop_isolation(false)]
    pub fn update(&mut self, pose: &Pose, scan: &Scan)
        requires
            old(self).wf(),
        ensures
            final (self).wf(),
            final (self).size_spec() == old(self).size_spec(),
            final (self).cell_size_spec() == old(self).cell_size_spec(),
            final (self).grid() == update_s(
                old(self).grid(),
                old(self).cell_size_spec(),
                old(self).size_spec(),
                *pose,
                scan.measurements@,
                scan.measurements@.len() as int,
            ),
            forall|i: int, j: int|
                0 <= i < old(self).size_spec() && 0 <= j < old(self).size_spec() ==> cell_le(
                    old(self).grid()[i][j],
                    #[trigger] final (self).grid()[i][j],
                ),
            forall|k: int|
                0 <= k < scan.measurements@.len() && index_ok(
                    old(self).cell_size_spec(),
                    old(self).size_spec(),
                    pose.position.x as int,
                ) && index_ok(
                    old(self).cell_size_spec(),
                    old(self).size_spec(),
                    pose.position.y as int,
                ) && index_ok(
                    old(self).cell_size_spec(),
                    old(self).size_spec(),
                    meas_point_s(#[trigger] scan.measurements@[k], *pose).x as int,
                ) && index_ok(
                    old(self).cell_size_spec(),
                    old(self).size_spec(),
                    meas_point_s(scan.measurements@[k], *pose).y as int,
                ) ==> final (self).grid()[index_s(
                    old(self).cell_size_spec(),
                    old(self).size_spec(),
                    meas_point_s(scan.measurements@[k], *pose).x as int,
                )][index_s(
                    old(self).cell_size_spec(),
                    old(self).size_spec(),
                    meas_point_s(scan.measurements@[k], *pose).y as int,
                )] is Occupied,
    {
        let ghost g0 = old(self).grid();
        let ghost n = old(self).size_spec();
        let ghost cs = old(self).cell_size_spec();
        let mut k: usize = 0;
        while k < scan.measurements.len()
            invariant
                k <= scan.measurements@.len(),
                self.wf(),
                self.size_spec() == n,
                self.cell_size_spec() == cs,
                self.grid() == update_s(g0, cs, n, *pose, scan.measurements@, k as int),
                forall|i: int, j: int|
                    0 <= i < n && 0 <= j < n ==> cell_le(g0[i][j], #[trigger] self.grid()[i][j]),
                forall|k2: int|
                    0 <= k2 < k && index_ok(cs, n, pose.position.x as int) && index_ok(
                        cs,
                        n,
                        pose.position.y as int,
                    ) && index_ok(
                        cs,
                        n,
                        meas_point_s(#[trigger] scan.measurements@[k2], *pose).x as int,
                    ) && index_ok(cs, n, meas_point_s(scan.measurements@[k2], *pose).y as int)
                        ==> self.grid()[index_s(
                        cs,
                        n,
                        meas_point_s(scan.measurements@[k2], *pose).x as int,
                    )][index_s(cs, n, meas_point_s(scan.measurements@[k2], *pose).y as int)]
                        is Occupied,
            decreases scan.measurements@.len() - k,
        {
            let m = scan.measurements[k];
            let ghost g_k = self.grid();
            let p = m.to_point(pose);
            let start_opt = self.world_to_map(pose.position);
            let end_opt = self.world_to_map(p);
            match (start_opt, end_opt) {
                (Some(start), Some(end)) => {
                    let ghost g_before = self.grid();
                    // register the hit at the measured point
                    let c = self.cells[end.0][end.1];
                    let hit = match c {
                        CellState::Occupied(cnt) => if cnt < u32::MAX {
                            CellState::Occupied(cnt + 1)
                        } else {
                            CellState::Occupied(cnt)
                        },
                        CellState::Freespace => CellState::Occupied(1),
                        CellState::Void => CellState::Occupied(1),
                    };
                    proof {
                        assert(self.grid()[end.0 as int] == self.cells@[end.0 as int]@);
                        assert(hit == occupy_step(g_before[end.0 as int][end.1 as int]));
                        lemma_occupy_le(g_before[end.0 as int][end.1 as int]);
                    }
                    self.set_cell(end.0, end.1, hit);
                    proof {
                        assert(self.grid() == occupy_at_s(g_before, end.0 as int, end.1 as int));
                        assert(forall|i: int, j: int|
                            0 <= i < n && 0 <= j < n ==> cell_le(
                                g_before[i][j],
                                #[trigger] self.grid()[i][j],
                            ));
                        assert(forall|i: int, j: int|
                            0 <= i < n && 0 <= j < n && g_before[i][j] is Occupied
                                ==> #[trigger] self.grid()[i][j] is Occupied);
                        assert forall|i: int, j: int|
                            0 <= i < n && 0 <= j < n implies cell_le(
                            g0[i][j],
                            #[trigger] self.grid()[i][j],
                        ) by {
                            lemma_cell_le_trans(g0[i][j], g_before[i][j], self.grid()[i][j]);
                        }
                    }
                    // carve free space along the line of sight
                    let ghost g_occ = self.grid();
                    let line = bresenham_line(
                        (start.0 as i64, start.1 as i64),
                        (end.0 as i64, end.1 as i64),
                    );
                    let mut t: usize = 0;
                    proof {
                        assert(self.grid() == carve_s(g_occ, line@, n, 0));
                    }
                    while t < line.len()
                        invariant
                            t <= line@.len(),
                            self.grid() == carve_s(g_occ, line@, n, t as int),
                            self.wf(),
                            self.size_spec() == n,
                            self.cell_size_spec() == cs,
                            forall|i: int, j: int|
                                0 <= i < n && 0 <= j < n ==> cell_le(
                                    g0[i][j],
                                    #[trigger] self.grid()[i][j],
                                ),
                            forall|i: int, j: int|
                                0 <= i < n && 0 <= j < n && g_before[i][j] is Occupied
                                    ==> #[trigger] self.grid()[i][j] is Occupied,
                            self.grid()[end.0 as int][end.1 as int] is Occupied,
                            forall|k2: int|
                                0 <= k2 < k && index_ok(cs, n, pose.position.x as int) && index_ok(
                                    cs,
                                    n,
                                    pose.position.y as int,
                                ) && index_ok(
                                    cs,
                                    n,
                                    meas_point_s(#[trigger] scan.measurements@[k2], *pose).x as int,
                                ) && index_ok(
                                    cs,
                                    n,
                                    meas_point_s(scan.measurements@[k2], *pose).y as int,
                                ) ==> self.grid()[index_s(
                                    cs,
                                    n,
                                    meas_point_s(scan.measurements@[k2], *pose).x as int,
                                )][index_s(
                                    cs,
                                    n,
                                    meas_point_s(scan.measurements@[k2], *pose).y as int,
                                )] is Occupied,
                        decreases line@.len() - t,
                    {
                        let (cx, cy) = line[t];
                        proof {
                            assert(in_box(
                                (start.0 as i64, start.1 as i64),
                                (end.0 as i64, end.1 as i64),
                                line@[t as int],
                            ));
                        }
                        let ux = cx as usize;
                        let uy = cy as usize;
                        let ghost g_in = self.grid();
                        let cc = self.cells[ux][uy];
                        proof {
                            assert(self.grid()[ux as int] == self.cells@[ux as int]@);
                            assert(cc == g_in[ux as int][uy as int]);
                        }
                        match cc {
                            CellState::Void => {
                                proof {
                                    lemma_free_le(g_in[ux as int][uy as int]);
                                }
                                self.set_cell(ux, uy, CellState::Freespace);
                                proof {
                                    assert(self.grid() == carve_s(g_occ, line@, n, t as int + 1));
                                    assert(forall|i: int, j: int|
                                        0 <= i < n && 0 <= j < n ==> cell_le(
                                            g_in[i][j],
                                            #[trigger] self.grid()[i][j],
                                        ));
                                    assert(forall|i: int, j: int|
                                        0 <= i < n && 0 <= j < n && g_in[i][j] is Occupied
                                            ==> #[trigger] self.grid()[i][j] is Occupied);
                                    assert forall|i: int, j: int|
                                        0 <= i < n && 0 <= j < n implies cell_le(
                                        g0[i][j],
                                        #[trigger] self.grid()[i][j],
                                    ) by {
                                        lemma_cell_le_trans(g0[i][j], g_in[i][j], self.grid()[i][j]);
                                    }
                                    assert(forall|i: int, j: int|
                                        0 <= i < n && 0 <= j < n && g_before[i][j] is Occupied
                                            ==> #[trigger] self.grid()[i][j] is Occupied);
                                }
                            },
                            _ => {
                                proof {
                                    assert(free_step(g_in[ux as int][uy as int]) == g_in[ux
                                        as int][uy as int]);
                                    assert(g_in[ux as int].update(
                                        uy as int,
                                        g_in[ux as int][uy as int],
                                    ) =~= g_in[ux as int]);
                                    assert(g_in.update(ux as int, g_in[ux as int]) =~= g_in);
                                    assert(self.grid() == carve_s(g_occ, line@, n, t as int + 1));
                                }
                            },
                        }
                        t = t + 1;
                    }
                    proof {
                        assert(self.grid() == carve_s(g_occ, line@, n, line@.len() as int));
                        assert(self.grid() == apply_meas_s(g_k, cs, n, *pose, scan.measurements@[k as int]));
                    }
                },
                _ => {
                    proof {
                        assert(self.grid() == apply_meas_s(g_k, cs, n, *pose, scan.measurements@[k as int]));
                    }
                },
            }
            proof {
                assert(self.grid() == update_s(g0, cs, n, *pose, scan.measurements@, k as int + 1));
            }
            k = k + 1;
        }
    }
}

} // verus!
