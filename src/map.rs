use vstd::prelude::*;
use std::rc::Rc;
use crate::actor::{BoundingRect, COORD_LIMIT, coord_ok, spans_overlap, opt_int};
use crate::asset::RUNTIME_ASSET;
use crate::shared::share;
use crate::tile::TileSet;

verus! {

/// Largest pixel extent of a map layer along either axis.
pub const MAP_LIMIT: usize = 0x20_0000;

#[derive(Clone, Copy, Debug, PartialEq, Eq, Structural)]
pub enum BlendMode {
    Normal,
    Add,
    Subtract,
    Multiply,
}

/// A cell's content: one tile of a tile set.
#[derive(Clone)]
pub struct TileRef {
    pub tile_set: Rc<TileSet>,
    pub tile_index: usize,
}

/// A grid of optional tiles, stored row by row.
#[derive(Clone)]
pub struct MapLayer {
    pub name: String,
    pub id: String,
    pub width: usize,
    pub height: usize,
    pub tile_width: usize,
    pub tile_height: usize,
    pub tile_depth: usize,
    pub tiles: Vec<Option<TileRef>>,
    pub effect: bool,
    pub blend_mode: BlendMode,
    pub alpha: u8,
    pub parallax_x: i16,
    pub parallax_y: i16,
    pub auto_scroll_x: i16,
    pub auto_scroll_y: i16,
}

/// A tile's collision rectangle is small enough to be placed anywhere on a
/// map without leaving the coordinate range.
pub open spec fn local_rect_ok(c: BoundingRect, tile_width: int, tile_height: int) -> bool {
    &&& 0 <= c.x
    &&& 0 <= c.y
    &&& 0 <= c.width
    &&& 0 <= c.height
    &&& c.x + c.width <= tile_width
    &&& c.y + c.height <= tile_height
}

/// The referenced tile exists and its collision rectangles are in range.
pub open spec fn tile_ok(t: Option<TileRef>, tile_width: int, tile_height: int) -> bool {
    match t {
        None => true,
        Some(r) => {
            &&& r.tile_index < r.tile_set.tiles@.len()
            &&& forall|k: int| 0 <= k < r.tile_set.tiles@[r.tile_index as int].collision@.len()
                ==> local_rect_ok(#[trigger] r.tile_set.tiles@[r.tile_index as int].collision@[k], tile_width, tile_height)
        },
    }
}

/// Grid size that a layer may have.
pub open spec fn grid_ok(width: int, height: int, tile_width: int, tile_height: int) -> bool {
    &&& 0 < tile_width <= MAP_LIMIT
    &&& 0 < tile_height <= MAP_LIMIT
    &&& 0 <= width
    &&& 0 <= height
    &&& width * tile_width <= MAP_LIMIT
    &&& height * tile_height <= MAP_LIMIT
    &&& width * height <= usize::MAX
}

/// `min(a, b)` and `max(a, b)` on mathematical integers.
pub open spec fn min_int(a: int, b: int) -> int {
    if a <= b { a } else { b }
}

pub open spec fn max_int(a: int, b: int) -> int {
    if a <= b { b } else { a }
}

impl MapLayer {
    pub open spec fn wf(&self) -> bool {
        &&& grid_ok(self.width as int, self.height as int, self.tile_width as int, self.tile_height as int)
        &&& self.tiles@.len() == self.width * self.height
        &&& forall|i: int| 0 <= i < self.tiles@.len() ==> tile_ok(#[trigger] self.tiles@[i], self.tile_width as int, self.tile_height as int)
    }

    /// Content of the cell in column `x`, row `y`.
    pub open spec fn cell(&self, x: int, y: int) -> Option<TileRef> {
        self.tiles@[y * self.width + x]
    }

    /// An empty layer of the given size, built at run time.
    pub fn new(name: &str, width: usize, height: usize, tile_width: usize, tile_height: usize, tile_depth: usize) -> (r: MapLayer)
        requires
            grid_ok(width as int, height as int, tile_width as int, tile_height as int),
        ensures
            r.wf(),
            r.name@ == name@,
            r.id@ == RUNTIME_ASSET@,
            r.width == width,
            r.height == height,
            r.tile_width == tile_width,
            r.tile_height == tile_height,
            r.tile_depth == tile_depth,
            forall|i: int| 0 <= i < r.tiles@.len() ==> (#[trigger] r.tiles@[i]) is None,
            !r.effect,
            r.blend_mode == BlendMode::Normal,
            r.alpha == 0,
            r.parallax_x == 0x100,
            r.parallax_y == 0x100,
            r.auto_scroll_x == 0,
            r.auto_scroll_y == 0,
    {
        proof {
            lemma_grid_cells(width as int, height as int, tile_width as int, tile_height as int);
        }
        let count = width * height;
        let mut tiles: Vec<Option<TileRef>> = Vec::new();
        let mut i: usize = 0;
        while i < count
            invariant
                i <= count,
                tiles@.len() == i,
                forall|j: int| 0 <= j < i ==> (#[trigger] tiles@[j]) is None,
            decreases count - i,
        {
            tiles.push(None);
            i += 1;
        }
        MapLayer {
            name: name.to_owned(),
            id: RUNTIME_ASSET.to_owned(),
            width,
            height,
            tile_width,
            tile_height,
            tile_depth,
            tiles,
            effect: false,
            blend_mode: BlendMode::Normal,
            alpha: 0,
            parallax_x: 0x100,
            parallax_y: 0x100,
            auto_scroll_x: 0,
            auto_scroll_y: 0,
        }
    }

    pub fn get_tile(&self, x: usize, y: usize) -> (r: &Option<TileRef>)
        requires
            self.wf(),
            x < self.width,
            y < self.height,
        ensures
            *r == self.cell(x as int, y as int),
    {
        let cells = self.tiles.len();
        proof {
            lemma_cell_index(x as int, y as int, self.width as int, self.height as int);
        }
        assert(y * self.width + x < cells);
        &self.tiles[y * self.width + x]
    }

    pub fn set_tile(&mut self, x: usize, y: usize, tile: Option<TileRef>)
        requires
            old(self).wf(),
            x < old(self).width,
            y < old(self).height,
            tile_ok(tile, old(self).tile_width as int, old(self).tile_height as int),
        ensures
            final(self).wf(),
            final(self).tiles@ == old(self).tiles@.update(y * old(self).width + x, tile),
            final(self).width == old(self).width,
            final(self).height == old(self).height,
            final(self).tile_width == old(self).tile_width,
            final(self).tile_height == old(self).tile_height,
            final(self).effect == old(self).effect,
    {
        let cells = self.tiles.len();
        proof {
            lemma_cell_index(x as int, y as int, self.width as int, self.height as int);
        }
        assert(y * self.width + x < cells);
        let idx = y * self.width + x;
        self.tiles.set(idx, tile);
        assert forall|i: int| 0 <= i < self.tiles@.len() implies tile_ok(#[trigger] self.tiles@[i], self.tile_width as int, self.tile_height as int) by {
            if i != idx {
                assert(self.tiles@[i] == old(self).tiles@[i]);
            }
        }
    }
}

/// What a layer query looks for among the collision rectangles it scans.
#[derive(Clone, Copy, Debug, PartialEq, Eq, Structural)]
pub enum Probe {
    /// any rectangle overlapping the query rectangle
    Overlap,
    /// the first stop of the query rectangle moving along x
    SweepX,
    /// the first stop of the query rectangle moving along y
    SweepY,
}

/// A rectangle in world pixels, as mathematical integers.
pub struct Area {
    pub x: int,
    pub y: int,
    pub width: int,
    pub height: int,
}

/// Progress of a scan: nothing met so far, a stop found at a coordinate, or
/// the query rectangle blocked where it stands.
pub enum Scan {
    Clear,
    Stop(int),
    Blocked,
}

/// Executable counterpart of `Scan`.
#[derive(Clone, Copy, Debug, PartialEq, Eq, Structural)]
pub enum Reach {
    Clear,
    Stop(isize),
    Blocked,
}

pub open spec fn reach_view(r: Reach) -> Scan {
    match r {
        Reach::Clear => Scan::Clear,
        Reach::Stop(v) => Scan::Stop(v as int),
        Reach::Blocked => Scan::Blocked,
    }
}

/// The coordinate that a probe moves along, and the extent on that axis.
pub open spec fn along(m: BoundingRect, probe: Probe) -> int {
    if probe == Probe::SweepY { m.y as int } else { m.x as int }
}

pub open spec fn between(v: int, a: int, b: int) -> bool {
    min_int(a, b) <= v <= max_int(a, b)
}

/// A stop always lies between the start and the destination.
pub open spec fn reach_ok(r: Reach, p: int, target: int) -> bool {
    r matches Reach::Stop(v) ==> between(v as int, p, target)
}

/// One step of a sweep along an axis: `[s, s + sw)` is the obstacle's span on
/// that axis, `[p, p + pw)` the moving span, `cross` whether the two meet on
/// the other axis. The bound is the nearest stop found so far, or the
/// destination.
pub open spec fn sweep_step(acc: Scan, s: int, sw: int, p: int, pw: int, target: int, cross: bool) -> Scan {
    let bound = match acc {
        Scan::Stop(v) => v,
        _ => target,
    };
    if !cross {
        acc
    } else if spans_overlap(s, sw, p, pw) {
        Scan::Blocked
    } else if p + pw <= s && target > p {
        if s - pw < bound { Scan::Stop(s - pw) } else { acc }
    } else if p >= s + sw && target < p {
        if s + sw > bound { Scan::Stop(s + sw) } else { acc }
    } else {
        acc
    }
}

/// Takes one collision rectangle `c` into account.
pub open spec fn probe_step(probe: Probe, acc: Scan, c: Area, m: BoundingRect, target: int) -> Scan {
    if acc is Blocked {
        acc
    } else {
        match probe {
            Probe::Overlap => if spans_overlap(c.x, c.width, m.x as int, m.width as int)
                && spans_overlap(c.y, c.height, m.y as int, m.height as int) {
                Scan::Blocked
            } else {
                acc
            },
            Probe::SweepX => sweep_step(acc, c.x, c.width, m.x as int, m.width as int, target,
                spans_overlap(c.y, c.height, m.y as int, m.height as int)),
            Probe::SweepY => sweep_step(acc, c.y, c.height, m.y as int, m.height as int, target,
                spans_overlap(c.x, c.width, m.x as int, m.width as int)),
        }
    }
}

/// The first `n` rectangles of `areas`, in order.
pub open spec fn fold_areas(probe: Probe, acc: Scan, areas: Seq<Area>, n: nat, m: BoundingRect, target: int) -> Scan
    decreases n,
{
    if n == 0 {
        acc
    } else {
        probe_step(probe, fold_areas(probe, acc, areas, (n - 1) as nat, m, target), areas[n - 1], m, target)
    }
}

/// Number of integers in `[lo, hi]`.
pub open spec fn span_count(lo: int, hi: int) -> nat {
    if hi < lo { 0 } else { (hi - lo + 1) as nat }
}

impl MapLayer {
    /// The collision rectangles of cell `(x, y)` placed in world pixels.
    pub open spec fn cell_areas(&self, x: int, y: int) -> Seq<Area> {
        match self.cell(x, y) {
            None => Seq::empty(),
            Some(r) => r.tile_set.tiles@[r.tile_index as int].collision@.map_values(
                |c: BoundingRect| Area {
                    x: x * self.tile_width + c.x,
                    y: y * self.tile_height + c.y,
                    width: c.width as int,
                    height: c.height as int,
                },
            ),
        }
    }

    /// Cells `x0 .. x0 + n` of row `y`, left to right.
    pub open spec fn fold_cols(&self, probe: Probe, acc: Scan, y: int, x0: int, n: nat, m: BoundingRect, target: int) -> Scan
        decreases n,
    {
        if n == 0 {
            acc
        } else {
            let before = self.fold_cols(probe, acc, y, x0, (n - 1) as nat, m, target);
            let areas = self.cell_areas(x0 + n - 1, y);
            fold_areas(probe, before, areas, areas.len(), m, target)
        }
    }

    /// Rows `y0 .. y0 + rows`, top to bottom, each over columns
    /// `x0 .. x0 + cols`.
    pub open spec fn fold_rows(&self, probe: Probe, acc: Scan, y0: int, rows: nat, x0: int, cols: nat, m: BoundingRect, target: int) -> Scan
        decreases rows,
    {
        if rows == 0 {
            acc
        } else {
            let before = self.fold_rows(probe, acc, y0, (rows - 1) as nat, x0, cols, m, target);
            self.fold_cols(probe, before, y0 + rows - 1, x0, cols, m, target)
        }
    }

    /// Whether `m` overlaps a collision rectangle of this layer, or is not
    /// wholly inside its grid.
    pub open spec fn spec_check_collision(&self, m: BoundingRect) -> bool {
        let x0 = (m.x as int) / (self.tile_width as int);
        let x1 = (m.x + m.width - 1) / (self.tile_width as int);
        let y0 = (m.y as int) / (self.tile_height as int);
        let y1 = (m.y + m.height - 1) / (self.tile_height as int);
        if x0 < 0 || x1 >= self.width || y0 < 0 || y1 >= self.height {
            true
        } else {
            self.fold_rows(Probe::Overlap, Scan::Clear, y0, span_count(y0, y1), x0, span_count(x0, x1), m, m.x as int)
                is Blocked
        }
    }

    /// How a sweep along the probe's axis from where `m` stands to `target`
    /// goes on this layer. It ends at once, where it stands, when `m` is
    /// outside the grid on the other axis or already past an edge it is
    /// heading out of. Otherwise a sweep heading out of the grid starts with a
    /// stop at that edge, and the cells between start and destination are
    /// scanned row by row.
    pub open spec fn spec_plan(&self, probe: Probe, m: BoundingRect, target: int) -> SweepPlan {
        let vertical = probe == Probe::SweepY;
        let p = along(m, probe);
        let len = if vertical { m.height as int } else { m.width as int };
        let cp = if vertical { m.x as int } else { m.y as int };
        let clen = if vertical { m.width as int } else { m.height as int };
        let ts = if vertical { self.tile_height as int } else { self.tile_width as int };
        let count = if vertical { self.height as int } else { self.width as int };
        let cts = if vertical { self.tile_width as int } else { self.tile_height as int };
        let ccount = if vertical { self.width as int } else { self.height as int };
        let lo = min_int(p, target) / ts;
        let hi = (max_int(p, target) + len - 1) / ts;
        let clo = cp / cts;
        let chi = (cp + clen - 1) / cts;
        let early = (clo < 0 || chi >= ccount) || (lo < 0 && p < 0) || (hi >= count && p + len > count * ts);
        let init = if hi >= count {
            Scan::Stop(count * ts - len)
        } else if lo < 0 {
            Scan::Stop(0)
        } else {
            Scan::Clear
        };
        let a0 = max_int(lo, 0);
        let a1 = min_int(hi, count - 1);
        SweepPlan {
            early,
            init,
            x0: if vertical { clo } else { a0 },
            cols: if vertical { span_count(clo, chi) } else { span_count(a0, a1) },
            y0: if vertical { a0 } else { clo },
            rows: if vertical { span_count(a0, a1) } else { span_count(clo, chi) },
        }
    }

    /// Where `m` stops when it sweeps along the probe's axis from where it
    /// stands to `target`: `None` when nothing stops it. A sweep that ends at
    /// once stays where it is; otherwise the scan decides, from the plan's
    /// starting stop.
    pub open spec fn spec_sweep(&self, probe: Probe, m: BoundingRect, target: int) -> Option<int> {
        let plan = self.spec_plan(probe, m, target);
        if plan.early {
            Some(along(m, probe))
        } else {
            match self.fold_rows(probe, plan.init, plan.y0, plan.rows, plan.x0, plan.cols, m, target) {
                Scan::Blocked => Some(along(m, probe)),
                Scan::Stop(v) => Some(v),
                Scan::Clear => None,
            }
        }
    }
}

/// The cells a layer sweep scans and the stop it starts from, unless it ends
/// at once.
pub struct SweepPlan {
    pub early: bool,
    pub init: Scan,
    pub x0: int,
    pub cols: nat,
    pub y0: int,
    pub rows: nat,
}

/// Executable counterpart of `SweepPlan`.
struct Plan {
    early: bool,
    init: Reach,
    x0: usize,
    cols: usize,
    y0: usize,
    rows: usize,
}

fn sweep_step_exec(acc: Reach, s: isize, sw: isize, p: isize, pw: isize, target: isize, cross: bool) -> (r: Reach)
    requires
        coord_ok(s as int),
        coord_ok(p as int),
        coord_ok(target as int),
        0 <= sw <= COORD_LIMIT,
        0 <= pw <= COORD_LIMIT,
        !(acc is Blocked),
        reach_ok(acc, p as int, target as int),
    ensures
        reach_view(r) == sweep_step(reach_view(acc), s as int, sw as int, p as int, pw as int, target as int, cross),
        reach_ok(r, p as int, target as int),
{
    let bound = match acc {
        Reach::Stop(v) => v,
        _ => target,
    };
    if !cross {
        acc
    } else if 0 < sw && 0 < pw && p < s + sw && s < p + pw {
        Reach::Blocked
    } else if p + pw <= s && target > p {
        if s - pw < bound { Reach::Stop(s - pw) } else { acc }
    } else if p >= s + sw && target < p {
        if s + sw > bound { Reach::Stop(s + sw) } else { acc }
    } else {
        acc
    }
}

fn probe_step_exec(probe: Probe, acc: Reach, c: &BoundingRect, m: &BoundingRect, target: isize) -> (r: Reach)
    requires
        c.wf(),
        m.wf(),
        coord_ok(target as int),
        reach_ok(acc, along(*m, probe), target as int),
    ensures
        reach_view(r) == probe_step(probe, reach_view(acc),
            Area { x: c.x as int, y: c.y as int, width: c.width as int, height: c.height as int }, *m, target as int),
        reach_ok(r, along(*m, probe), target as int),
{
    if let Reach::Blocked = acc {
        return acc;
    }
    match probe {
        Probe::Overlap => if c.is_colliding(m) {
            Reach::Blocked
        } else {
            acc
        },
        Probe::SweepX => {
            let cross = 0 < c.height && 0 < m.height && m.y < c.y + c.height && c.y < m.y + m.height;
            sweep_step_exec(acc, c.x, c.width, m.x, m.width, target, cross)
        },
        Probe::SweepY => {
            let cross = 0 < c.width && 0 < m.width && m.x < c.x + c.width && c.x < m.x + m.width;
            sweep_step_exec(acc, c.y, c.height, m.y, m.height, target, cross)
        },
    }
}

/// `a / b` rounded down.
pub(crate) fn floor_div(a: isize, b: usize) -> (q: isize)
    requires
        0 < b <= MAP_LIMIT,
        -0x4000_0000 <= a <= 0x4000_0000,
    ensures
        q as int == (a as int) / (b as int),
        a >= 0 ==> 0 <= q <= a,
        a < 0 ==> a <= q < 0,
{
    if a >= 0 {
        let q = (a as usize) / b;
        assert(q <= a) by (nonlinear_arith)
            requires
                q == (a as usize) / b,
                0 < b,
                0 <= a,
        ;
        q as isize
    } else {
        let n = ((-a) as usize + b - 1) / b;
        proof {
            let ai = a as int;
            let bi = b as int;
            let num = -ai + bi - 1;
            vstd::arithmetic::div_mod::lemma_fundamental_div_mod(num, bi);
            let r = num % bi;
            assert(0 <= r < bi);
            assert(num == bi * (n as int) + r);
            assert(ai == -(n as int) * bi + (bi - 1 - r)) by (nonlinear_arith)
                requires
                    num == bi * (n as int) + r,
                    num == -ai + bi - 1,
            ;
            vstd::arithmetic::div_mod::lemma_fundamental_div_mod_converse(ai, bi, -(n as int), bi - 1 - r);
            assert(n <= -ai) by (nonlinear_arith)
                requires
                    num == bi * (n as int) + r,
                    num == -ai + bi - 1,
                    0 <= r,
                    0 < bi,
                    1 <= -ai,
            ;
        }
        -(n as isize)
    }
}

impl MapLayer {
    /// Runs the probe over the collision rectangles of cell `(x, y)`.
    #[verifier::rlimit(30)]
    fn scan_cell(&self, probe: Probe, m: &BoundingRect, target: isize, x: usize, y: usize, start: Reach) -> (r: Reach)
        requires
            self.wf(),
            m.wf(),
            coord_ok(target as int),
            x < self.width,
            y < self.height,
            reach_ok(start, along(*m, probe), target as int),
        ensures
            reach_view(r) == fold_areas(probe, reach_view(start), self.cell_areas(x as int, y as int),
                self.cell_areas(x as int, y as int).len(), *m, target as int),
            reach_ok(r, along(*m, probe), target as int),
    {
        let ghost areas = self.cell_areas(x as int, y as int);
        proof {
            lemma_cell_index(x as int, y as int, self.width as int, self.height as int);
            assert(tile_ok(self.tiles@[y * self.width + x], self.tile_width as int, self.tile_height as int));
            lemma_cell_origin(x as int, self.width as int, self.tile_width as int);
            lemma_cell_origin(y as int, self.height as int, self.tile_height as int);
        }
        let cell = self.get_tile(x, y);
        match cell {
            None => start,
            Some(tile_ref) => {
                let tile = &tile_ref.tile_set.tiles[tile_ref.tile_index];
                let origin_x = (x * self.tile_width) as isize;
                let origin_y = (y * self.tile_height) as isize;
                let mut acc = start;
                let mut k: usize = 0;
                while k < tile.collision.len()
                    invariant
                        self.wf(),
                        m.wf(),
                        coord_ok(target as int),
                        tile_ok(Some(*tile_ref), self.tile_width as int, self.tile_height as int),
                        *tile == tile_ref.tile_set.tiles@[tile_ref.tile_index as int],
                        areas == self.cell_areas(x as int, y as int),
                        self.cell(x as int, y as int) == Some(*tile_ref),
                        origin_x == x * self.tile_width,
                        origin_y == y * self.tile_height,
                        0 <= origin_x <= MAP_LIMIT,
                        0 <= origin_y <= MAP_LIMIT,
                        areas.len() == tile.collision@.len(),
                        k <= tile.collision@.len(),
                        reach_view(acc) == fold_areas(probe, reach_view(start), areas, k as nat, *m, target as int),
                        reach_ok(acc, along(*m, probe), target as int),
                    decreases tile.collision@.len() - k,
                {
                    let c = &tile.collision[k];
                    assert(local_rect_ok(tile.collision@[k as int], self.tile_width as int, self.tile_height as int));
                    let placed = BoundingRect {
                        x: origin_x + c.x,
                        y: origin_y + c.y,
                        width: c.width,
                        height: c.height,
                    };
                    acc = probe_step_exec(probe, acc, &placed, m, target);
                    k += 1;
                }
                acc
            },
        }
    }
}

impl MapLayer {
    /// Runs the probe over rows `y0 .. y0 + rows`, each over columns
    /// `x0 .. x0 + cols`.
    fn scan(&self, probe: Probe, m: &BoundingRect, target: isize, x0: usize, cols: usize, y0: usize, rows: usize, start: Reach) -> (r: Reach)
        requires
            self.wf(),
            m.wf(),
            coord_ok(target as int),
            x0 + cols <= self.width,
            y0 + rows <= self.height,
            reach_ok(start, along(*m, probe), target as int),
        ensures
            reach_view(r) == self.fold_rows(probe, reach_view(start), y0 as int, rows as nat, x0 as int, cols as nat, *m, target as int),
            reach_ok(r, along(*m, probe), target as int),
    {
        let mut acc = start;
        let mut j: usize = 0;
        while j < rows
            invariant
                self.wf(),
                m.wf(),
                coord_ok(target as int),
                x0 + cols <= self.width,
                y0 + rows <= self.height,
                j <= rows,
                reach_view(acc) == self.fold_rows(probe, reach_view(start), y0 as int, j as nat, x0 as int, cols as nat, *m, target as int),
                reach_ok(acc, along(*m, probe), target as int),
            decreases rows - j,
        {
            let ghost row_start = reach_view(acc);
            let mut i: usize = 0;
            while i < cols
                invariant
                    self.wf(),
                    m.wf(),
                    coord_ok(target as int),
                    x0 + cols <= self.width,
                    y0 + rows <= self.height,
                    j < rows,
                    i <= cols,
                    reach_view(acc) == self.fold_cols(probe, row_start, (y0 + j) as int, x0 as int, i as nat, *m, target as int),
                    reach_ok(acc, along(*m, probe), target as int),
                decreases cols - i,
            {
                acc = self.scan_cell(probe, m, target, x0 + i, y0 + j, acc);
                i += 1;
            }
            j += 1;
        }
        acc
    }

    /// Whether `rect` overlaps a collision rectangle of this layer; a
    /// rectangle not wholly inside the grid always collides.
    pub fn check_collision(&self, rect: &BoundingRect) -> (r: bool)
        requires
            self.wf(),
            rect.wf(),
        ensures
            r == self.spec_check_collision(*rect),
    {
        let x0 = floor_div(rect.x, self.tile_width);
        let x1 = floor_div(rect.x + rect.width - 1, self.tile_width);
        let y0 = floor_div(rect.y, self.tile_height);
        let y1 = floor_div(rect.y + rect.height - 1, self.tile_height);
        proof {
            lemma_grid_cells(self.width as int, self.height as int, self.tile_width as int, self.tile_height as int);
            lemma_span_cells(rect.x as int, rect.width as int, self.tile_width as int);
            lemma_span_cells(rect.y as int, rect.height as int, self.tile_height as int);
        }
        if x0 < 0 || x1 >= self.width as isize || y0 < 0 || y1 >= self.height as isize {
            return true;
        }
        let cols: usize = if x1 < x0 { 0 } else { (x1 - x0 + 1) as usize };
        let rows: usize = if y1 < y0 { 0 } else { (y1 - y0 + 1) as usize };
        let acc = self.scan(Probe::Overlap, rect, rect.x, x0 as usize, cols, y0 as usize, rows, Reach::Clear);
        acc == Reach::Blocked
    }
}

impl MapLayer {
    /// The plan of a sweep along the probe's axis.
    #[verifier::rlimit(40)]
    fn plan(&self, probe: Probe, rect: &BoundingRect, target: isize) -> (r: Plan)
        requires
            self.wf(),
            rect.wf(),
            coord_ok(target as int),
            probe != Probe::Overlap,
        ensures
            r.early == self.spec_plan(probe, *rect, target as int).early,
            !r.early ==> {
                let sp = self.spec_plan(probe, *rect, target as int);
                &&& reach_view(r.init) == sp.init
                &&& r.x0 == sp.x0
                &&& r.cols == sp.cols
                &&& r.y0 == sp.y0
                &&& r.rows == sp.rows
                &&& r.x0 + r.cols <= self.width
                &&& r.y0 + r.rows <= self.height
                &&& reach_ok(r.init, along(*rect, probe), target as int)
            },
    {
        let vertical = probe == Probe::SweepY;
        let p = if vertical { rect.y } else { rect.x };
        let len = if vertical { rect.height } else { rect.width };
        let cp = if vertical { rect.x } else { rect.y };
        let clen = if vertical { rect.width } else { rect.height };
        let ts = if vertical { self.tile_height } else { self.tile_width };
        let count = if vertical { self.height } else { self.width };
        let cts = if vertical { self.tile_width } else { self.tile_height };
        let ccount = if vertical { self.width } else { self.height };
        let low = if p <= target { p } else { target };
        let high = if p <= target { target } else { p };
        proof {
            lemma_grid_cells(self.width as int, self.height as int, self.tile_width as int, self.tile_height as int);
            lemma_span_cells(low as int, high - low + len, ts as int);
            lemma_span_cells(cp as int, clen as int, cts as int);
            lemma_floor_bounds(low as int, ts as int);
            lemma_floor_bounds(high + len - 1, ts as int);
        }
        let lo = floor_div(low, ts);
        let hi = floor_div(high + len - 1, ts);
        let clo = floor_div(cp, cts);
        let chi = floor_div(cp + clen - 1, cts);
        let extent = (count * ts) as isize;
        let none = Plan { early: true, init: Reach::Clear, x0: 0, cols: 0, y0: 0, rows: 0 };
        if clo < 0 || chi >= ccount as isize || (lo < 0 && p < 0) || (hi >= count as isize && p + len > extent) {
            return none;
        }
        proof {
            assert(hi >= count ==> hi * ts >= count * ts) by (nonlinear_arith)
                requires
                    0 < ts,
            ;
            assert(lo > count ==> lo * ts >= count * ts + ts) by (nonlinear_arith)
                requires
                    0 < ts,
            ;
            assert(lo < 0 ==> lo * ts + ts <= 0) by (nonlinear_arith)
                requires
                    0 < ts,
            ;
        }
        let init = if hi >= count as isize {
            Reach::Stop(extent - len)
        } else if lo < 0 {
            Reach::Stop(0)
        } else {
            Reach::Clear
        };
        let a0: isize = if lo < 0 { 0 } else { lo };
        let a1: isize = if hi >= count as isize { count as isize - 1 } else { hi };
        let n_along: usize = if a1 < a0 { 0 } else { (a1 - a0 + 1) as usize };
        let n_cross: usize = if chi < clo { 0 } else { (chi - clo + 1) as usize };
        if vertical {
            Plan { early: false, init, x0: clo as usize, cols: n_cross, y0: a0 as usize, rows: n_along }
        } else {
            Plan { early: false, init, x0: a0 as usize, cols: n_along, y0: clo as usize, rows: n_cross }
        }
    }

    /// Sweep along the probe's axis; shared by both axes.
    fn sweep_along(&self, probe: Probe, rect: &BoundingRect, target: isize) -> (r: Option<isize>)
        requires
            self.wf(),
            rect.wf(),
            coord_ok(target as int),
            probe != Probe::Overlap,
        ensures
            opt_int(r) == self.spec_sweep(probe, *rect, target as int),
            r matches Some(v) ==> between(v as int, along(*rect, probe), target as int),
    {
        let p = if probe == Probe::SweepY { rect.y } else { rect.x };
        let plan = self.plan(probe, rect, target);
        if plan.early {
            return Some(p);
        }
        let acc = self.scan(probe, rect, target, plan.x0, plan.cols, plan.y0, plan.rows, plan.init);
        match acc {
            Reach::Blocked => Some(p),
            Reach::Stop(v) => Some(v),
            Reach::Clear => None,
        }
    }

    /// Where `rect`, moving along x from `rect.x` to `final_x`, is stopped by
    /// this layer; `None` when it gets there unhindered.
    pub fn sweep_collision_x(&self, rect: &BoundingRect, final_x: isize) -> (r: Option<isize>)
        requires
            self.wf(),
            rect.wf(),
            coord_ok(final_x as int),
        ensures
            opt_int(r) == self.spec_sweep(Probe::SweepX, *rect, final_x as int),
            r matches Some(v) ==> between(v as int, rect.x as int, final_x as int),
    {
        self.sweep_along(Probe::SweepX, rect, final_x)
    }

    /// Where `rect`, moving along y from `rect.y` to `final_y`, is stopped by
    /// this layer; `None` when it gets there unhindered.
    pub fn sweep_collision_y(&self, rect: &BoundingRect, final_y: isize) -> (r: Option<isize>)
        requires
            self.wf(),
            rect.wf(),
            coord_ok(final_y as int),
        ensures
            opt_int(r) == self.spec_sweep(Probe::SweepY, *rect, final_y as int),
            r matches Some(v) ==> between(v as int, rect.y as int, final_y as int),
    {
        self.sweep_along(Probe::SweepY, rect, final_y)
    }
}

/// Entry for cell `(x, y)` of a row-major grid `w` cells wide.
pub open spec fn grid_at(tiles: Seq<Option<TileRef>>, w: int, x: int, y: int) -> Option<TileRef> {
    tiles[y * w + x]
}

/// A copy of a cell's content that shares the tile set.
fn copy_tile(t: &Option<TileRef>) -> (r: Option<TileRef>)
    ensures
        r == *t,
{
    match t {
        None => None,
        Some(tr) => Some(TileRef { tile_set: share(&tr.tile_set), tile_index: tr.tile_index }),
    }
}

impl MapLayer {
    /// What cell `(x, y)` holds after resizing: the old content where the old
    /// grid had that cell, else nothing.
    pub open spec fn kept_cell(&self, x: int, y: int) -> Option<TileRef> {
        if x < self.width && y < self.height { self.cell(x, y) } else { None }
    }

    /// Changes the grid size, keeping the cells that both sizes share.
    #[verifier::rlimit(30)]
    pub fn resize(&mut self, width: usize, height: usize)
        requires
            old(self).wf(),
            grid_ok(width as int, height as int, old(self).tile_width as int, old(self).tile_height as int),
        ensures
            final(self).wf(),
            final(self).width == width,
            final(self).height == height,
            final(self).tile_width == old(self).tile_width,
            final(self).tile_height == old(self).tile_height,
            final(self).tile_depth == old(self).tile_depth,
            final(self).effect == old(self).effect,
            final(self).name == old(self).name,
            final(self).id == old(self).id,
            final(self).blend_mode == old(self).blend_mode,
            final(self).alpha == old(self).alpha,
            final(self).parallax_x == old(self).parallax_x,
            final(self).parallax_y == old(self).parallax_y,
            final(self).auto_scroll_x == old(self).auto_scroll_x,
            final(self).auto_scroll_y == old(self).auto_scroll_y,
            final(self).tiles@.len() == width * height,
            forall|x: int, y: int| 0 <= x < width && 0 <= y < height ==>
                #[trigger] final(self).cell(x, y) == old(self).kept_cell(x, y),
    {
        let mut new_tiles: Vec<Option<TileRef>> = Vec::new();
        let mut y: usize = 0;
        while y < height
            invariant
                self.wf(),
                y <= height,
                new_tiles@.len() == y * width,
                forall|i: int| 0 <= i < new_tiles@.len() ==> tile_ok(#[trigger] new_tiles@[i], self.tile_width as int, self.tile_height as int),
                forall|xx: int, yy: int| 0 <= xx < width && 0 <= yy < y ==>
                    #[trigger] grid_at(new_tiles@, width as int, xx, yy) == self.kept_cell(xx, yy),
            decreases height - y,
        {
            let mut x: usize = 0;
            while x < width
                invariant
                    self.wf(),
                    y < height,
                    x <= width,
                    new_tiles@.len() == y * width + x,
                    forall|i: int| 0 <= i < new_tiles@.len() ==> tile_ok(#[trigger] new_tiles@[i], self.tile_width as int, self.tile_height as int),
                    forall|xx: int, yy: int| 0 <= xx < width && 0 <= yy < y ==>
                        #[trigger] grid_at(new_tiles@, width as int, xx, yy) == self.kept_cell(xx, yy),
                    forall|xx: int| 0 <= xx < x ==>
                        #[trigger] grid_at(new_tiles@, width as int, xx, y as int) == self.kept_cell(xx, y as int),
                decreases width - x,
            {
                let t = if x < self.width && y < self.height {
                    proof {
                        lemma_cell_index(x as int, y as int, self.width as int, self.height as int);
                        assert(tile_ok(self.tiles@[y * self.width + x], self.tile_width as int, self.tile_height as int));
                    }
                    copy_tile(self.get_tile(x, y))
                } else {
                    None
                };
                let ghost before = new_tiles@;
                new_tiles.push(t);
                proof {
                    assert forall|xx: int, yy: int| 0 <= xx < width && 0 <= yy < y implies
                        #[trigger] grid_at(new_tiles@, width as int, xx, yy) == self.kept_cell(xx, yy) by {
                        lemma_cell_before(xx, yy, x as int, y as int, width as int);
                        assert(grid_at(before, width as int, xx, yy) == self.kept_cell(xx, yy));
                    }
                    assert forall|xx: int| 0 <= xx < x + 1 implies
                        #[trigger] grid_at(new_tiles@, width as int, xx, y as int) == self.kept_cell(xx, y as int) by {
                        if xx < x {
                            assert(grid_at(before, width as int, xx, y as int) == self.kept_cell(xx, y as int));
                        }
                    }
                    assert forall|i: int| 0 <= i < new_tiles@.len() implies tile_ok(#[trigger] new_tiles@[i], self.tile_width as int, self.tile_height as int) by {
                        if i < before.len() {
                            assert(tile_ok(before[i], self.tile_width as int, self.tile_height as int));
                        }
                    }
                }
                x += 1;
            }
            proof {
                assert((y + 1) * width == y * width + width) by (nonlinear_arith);
                assert forall|xx: int, yy: int| 0 <= xx < width && 0 <= yy < y + 1 implies
                    #[trigger] grid_at(new_tiles@, width as int, xx, yy) == self.kept_cell(xx, yy) by {
                    if yy == y {
                        assert(grid_at(new_tiles@, width as int, xx, y as int) == self.kept_cell(xx, y as int));
                    }
                }
            }
            y += 1;
        }
        let ghost old_layer = *self;
        self.width = width;
        self.height = height;
        self.tiles = new_tiles;
        proof {
            assert(height * width == width * height) by (nonlinear_arith);
            assert forall|x: int, y: int| 0 <= x < width && 0 <= y < height implies
                #[trigger] self.cell(x, y) == old_layer.kept_cell(x, y) by {
                assert(grid_at(self.tiles@, width as int, x, y) == old_layer.kept_cell(x, y));
            }
        }
    }
}

/// A stack of layers; only layers that are not effect layers take part in
/// collision.
pub struct TileMap {
    pub name: String,
    pub id: String,
    pub background_color: u32,
    pub layers: Vec<Rc<MapLayer>>,
    pub main_layer: Option<usize>,
    /// where the map's actors start
    pub actors: Vec<MapActor>,
}

/// An actor of a map as stored: its place in tiles, and its size in pixels
/// if given.
pub struct RawMapActor {
    pub x: isize,
    pub y: isize,
    pub width: Option<isize>,
    pub height: Option<isize>,
    pub kind: String,
}

/// An actor of a map, placed in world pixels.
pub struct MapActor {
    pub x: isize,
    pub y: isize,
    pub width: isize,
    pub height: isize,
    pub actor_type: String,
}

/// A stored actor can be placed with tiles of the given size.
pub open spec fn placement_ok(raw: RawMapActor, tile_width: int, tile_height: int) -> bool {
    &&& isize::MIN <= raw.x * tile_width <= isize::MAX
    &&& isize::MIN <= raw.y * tile_height <= isize::MAX
}

/// `a` is `raw` placed with tiles of the given size: its tile position
/// scaled to pixels, its size 1 by 1 where none is given.
pub open spec fn placed_as(a: MapActor, raw: RawMapActor, tile_width: int, tile_height: int) -> bool {
    &&& a.x == raw.x * tile_width
    &&& a.y == raw.y * tile_height
    &&& a.width == match raw.width {
        Some(w) => w,
        None => 1,
    }
    &&& a.height == match raw.height {
        Some(h) => h,
        None => 1,
    }
    &&& a.actor_type == raw.kind
}

/// The product of an `isize` and a `usize` fits in an `i128`.
pub proof fn lemma_product_fits(a: int, b: int)
    requires
        isize::MIN <= a <= isize::MAX,
        0 <= b <= usize::MAX,
    ensures
        i128::MIN <= a * b <= i128::MAX,
{
    assert(-0x8000_0000_0000_0000 <= a <= 0x7fff_ffff_ffff_ffff);
    assert(0 <= b <= 0xffff_ffff_ffff_ffff);
    assert(-0x8000_0000_0000_0000 * 0xffff_ffff_ffff_ffff <= a * b <= 0x7fff_ffff_ffff_ffff * 0xffff_ffff_ffff_ffff)
        by (nonlinear_arith)
        requires
            -0x8000_0000_0000_0000 <= a <= 0x7fff_ffff_ffff_ffff,
            0 <= b <= 0xffff_ffff_ffff_ffff,
    ;
}

impl MapActor {
    /// Places a stored actor with tiles of the given size; `None` when the
    /// pixel position would not fit in `isize`.
    pub fn place(raw: RawMapActor, tile_width: usize, tile_height: usize) -> (r: Option<MapActor>)
        ensures
            r is Some <==> placement_ok(raw, tile_width as int, tile_height as int),
            r matches Some(a) ==> placed_as(a, raw, tile_width as int, tile_height as int),
    {
        proof {
            lemma_product_fits(raw.x as int, tile_width as int);
            lemma_product_fits(raw.y as int, tile_height as int);
        }
        let x = raw.x as i128 * tile_width as i128;
        let y = raw.y as i128 * tile_height as i128;
        if x < isize::MIN as i128 || x > isize::MAX as i128 || y < isize::MIN as i128 || y > isize::MAX as i128 {
            return None;
        }
        let width = match raw.width {
            Some(w) => w,
            None => 1,
        };
        let height = match raw.height {
            Some(h) => h,
            None => 1,
        };
        Some(MapActor { x: x as isize, y: y as isize, width, height, actor_type: raw.kind })
    }
}

/// The running result of a sweep over the first `n` layers: each collision
/// layer sweeps towards the stop found so far, so later layers can only
/// shorten the move.
pub open spec fn layers_sweep(layers: Seq<Rc<MapLayer>>, n: nat, probe: Probe, m: BoundingRect, target: int) -> Option<int>
    decreases n,
{
    if n == 0 {
        None
    } else {
        let prev = layers_sweep(layers, (n - 1) as nat, probe, m, target);
        let bound = match prev {
            Some(v) => v,
            None => target,
        };
        let layer = layers[n - 1];
        if layer.effect {
            prev
        } else {
            match layer.spec_sweep(probe, m, bound) {
                Some(v) => Some(v),
                None => prev,
            }
        }
    }
}

impl TileMap {
    pub open spec fn wf(&self) -> bool {
        forall|i: int| 0 <= i < self.layers@.len() ==> (#[trigger] self.layers@[i]).wf()
    }

    /// Whether `m` collides on some collision layer.
    pub open spec fn spec_check_collision(&self, m: BoundingRect) -> bool {
        exists|i: int| 0 <= i < self.layers@.len() && !self.layers@[i].effect
            && (#[trigger] self.layers@[i]).spec_check_collision(m)
    }

    /// Where `m` stops when it moves along the probe's axis to `target`;
    /// `None` when it does not move on that axis or nothing stops it.
    pub open spec fn spec_sweep(&self, probe: Probe, m: BoundingRect, target: int) -> Option<int> {
        if along(m, probe) == target {
            None
        } else {
            layers_sweep(self.layers@, self.layers@.len(), probe, m, target)
        }
    }

    /// An empty map built at run time.
    pub fn new(name: &str) -> (r: TileMap)
        ensures
            r.wf(),
            r.name@ == name@,
            r.id@ == RUNTIME_ASSET@,
            r.background_color == 0,
            r.layers@.len() == 0,
            r.main_layer is None,
            r.actors@.len() == 0,
    {
        TileMap {
            name: name.to_owned(),
            id: RUNTIME_ASSET.to_owned(),
            background_color: 0,
            layers: Vec::new(),
            main_layer: None,
            actors: Vec::new(),
        }
    }

    /// The pixel extent of the first collision layer.
    pub fn bounds(&self) -> (r: Option<BoundingRect>)
        requires
            self.wf(),
        ensures
            r is None <==> (forall|i: int| 0 <= i < self.layers@.len() ==> (#[trigger] self.layers@[i]).effect),
            r matches Some(b) ==> exists|i: int| 0 <= i < self.layers@.len()
                && !(#[trigger] self.layers@[i]).effect
                && (forall|j: int| 0 <= j < i ==> self.layers@[j].effect)
                && b == (BoundingRect {
                    x: 0,
                    y: 0,
                    width: (self.layers@[i].width * self.layers@[i].tile_width) as isize,
                    height: (self.layers@[i].height * self.layers@[i].tile_height) as isize,
                }),
    {
        let mut i: usize = 0;
        while i < self.layers.len()
            invariant
                self.wf(),
                i <= self.layers@.len(),
                forall|j: int| 0 <= j < i ==> (#[trigger] self.layers@[j]).effect,
            decreases self.layers@.len() - i,
        {
            let layer = &self.layers[i];
            if !layer.effect {
                assert(self.layers@[i as int].wf());
                let b = BoundingRect {
                    x: 0,
                    y: 0,
                    width: (layer.width * layer.tile_width) as isize,
                    height: (layer.height * layer.tile_height) as isize,
                };
                return Some(b);
            }
            i += 1;
        }
        None
    }

    /// Whether `rect` collides on some collision layer; a rectangle outside a
    /// layer's grid collides on that layer.
    pub fn check_collision(&self, rect: &BoundingRect) -> (r: bool)
        requires
            self.wf(),
            rect.wf(),
        ensures
            r == self.spec_check_collision(*rect),
    {
        let mut i: usize = 0;
        while i < self.layers.len()
            invariant
                self.wf(),
                rect.wf(),
                i <= self.layers@.len(),
                forall|j: int| 0 <= j < i ==> (#[trigger] self.layers@[j]).effect
                    || !self.layers@[j].spec_check_collision(*rect),
            decreases self.layers@.len() - i,
        {
            let layer = &self.layers[i];
            assert(self.layers@[i as int].wf());
            if !layer.effect && layer.check_collision(rect) {
                return true;
            }
            i += 1;
        }
        false
    }

    fn sweep_along(&self, probe: Probe, rect: &BoundingRect, target: isize) -> (r: Option<isize>)
        requires
            self.wf(),
            rect.wf(),
            coord_ok(target as int),
            probe != Probe::Overlap,
        ensures
            opt_int(r) == self.spec_sweep(probe, *rect, target as int),
            r matches Some(v) ==> between(v as int, along(*rect, probe), target as int),
    {
        let p = if probe == Probe::SweepY { rect.y } else { rect.x };
        if p == target {
            return None;
        }
        let mut collision: Option<isize> = None;
        let mut revised = target;
        let mut i: usize = 0;
        while i < self.layers.len()
            invariant
                self.wf(),
                rect.wf(),
                coord_ok(target as int),
                probe != Probe::Overlap,
                p == along(*rect, probe),
                i <= self.layers@.len(),
                opt_int(collision) == layers_sweep(self.layers@, i as nat, probe, *rect, target as int),
                revised == match collision {
                    Some(v) => v,
                    None => target,
                },
                between(revised as int, p as int, target as int),
            decreases self.layers@.len() - i,
        {
            let layer = &self.layers[i];
            assert(self.layers@[i as int].wf());
            if !layer.effect {
                if let Some(v) = layer.sweep_along(probe, rect, revised) {
                    revised = v;
                    collision = Some(v);
                }
            }
            i += 1;
        }
        collision
    }

    /// Where `rect`, moving along x to `final_x`, is stopped by the collision
    /// layers; `None` when it does not move or nothing stops it.
    pub fn sweep_collision_x(&self, rect: &BoundingRect, final_x: isize) -> (r: Option<isize>)
        requires
            self.wf(),
            rect.wf(),
            coord_ok(final_x as int),
        ensures
            opt_int(r) == self.spec_sweep(Probe::SweepX, *rect, final_x as int),
            r matches Some(v) ==> between(v as int, rect.x as int, final_x as int),
    {
        self.sweep_along(Probe::SweepX, rect, final_x)
    }

    /// Where `rect`, moving along y to `final_y`, is stopped by the collision
    /// layers; `None` when it does not move or nothing stops it.
    pub fn sweep_collision_y(&self, rect: &BoundingRect, final_y: isize) -> (r: Option<isize>)
        requires
            self.wf(),
            rect.wf(),
            coord_ok(final_y as int),
        ensures
            opt_int(r) == self.spec_sweep(Probe::SweepY, *rect, final_y as int),
            r matches Some(v) ==> between(v as int, rect.y as int, final_y as int),
    {
        self.sweep_along(Probe::SweepY, rect, final_y)
    }
}

fn local_rect_valid(c: &BoundingRect, tile_width: usize, tile_height: usize) -> (r: bool)
    requires
        tile_width <= MAP_LIMIT,
        tile_height <= MAP_LIMIT,
    ensures
        r == local_rect_ok(*c, tile_width as int, tile_height as int),
{
    let tw = tile_width as isize;
    let th = tile_height as isize;
    0 <= c.x && 0 <= c.y && 0 <= c.width && 0 <= c.height && c.x <= tw && c.width <= tw - c.x
        && c.y <= th && c.height <= th - c.y
}

fn tile_valid(t: &Option<TileRef>, tile_width: usize, tile_height: usize) -> (r: bool)
    requires
        tile_width <= MAP_LIMIT,
        tile_height <= MAP_LIMIT,
    ensures
        r == tile_ok(*t, tile_width as int, tile_height as int),
{
    match t {
        None => true,
        Some(tr) => {
            if tr.tile_index >= tr.tile_set.tiles.len() {
                return false;
            }
            let rects = &tr.tile_set.tiles[tr.tile_index].collision;
            let mut k: usize = 0;
            while k < rects.len()
                invariant
                    tile_width <= MAP_LIMIT,
                    tile_height <= MAP_LIMIT,
                    *t == Some(*tr),
                    tr.tile_index < tr.tile_set.tiles@.len(),
                    *rects == tr.tile_set.tiles@[tr.tile_index as int].collision,
                    k <= rects@.len(),
                    forall|q: int| 0 <= q < k ==> local_rect_ok(#[trigger] rects@[q], tile_width as int, tile_height as int),
                decreases rects@.len() - k,
            {
                if !local_rect_valid(&rects[k], tile_width, tile_height) {
                    assert(!local_rect_ok(tr.tile_set.tiles@[tr.tile_index as int].collision@[k as int], tile_width as int, tile_height as int));
                    return false;
                }
                k += 1;
            }
            true
        },
    }
}

impl MapLayer {
    /// Whether the layer is well formed.
    pub fn is_valid(&self) -> (r: bool)
        ensures
            r == self.wf(),
    {
        if self.tile_width == 0 || self.tile_width > MAP_LIMIT || self.tile_height == 0 || self.tile_height > MAP_LIMIT {
            return false;
        }
        if self.width > MAP_LIMIT / self.tile_width || self.height > MAP_LIMIT / self.tile_height {
            proof {
                assert(self.width > MAP_LIMIT / self.tile_width ==> self.width * self.tile_width > MAP_LIMIT) by (nonlinear_arith)
                    requires
                        self.tile_width > 0,
                ;
                assert(self.height > MAP_LIMIT / self.tile_height ==> self.height * self.tile_height > MAP_LIMIT) by (nonlinear_arith)
                    requires
                        self.tile_height > 0,
                ;
            }
            return false;
        }
        proof {
            assert(self.width * self.tile_width <= MAP_LIMIT) by (nonlinear_arith)
                requires
                    self.width <= MAP_LIMIT / self.tile_width,
                    self.tile_width > 0,
            ;
            assert(self.height * self.tile_height <= MAP_LIMIT) by (nonlinear_arith)
                requires
                    self.height <= MAP_LIMIT / self.tile_height,
                    self.tile_height > 0,
            ;
        }
        let cells = match self.width.checked_mul(self.height) {
            Some(c) => c,
            None => return false,
        };
        if self.tiles.len() != cells {
            return false;
        }
        let mut i: usize = 0;
        while i < self.tiles.len()
            invariant
                self.tile_width <= MAP_LIMIT,
                self.tile_height <= MAP_LIMIT,
                i <= self.tiles@.len(),
                forall|j: int| 0 <= j < i ==> tile_ok(#[trigger] self.tiles@[j], self.tile_width as int, self.tile_height as int),
            decreases self.tiles@.len() - i,
        {
            if !tile_valid(&self.tiles[i], self.tile_width, self.tile_height) {
                return false;
            }
            i += 1;
        }
        true
    }
}

impl TileMap {
    /// Whether every layer is well formed.
    pub fn is_valid(&self) -> (r: bool)
        ensures
            r == self.wf(),
    {
        let mut i: usize = 0;
        while i < self.layers.len()
            invariant
                i <= self.layers@.len(),
                forall|j: int| 0 <= j < i ==> (#[trigger] self.layers@[j]).wf(),
            decreases self.layers@.len() - i,
        {
            if !self.layers[i].is_valid() {
                return false;
            }
            i += 1;
        }
        true
    }
}

/// Why a stored map layer was rejected.
#[derive(Clone, Copy, Debug, PartialEq, Eq, Structural)]
pub enum MapError {
    InvalidBlendMode,
    /// a normal layer where an effect layer was expected
    NotEffectLayer,
    /// an effect layer where a normal layer was expected
    EffectLayerAsNormal,
    /// parallax or automatic scrolling on a layer that is not an effect layer
    ScrollingNonEffect,
    /// grid or tile size out of range
    InvalidGeometry,
    /// number of cells other than width times height
    TileCount,
    /// a tile set whose tile size or depth differs from the layer's
    TileSetMismatch,
    /// a cell naming a tile set the layer does not list
    InvalidTileSetReference,
    /// a cell that is neither empty nor a (tile set, tile) pair
    InvalidTileFormat,
    /// a cell naming a tile that does not exist or collides out of range
    InvalidTile,
    /// a main layer that is not one of the map's layers
    InvalidMainLayer,
    /// an actor placed beyond the coordinate range
    ActorOutOfRange,
}

/// A map layer as stored, with its tile sets already looked up.
pub struct RawMapLayer {
    pub name: String,
    pub id: String,
    pub width: usize,
    pub height: usize,
    pub tile_width: usize,
    pub tile_height: usize,
    pub tile_depth: usize,
    pub tile_sets: Vec<Rc<TileSet>>,
    pub tiles: Vec<Vec<usize>>,
    pub effect: bool,
    pub blend: u32,
    pub alpha: u8,
    pub parallax_x: i16,
    pub parallax_y: i16,
    pub auto_scroll_x: i16,
    pub auto_scroll_y: i16,
}

pub open spec fn blend_of(blend: u32) -> Option<BlendMode> {
    if blend == 0 {
        Some(BlendMode::Normal)
    } else if blend == 1 {
        Some(BlendMode::Add)
    } else if blend == 2 {
        Some(BlendMode::Subtract)
    } else if blend == 3 {
        Some(BlendMode::Multiply)
    } else {
        None
    }
}

/// The first of the first `n` tile sets whose format differs from the layer's.
pub open spec fn tile_sets_error(raw: RawMapLayer, n: nat) -> Option<MapError>
    decreases n,
{
    if n == 0 {
        None
    } else {
        match tile_sets_error(raw, (n - 1) as nat) {
            Some(e) => Some(e),
            None => {
                let t = raw.tile_sets@[n - 1];
                if t.width != raw.tile_width || t.height != raw.tile_height || t.depth != raw.tile_depth {
                    Some(MapError::TileSetMismatch)
                } else {
                    None
                }
            },
        }
    }
}

/// What a stored cell holds, if it is well formed.
pub open spec fn cell_of(raw: RawMapLayer, cell: Seq<usize>) -> Result<Option<TileRef>, MapError> {
    if cell.len() == 0 {
        Ok(None)
    } else if cell.len() == 2 {
        if cell[0] >= raw.tile_sets@.len() {
            Err(MapError::InvalidTileSetReference)
        } else {
            let t = Some(TileRef { tile_set: raw.tile_sets@[cell[0] as int], tile_index: cell[1] });
            if tile_ok(t, raw.tile_width as int, raw.tile_height as int) { Ok(t) } else { Err(MapError::InvalidTile) }
        }
    } else {
        Err(MapError::InvalidTileFormat)
    }
}

/// The first problem among the first `n` stored cells.
pub open spec fn cells_error(raw: RawMapLayer, n: nat) -> Option<MapError>
    decreases n,
{
    if n == 0 {
        None
    } else {
        match cells_error(raw, (n - 1) as nat) {
            Some(e) => Some(e),
            None => match cell_of(raw, raw.tiles@[n - 1]@) {
                Err(e) => Some(e),
                Ok(_) => None,
            },
        }
    }
}

/// The checks on a stored layer that come before its tile sets and cells.
pub open spec fn header_ok(raw: RawMapLayer, effect: bool) -> bool {
    &&& blend_of(raw.blend) is Some
    &&& effect == raw.effect
    &&& (!raw.effect ==> raw.parallax_x == 0x100 && raw.parallax_y == 0x100 && raw.auto_scroll_x == 0
        && raw.auto_scroll_y == 0)
    &&& grid_ok(raw.width as int, raw.height as int, raw.tile_width as int, raw.tile_height as int)
    &&& raw.tiles@.len() == raw.width * raw.height
}

/// The first problem with a stored layer loaded as an effect layer or not.
pub open spec fn layer_error(raw: RawMapLayer, effect: bool) -> Option<MapError> {
    if blend_of(raw.blend) is None {
        Some(MapError::InvalidBlendMode)
    } else if effect && !raw.effect {
        Some(MapError::NotEffectLayer)
    } else if !effect && raw.effect {
        Some(MapError::EffectLayerAsNormal)
    } else if !raw.effect && (raw.parallax_x != 0x100 || raw.parallax_y != 0x100
        || raw.auto_scroll_x != 0 || raw.auto_scroll_y != 0) {
        Some(MapError::ScrollingNonEffect)
    } else if !grid_ok(raw.width as int, raw.height as int, raw.tile_width as int, raw.tile_height as int) {
        Some(MapError::InvalidGeometry)
    } else if raw.tiles@.len() != raw.width * raw.height {
        Some(MapError::TileCount)
    } else if tile_sets_error(raw, raw.tile_sets@.len()) is Some {
        tile_sets_error(raw, raw.tile_sets@.len())
    } else {
        cells_error(raw, raw.tiles@.len())
    }
}

pub proof fn lemma_cells_error_stays(raw: RawMapLayer, k: nat, n: nat)
    requires
        k <= n,
        cells_error(raw, k) is Some,
    ensures
        cells_error(raw, n) == cells_error(raw, k),
    decreases n,
{
    if n > k {
        lemma_cells_error_stays(raw, k, (n - 1) as nat);
    }
}

pub proof fn lemma_tile_sets_error_stays(raw: RawMapLayer, k: nat, n: nat)
    requires
        k <= n,
        tile_sets_error(raw, k) is Some,
    ensures
        tile_sets_error(raw, n) == tile_sets_error(raw, k),
    decreases n,
{
    if n > k {
        lemma_tile_sets_error_stays(raw, k, (n - 1) as nat);
    }
}

fn grid_valid(width: usize, height: usize, tile_width: usize, tile_height: usize) -> (r: bool)
    ensures
        r == grid_ok(width as int, height as int, tile_width as int, tile_height as int),
{
    if tile_width == 0 || tile_width > MAP_LIMIT || tile_height == 0 || tile_height > MAP_LIMIT {
        return false;
    }
    proof {
        assert(width > MAP_LIMIT / tile_width ==> width * tile_width > MAP_LIMIT) by (nonlinear_arith)
            requires
                tile_width > 0,
        ;
        assert(height > MAP_LIMIT / tile_height ==> height * tile_height > MAP_LIMIT) by (nonlinear_arith)
            requires
                tile_height > 0,
        ;
        assert(width <= MAP_LIMIT / tile_width ==> width * tile_width <= MAP_LIMIT) by (nonlinear_arith)
            requires
                tile_width > 0,
        ;
        assert(height <= MAP_LIMIT / tile_height ==> height * tile_height <= MAP_LIMIT) by (nonlinear_arith)
            requires
                tile_height > 0,
        ;
    }
    if width > MAP_LIMIT / tile_width || height > MAP_LIMIT / tile_height {
        return false;
    }
    width.checked_mul(height).is_some()
}

impl MapLayer {
    /// Builds a layer from stored data, checking it; the first problem found
    /// is returned. `effect` tells whether an effect layer is expected.
    #[verifier::rlimit(30)]
    pub fn from_raw(raw: RawMapLayer, effect: bool) -> (r: Result<MapLayer, MapError>)
        ensures
            r is Err <==> layer_error(raw, effect) is Some,
            r matches Err(e) ==> layer_error(raw, effect) == Some(e),
            r matches Ok(layer) ==> {
                &&& layer.wf()
                &&& layer.name == raw.name
                &&& layer.id == raw.id
                &&& layer.width == raw.width
                &&& layer.height == raw.height
                &&& layer.tile_width == raw.tile_width
                &&& layer.tile_height == raw.tile_height
                &&& layer.tile_depth == raw.tile_depth
                &&& layer.effect == raw.effect
                &&& Some(layer.blend_mode) == blend_of(raw.blend)
                &&& layer.alpha == raw.alpha
                &&& layer.parallax_x == raw.parallax_x
                &&& layer.parallax_y == raw.parallax_y
                &&& layer.auto_scroll_x == raw.auto_scroll_x
                &&& layer.auto_scroll_y == raw.auto_scroll_y
                &&& forall|i: int| 0 <= i < raw.tiles@.len() ==>
                    cell_of(raw, (#[trigger] raw.tiles@[i])@) == Ok::<Option<TileRef>, MapError>(layer.tiles@[i])
            },
    {
        let blend_mode = if raw.blend == 0 {
            BlendMode::Normal
        } else if raw.blend == 1 {
            BlendMode::Add
        } else if raw.blend == 2 {
            BlendMode::Subtract
        } else if raw.blend == 3 {
            BlendMode::Multiply
        } else {
            return Err(MapError::InvalidBlendMode);
        };
        if effect && !raw.effect {
            return Err(MapError::NotEffectLayer);
        }
        if !effect && raw.effect {
            return Err(MapError::EffectLayerAsNormal);
        }
        if !raw.effect && (raw.parallax_x != 0x100 || raw.parallax_y != 0x100 || raw.auto_scroll_x != 0
            || raw.auto_scroll_y != 0) {
            return Err(MapError::ScrollingNonEffect);
        }
        if !grid_valid(raw.width, raw.height, raw.tile_width, raw.tile_height) {
            return Err(MapError::InvalidGeometry);
        }
        if raw.tiles.len() != raw.width * raw.height {
            return Err(MapError::TileCount);
        }
        let mut k: usize = 0;
        while k < raw.tile_sets.len()
            invariant
                header_ok(raw, effect),
                k <= raw.tile_sets@.len(),
                tile_sets_error(raw, k as nat) is None,
            decreases raw.tile_sets@.len() - k,
        {
            let t = &raw.tile_sets[k];
            if t.width != raw.tile_width || t.height != raw.tile_height || t.depth != raw.tile_depth {
                proof {
                    lemma_tile_sets_error_stays(raw, (k + 1) as nat, raw.tile_sets@.len());
                }
                return Err(MapError::TileSetMismatch);
            }
            k += 1;
        }
        let mut tiles: Vec<Option<TileRef>> = Vec::new();
        let mut i: usize = 0;
        while i < raw.tiles.len()
            invariant
                header_ok(raw, effect),
                tile_sets_error(raw, raw.tile_sets@.len()) is None,
                i <= raw.tiles@.len(),
                tiles@.len() == i,
                cells_error(raw, i as nat) is None,
                forall|j: int| 0 <= j < i ==>
                    cell_of(raw, (#[trigger] raw.tiles@[j])@) == Ok::<Option<TileRef>, MapError>(tiles@[j]),
            decreases raw.tiles@.len() - i,
        {
            let cell = &raw.tiles[i];
            let t = if cell.len() == 0 {
                None
            } else if cell.len() == 2 {
                if cell[0] >= raw.tile_sets.len() {
                    proof {
                        lemma_cells_error_stays(raw, (i + 1) as nat, raw.tiles@.len());
                    }
                    return Err(MapError::InvalidTileSetReference);
                }
                let t = Some(TileRef { tile_set: share(&raw.tile_sets[cell[0]]), tile_index: cell[1] });
                if !tile_valid(&t, raw.tile_width, raw.tile_height) {
                    proof {
                        lemma_cells_error_stays(raw, (i + 1) as nat, raw.tiles@.len());
                    }
                    return Err(MapError::InvalidTile);
                }
                t
            } else {
                proof {
                    lemma_cells_error_stays(raw, (i + 1) as nat, raw.tiles@.len());
                }
                return Err(MapError::InvalidTileFormat);
            };
            tiles.push(t);
            i += 1;
        }
        proof {
            assert forall|j: int| 0 <= j < tiles@.len() implies tile_ok(#[trigger] tiles@[j], raw.tile_width as int, raw.tile_height as int) by {
                assert(cell_of(raw, raw.tiles@[j]@) == Ok::<Option<TileRef>, MapError>(tiles@[j]));
            }
        }
        let RawMapLayer {
            name, id, width, height, tile_width, tile_height, tile_depth, tile_sets: _, tiles: _, effect: is_effect,
            blend: _, alpha, parallax_x, parallax_y, auto_scroll_x, auto_scroll_y,
        } = raw;
        Ok(MapLayer {
            name,
            id,
            width,
            height,
            tile_width,
            tile_height,
            tile_depth,
            tiles,
            effect: is_effect,
            blend_mode,
            alpha,
            parallax_x,
            parallax_y,
            auto_scroll_x,
            auto_scroll_y,
        })
    }
}

impl TileMap {
    /// Assembles a map from its layers, bottom first, and its actors;
    /// `main_layer` is the layer that actors are drawn with and whose tile size
    /// places them, and the background colour is given in 15-bit form.
    pub fn from_layers(name: String, id: String, background_color: u16, layers: Vec<Rc<MapLayer>>, main_layer: isize,
        actors: Vec<RawMapActor>) -> (r: Result<TileMap, MapError>)
        ensures
            r matches Err(e) ==> e == if main_layer < 0 || main_layer >= layers@.len() {
                MapError::InvalidMainLayer
            } else if exists|i: int| 0 <= i < layers@.len() && !(#[trigger] layers@[i]).wf() {
                MapError::InvalidGeometry
            } else {
                MapError::ActorOutOfRange
            },
            r is Err <==> (main_layer < 0 || main_layer >= layers@.len()
                || (exists|i: int| 0 <= i < layers@.len() && !(#[trigger] layers@[i]).wf())
                || (exists|i: int| 0 <= i < actors@.len() && !placement_ok(#[trigger] actors@[i],
                    layers@[main_layer as int].tile_width as int, layers@[main_layer as int].tile_height as int))),
            r matches Ok(m) ==> {
                &&& m.wf()
                &&& m.name == name
                &&& m.id == id
                &&& m.background_color as int == crate::palette::spec_convert_color(background_color)
                &&& m.layers == layers
                &&& m.main_layer == Some(main_layer as usize)
                &&& m.actors@.len() == actors@.len()
                &&& forall|i: int| 0 <= i < actors@.len() ==> placed_as(#[trigger] m.actors@[i], actors@[i],
                    layers@[main_layer as int].tile_width as int, layers@[main_layer as int].tile_height as int)
            },
    {
        if main_layer < 0 || main_layer as usize >= layers.len() {
            return Err(MapError::InvalidMainLayer);
        }
        let tile_width = layers[main_layer as usize].tile_width;
        let tile_height = layers[main_layer as usize].tile_height;
        let mut map = TileMap {
            name,
            id,
            background_color: crate::palette::Palette::convert_color(background_color),
            layers,
            main_layer: Some(main_layer as usize),
            actors: Vec::new(),
        };
        if !map.is_valid() {
            return Err(MapError::InvalidGeometry);
        }
        assert(forall|i: int| 0 <= i < map.layers@.len() ==> (#[trigger] map.layers@[i]).wf());
        assert(map.layers@ == layers@);
        let mut pending = actors;
        let ghost all = pending@;
        let n = pending.len();
        let mut i: usize = 0;
        while pending.len() > 0
            invariant
                all == actors@,
                n == all.len(),
                i <= n,
                pending@ == all.subrange(i as int, n as int),
                map.actors@.len() == i,
                map.wf(),
                map.layers@ == layers@,
                map.name == name,
                map.id == id,
                map.main_layer == Some(main_layer as usize),
                0 <= main_layer < layers@.len(),
                map.background_color as int == crate::palette::spec_convert_color(background_color),
                map.layers == layers,
                tile_width == layers@[main_layer as int].tile_width,
                tile_height == layers@[main_layer as int].tile_height,
                forall|k: int| 0 <= k < i ==> placed_as(#[trigger] map.actors@[k], all[k], tile_width as int, tile_height as int),
                forall|k: int| 0 <= k < i ==> placement_ok(#[trigger] all[k], tile_width as int, tile_height as int),
            decreases pending@.len(),
        {
            let raw = pending.remove(0);
            assert(raw == all[i as int]);
            match MapActor::place(raw, tile_width, tile_height) {
                Some(a) => map.actors.push(a),
                None => {
                    assert(!(exists|j: int| 0 <= j < layers@.len() && !(#[trigger] layers@[j]).wf()));
                    return Err(MapError::ActorOutOfRange);
                },
            }
            i += 1;
        }
        Ok(map)
    }
}

/// The furthest a sweep may still go: the stop found so far, or the
/// destination.
pub open spec fn scan_bound(acc: Scan, target: int) -> int {
    match acc {
        Scan::Stop(v) => v,
        _ => target,
    }
}

/// Area `c` is clear of `m` moved to `pos` along the probe's axis.
pub open spec fn clear_at(c: Area, m: BoundingRect, probe: Probe, pos: int) -> bool {
    if probe == Probe::SweepY {
        !(spans_overlap(c.y, c.height, pos, m.height as int) && spans_overlap(c.x, c.width, m.x as int, m.width as int))
    } else {
        !(spans_overlap(c.x, c.width, pos, m.width as int) && spans_overlap(c.y, c.height, m.y as int, m.height as int))
    }
}

/// Unless the scan is blocked, area `c` is clear of `m` at every position
/// from the start to the scan's bound.
pub open spec fn clear_way(acc: Scan, c: Area, m: BoundingRect, probe: Probe, target: int) -> bool {
    acc is Blocked || forall|pos: int| between(pos, along(m, probe), scan_bound(acc, target))
        ==> #[trigger] clear_at(c, m, probe, pos)
}

/// The scan's bound lies between the start and the destination.
pub open spec fn bound_ok(acc: Scan, m: BoundingRect, probe: Probe, target: int) -> bool {
    acc matches Scan::Stop(v) ==> between(v, along(m, probe), target)
}

/// One step keeps every earlier area clear of the shorter way, and leaves
/// the new area clear of it too.
proof fn lemma_step_clear(probe: Probe, acc: Scan, d: Area, m: BoundingRect, target: int)
    requires
        probe != Probe::Overlap,
        bound_ok(acc, m, probe, target),
    ensures
        bound_ok(probe_step(probe, acc, d, m, target), m, probe, target),
        clear_way(probe_step(probe, acc, d, m, target), d, m, probe, target),
        forall|c: Area| clear_way(acc, c, m, probe, target)
            ==> #[trigger] clear_way(probe_step(probe, acc, d, m, target), c, m, probe, target),
{
    let next = probe_step(probe, acc, d, m, target);
    let p = along(m, probe);
    if !(next is Blocked) {
        assert(!(acc is Blocked));
        assert(between(scan_bound(next, target), p, scan_bound(acc, target)));
        assert forall|pos: int| between(pos, p, scan_bound(next, target)) implies #[trigger] clear_at(d, m, probe, pos) by {
        }
        assert forall|c: Area| clear_way(acc, c, m, probe, target)
            implies #[trigger] clear_way(next, c, m, probe, target) by {
            assert forall|pos: int| between(pos, p, scan_bound(next, target)) implies #[trigger] clear_at(c, m, probe, pos) by {
                assert(between(pos, p, scan_bound(acc, target)));
            }
        }
    }
}

proof fn lemma_fold_areas_clear(probe: Probe, acc: Scan, areas: Seq<Area>, n: nat, m: BoundingRect, target: int)
    requires
        probe != Probe::Overlap,
        bound_ok(acc, m, probe, target),
        n <= areas.len(),
    ensures
        bound_ok(fold_areas(probe, acc, areas, n, m, target), m, probe, target),
        forall|k: int| 0 <= k < n ==> clear_way(fold_areas(probe, acc, areas, n, m, target), #[trigger] areas[k], m, probe, target),
        forall|c: Area| clear_way(acc, c, m, probe, target)
            ==> #[trigger] clear_way(fold_areas(probe, acc, areas, n, m, target), c, m, probe, target),
    decreases n,
{
    if n > 0 {
        let prev = fold_areas(probe, acc, areas, (n - 1) as nat, m, target);
        lemma_fold_areas_clear(probe, acc, areas, (n - 1) as nat, m, target);
        lemma_step_clear(probe, prev, areas[n - 1], m, target);
    }
}

impl MapLayer {
    proof fn lemma_fold_cols_clear(&self, probe: Probe, acc: Scan, y: int, x0: int, n: nat, m: BoundingRect, target: int)
        requires
            probe != Probe::Overlap,
            bound_ok(acc, m, probe, target),
        ensures
            bound_ok(self.fold_cols(probe, acc, y, x0, n, m, target), m, probe, target),
            forall|t: int, k: int| 0 <= t < n && 0 <= k < self.cell_areas(x0 + t, y).len() ==>
                clear_way(self.fold_cols(probe, acc, y, x0, n, m, target), #[trigger] self.cell_areas(x0 + t, y)[k], m, probe, target),
            forall|c: Area| clear_way(acc, c, m, probe, target)
                ==> #[trigger] clear_way(self.fold_cols(probe, acc, y, x0, n, m, target), c, m, probe, target),
        decreases n,
    {
        if n > 0 {
            let prev = self.fold_cols(probe, acc, y, x0, (n - 1) as nat, m, target);
            self.lemma_fold_cols_clear(probe, acc, y, x0, (n - 1) as nat, m, target);
            let areas = self.cell_areas(x0 + n - 1, y);
            lemma_fold_areas_clear(probe, prev, areas, areas.len(), m, target);
            assert forall|t: int, k: int| 0 <= t < n && 0 <= k < self.cell_areas(x0 + t, y).len() implies
                clear_way(self.fold_cols(probe, acc, y, x0, n, m, target), #[trigger] self.cell_areas(x0 + t, y)[k], m, probe, target) by {
                if t < n - 1 {
                    assert(clear_way(prev, self.cell_areas(x0 + t, y)[k], m, probe, target));
                } else {
                    assert(self.cell_areas(x0 + t, y)[k] == areas[k]);
                }
            }
        }
    }

    proof fn lemma_fold_rows_clear(&self, probe: Probe, acc: Scan, y0: int, rows: nat, x0: int, cols: nat, m: BoundingRect, target: int)
        requires
            probe != Probe::Overlap,
            bound_ok(acc, m, probe, target),
        ensures
            bound_ok(self.fold_rows(probe, acc, y0, rows, x0, cols, m, target), m, probe, target),
            forall|r: int, t: int, k: int| 0 <= r < rows && 0 <= t < cols && 0 <= k < self.cell_areas(x0 + t, y0 + r).len() ==>
                clear_way(self.fold_rows(probe, acc, y0, rows, x0, cols, m, target), #[trigger] self.cell_areas(x0 + t, y0 + r)[k], m, probe, target),
        decreases rows,
    {
        if rows > 0 {
            let prev = self.fold_rows(probe, acc, y0, (rows - 1) as nat, x0, cols, m, target);
            self.lemma_fold_rows_clear(probe, acc, y0, (rows - 1) as nat, x0, cols, m, target);
            self.lemma_fold_cols_clear(probe, prev, y0 + rows - 1, x0, cols, m, target);
            assert forall|r: int, t: int, k: int| 0 <= r < rows && 0 <= t < cols && 0 <= k < self.cell_areas(x0 + t, y0 + r).len() implies
                clear_way(self.fold_rows(probe, acc, y0, rows, x0, cols, m, target), #[trigger] self.cell_areas(x0 + t, y0 + r)[k], m, probe, target) by {
                if r < rows - 1 {
                    assert(clear_way(prev, self.cell_areas(x0 + t, y0 + r)[k], m, probe, target));
                } else {
                    assert(y0 + r == y0 + rows - 1);
                }
            }
        }
    }
}

impl MapLayer {
    /// A sweep that does not end at once starts from a bound between its
    /// start and its destination.
    proof fn lemma_plan_bound(&self, probe: Probe, m: BoundingRect, target: int)
        requires
            self.wf(),
            m.wf(),
            coord_ok(target),
            probe != Probe::Overlap,
            !self.spec_plan(probe, m, target).early,
        ensures
            bound_ok(self.spec_plan(probe, m, target).init, m, probe, target),
    {
        let vertical = probe == Probe::SweepY;
        let p = along(m, probe);
        let len = if vertical { m.height as int } else { m.width as int };
        let ts = if vertical { self.tile_height as int } else { self.tile_width as int };
        let count = if vertical { self.height as int } else { self.width as int };
        let low = min_int(p, target);
        let high = max_int(p, target);
        lemma_grid_cells(self.width as int, self.height as int, self.tile_width as int, self.tile_height as int);
        lemma_floor_bounds(low, ts);
        lemma_floor_bounds(high + len - 1, ts);
        let lo = low / ts;
        let hi = (high + len - 1) / ts;
        assert(hi >= count ==> hi * ts >= count * ts) by (nonlinear_arith)
            requires
                0 < ts,
        ;
        assert(lo < 0 ==> lo * ts + ts <= 0) by (nonlinear_arith)
            requires
                0 < ts,
        ;
    }

    /// A layer sweep ends at first contact: unless the moving rectangle
    /// stays where it starts, each collision rectangle of the cells scanned is
    /// clear of it at every position from its start up to where the sweep
    /// ends (the stop, or the destination when nothing stops it).
    pub proof fn lemma_sweep_first_contact(&self, probe: Probe, m: BoundingRect, target: int, x: int, y: int, k: int, pos: int)
        requires
            self.wf(),
            m.wf(),
            coord_ok(target),
            probe != Probe::Overlap,
            !self.spec_plan(probe, m, target).early,
            self.spec_plan(probe, m, target).x0 <= x < self.spec_plan(probe, m, target).x0 + self.spec_plan(probe, m, target).cols,
            self.spec_plan(probe, m, target).y0 <= y < self.spec_plan(probe, m, target).y0 + self.spec_plan(probe, m, target).rows,
            0 <= k < self.cell_areas(x, y).len(),
            between(pos, along(m, probe), match self.spec_sweep(probe, m, target) {
                Some(v) => v,
                None => target,
            }),
        ensures
            self.spec_sweep(probe, m, target) == Some(along(m, probe))
                || clear_at(self.cell_areas(x, y)[k], m, probe, pos),
    {
        let plan = self.spec_plan(probe, m, target);
        self.lemma_plan_bound(probe, m, target);
        self.lemma_fold_rows_clear(probe, plan.init, plan.y0, plan.rows, plan.x0, plan.cols, m, target);
        let r = y - plan.y0;
        let t = x - plan.x0;
        assert(self.cell_areas(plan.x0 + t, plan.y0 + r) == self.cell_areas(x, y));
        assert(clear_way(self.fold_rows(probe, plan.init, plan.y0, plan.rows, plan.x0, plan.cols, m, target),
            self.cell_areas(plan.x0 + t, plan.y0 + r)[k], m, probe, target));
    }
}

/// Cell `(x, y)` of a `width` by `height` grid lies inside the row-major
/// storage.
pub proof fn lemma_cell_index(x: int, y: int, width: int, height: int)
    requires
        0 <= x < width,
        0 <= y < height,
    ensures
        0 <= y * width + x < width * height,
        y * width + x + 1 <= width * height,
{
    assert(y * width + x < width * height) by (nonlinear_arith)
        requires
            0 <= x < width,
            0 <= y < height,
    ;
    assert(0 <= y * width) by (nonlinear_arith)
        requires
            0 <= y,
            0 <= width,
    ;
}

/// The last cell touched by a span of length `len` starting at `a` is at
/// most one before its first.
pub proof fn lemma_span_cells(a: int, len: int, t: int)
    requires
        0 <= len,
        0 < t,
    ensures
        (a + len - 1) / t >= a / t - 1,
{
    let q = a / t;
    let r = a % t;
    vstd::arithmetic::div_mod::lemma_fundamental_div_mod(a, t);
    assert(a == q * t + r) by (nonlinear_arith)
        requires
            a == t * q + r,
    ;
    if r >= 1 {
        vstd::arithmetic::div_mod::lemma_fundamental_div_mod_converse(a - 1, t, q, r - 1);
    } else {
        assert(a - 1 == (q - 1) * t + (t - 1)) by (nonlinear_arith)
            requires
                a == q * t + r,
                r == 0,
        ;
        vstd::arithmetic::div_mod::lemma_fundamental_div_mod_converse(a - 1, t, q - 1, t - 1);
    }
    vstd::arithmetic::div_mod::lemma_div_is_ordered(a - 1, a + len - 1, t);
}

/// Rounding down puts `a` in `[q * t, q * t + t)`.
pub proof fn lemma_floor_bounds(a: int, t: int)
    requires
        0 < t,
    ensures
        (a / t) * t <= a < (a / t) * t + t,
{
    vstd::arithmetic::div_mod::lemma_fundamental_div_mod(a, t);
    assert((a / t) * t == t * (a / t)) by (nonlinear_arith);
}

/// Cells of earlier rows come before cell `(x, y)` in row-major order.
pub proof fn lemma_cell_before(xx: int, yy: int, x: int, y: int, w: int)
    requires
        0 <= xx < w,
        0 <= yy < y,
        0 <= x,
    ensures
        0 <= yy * w + xx < y * w + x,
{
    assert(0 <= yy * w + xx < y * w + x) by (nonlinear_arith)
        requires
            0 <= xx < w,
            0 <= yy < y,
            0 <= x,
    ;
}

/// The left (or top) pixel of a cell lies inside the layer's extent.
pub proof fn lemma_cell_origin(i: int, count: int, size: int)
    requires
        0 <= i < count,
        0 < size,
        count * size <= MAP_LIMIT,
    ensures
        0 <= i * size <= MAP_LIMIT,
        i * size + size <= count * size,
{
    assert(0 <= i * size && i * size + size <= count * size) by (nonlinear_arith)
        requires
            0 <= i < count,
            0 < size,
    ;
}

/// A layer's cell count fits in memory indices.
pub proof fn lemma_grid_cells(width: int, height: int, tile_width: int, tile_height: int)
    requires
        grid_ok(width, height, tile_width, tile_height),
    ensures
        0 <= width * height <= MAP_LIMIT * MAP_LIMIT,
        width <= MAP_LIMIT,
        height <= MAP_LIMIT,
{
    assert(width <= width * tile_width) by (nonlinear_arith)
        requires
            0 <= width,
            1 <= tile_width,
    ;
    assert(height <= height * tile_height) by (nonlinear_arith)
        requires
            0 <= height,
            1 <= tile_height,
    ;
    assert(0 <= width * height <= MAP_LIMIT * MAP_LIMIT) by (nonlinear_arith)
        requires
            0 <= width <= MAP_LIMIT,
            0 <= height <= MAP_LIMIT,
    ;
}

} // verus!
