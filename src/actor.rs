use vstd::prelude::*;
use std::rc::Rc;
use crate::map::{BlendMode, Probe, TileMap, between, floor_div, min_int, max_int};
use crate::shared::share;
use crate::sprite::{Sprite, SpriteAnimation};

verus! {

/// Largest magnitude of a world coordinate or extent that the simulation
/// accepts; sums and differences of a few such values stay far inside `isize`.
pub const COORD_LIMIT: isize = 0x40_0000;

pub open spec fn coord_ok(v: int) -> bool {
    -COORD_LIMIT <= v <= COORD_LIMIT
}

/// Whether the half-open spans `[a, a + aw)` and `[b, b + bw)` share a point.
pub open spec fn spans_overlap(a: int, aw: int, b: int, bw: int) -> bool {
    0 < aw && 0 < bw && b < a + aw && a < b + bw
}

/// An optional machine coordinate read as a mathematical one.
pub open spec fn opt_int(r: Option<isize>) -> Option<int> {
    match r {
        Some(v) => Some(v as int),
        None => None,
    }
}

/// An axis-aligned rectangle in world pixels.
#[derive(Debug, Clone, Copy, PartialEq, Eq)]
pub struct BoundingRect {
    pub x: isize,
    pub y: isize,
    pub width: isize,
    pub height: isize,
}

impl BoundingRect {
    /// Non-negative extents, and coordinates inside the accepted range.
    pub open spec fn wf(self) -> bool {
        &&& coord_ok(self.x as int)
        &&& coord_ok(self.y as int)
        &&& 0 <= self.width <= COORD_LIMIT
        &&& 0 <= self.height <= COORD_LIMIT
    }

    pub open spec fn overlaps_x(self, o: BoundingRect) -> bool {
        spans_overlap(self.x as int, self.width as int, o.x as int, o.width as int)
    }

    pub open spec fn overlaps_y(self, o: BoundingRect) -> bool {
        spans_overlap(self.y as int, self.height as int, o.y as int, o.height as int)
    }

    pub open spec fn spec_is_colliding(self, o: BoundingRect) -> bool {
        self.overlaps_x(o) && self.overlaps_y(o)
    }

    /// The stop of `moving` when it sweeps along x towards `final_x` while
    /// `self` stays put.
    pub open spec fn spec_sweep_x(self, moving: BoundingRect, final_x: int) -> Option<int> {
        sweep_1d(
            self.x as int, self.width as int, moving.x as int, moving.width as int, final_x,
            self.overlaps_y(moving),
        )
    }

    pub open spec fn spec_sweep_y(self, moving: BoundingRect, final_y: int) -> Option<int> {
        sweep_1d(
            self.y as int, self.height as int, moving.y as int, moving.height as int, final_y,
            self.overlaps_x(moving),
        )
    }

    /// Overlap test with half-open extents: rectangles that only touch, and
    /// rectangles of zero area, never collide.
    pub fn is_colliding(&self, other: &BoundingRect) -> (r: bool)
        requires
            self.wf(),
            other.wf(),
        ensures
            r == self.spec_is_colliding(*other),
    {
        spans_overlap_exec(self.x, self.width, other.x, other.width)
            && spans_overlap_exec(self.y, self.height, other.y, other.height)
    }

    /// Where `rect`, moving along x from `rect.x` to `final_x`, first
    /// touches `self`; `None` when the sweep meets nothing.
    pub fn sweep_collision_x(&self, rect: &BoundingRect, final_x: isize) -> (r: Option<isize>)
        requires
            self.wf(),
            rect.wf(),
        ensures
            opt_int(r) == self.spec_sweep_x(*rect, final_x as int),
    {
        let other_axis = spans_overlap_exec(self.y, self.height, rect.y, rect.height);
        sweep_1d_exec(self.x, self.width, rect.x, rect.width, final_x, other_axis)
    }

    /// Where `rect`, moving along y from `rect.y` to `final_y`, first
    /// touches `self`; `None` when the sweep meets nothing.
    pub fn sweep_collision_y(&self, rect: &BoundingRect, final_y: isize) -> (r: Option<isize>)
        requires
            self.wf(),
            rect.wf(),
        ensures
            opt_int(r) == self.spec_sweep_y(*rect, final_y as int),
    {
        let other_axis = spans_overlap_exec(self.x, self.width, rect.x, rect.width);
        sweep_1d_exec(self.y, self.height, rect.y, rect.height, final_y, other_axis)
    }
}

/// Overlap does not depend on the order of the two rectangles, and two
/// rectangles that only share an edge do not collide.
pub proof fn lemma_collision_symmetric(a: BoundingRect, b: BoundingRect)
    ensures
        a.spec_is_colliding(b) == b.spec_is_colliding(a),
        a.x + a.width == b.x ==> !a.spec_is_colliding(b),
        a.y + a.height == b.y ==> !a.spec_is_colliding(b),
{
}

/// A sweep along x never stops on a rectangle that it does not meet on y.
pub proof fn lemma_sweep_x_needs_overlap_y(s: BoundingRect, m: BoundingRect, final_x: int)
    requires
        !s.overlaps_y(m),
    ensures
        s.spec_sweep_x(m, final_x) == None::<int>,
{
}

/// A sweep along y never stops on a rectangle that it does not meet on x.
pub proof fn lemma_sweep_y_needs_overlap_x(s: BoundingRect, m: BoundingRect, final_y: int)
    requires
        !s.overlaps_x(m),
    ensures
        s.spec_sweep_y(m, final_y) == None::<int>,
{
}

/// A rectangle that already overlaps the obstacle stays where it is,
/// wherever it was heading.
pub proof fn lemma_sweep_penetrating_stays(s: BoundingRect, m: BoundingRect, target: int)
    requires
        s.spec_is_colliding(m),
    ensures
        s.spec_sweep_x(m, target) == Some(m.x as int),
        s.spec_sweep_y(m, target) == Some(m.y as int),
{
}

/// A rectangle left of the obstacle, moving right past its left edge, stops
/// flush against that edge.
pub proof fn lemma_sweep_right_stops_at_edge(s: BoundingRect, m: BoundingRect, final_x: int)
    requires
        s.overlaps_y(m),
        m.x + m.width <= s.x,
        s.x - m.width < final_x,
    ensures
        s.spec_sweep_x(m, final_x) == Some(s.x - m.width),
{
}

/// One-axis sweep of a moving span `[m, m + mw)` towards `target` against a
/// fixed span `[s, s + sw)`; `cross` tells whether the two overlap on the
/// other axis.
pub open spec fn sweep_1d(s: int, sw: int, m: int, mw: int, target: int, cross: bool) -> Option<int> {
    if !cross {
        None
    } else if spans_overlap(s, sw, m, mw) {
        Some(m)
    } else if m + mw <= s && target > m {
        if s - mw < target { Some(s - mw) } else { None }
    } else if m >= s + sw && target < m {
        if s + sw > target { Some(s + sw) } else { None }
    } else {
        None
    }
}

fn spans_overlap_exec(a: isize, aw: isize, b: isize, bw: isize) -> (r: bool)
    requires
        coord_ok(a as int),
        coord_ok(b as int),
        0 <= aw <= COORD_LIMIT,
        0 <= bw <= COORD_LIMIT,
    ensures
        r == spans_overlap(a as int, aw as int, b as int, bw as int),
{
    0 < aw && 0 < bw && b < a + aw && a < b + bw
}

fn sweep_1d_exec(s: isize, sw: isize, m: isize, mw: isize, target: isize, cross: bool) -> (r: Option<isize>)
    requires
        coord_ok(s as int),
        coord_ok(m as int),
        0 <= sw <= COORD_LIMIT,
        0 <= mw <= COORD_LIMIT,
    ensures
        opt_int(r) == sweep_1d(s as int, sw as int, m as int, mw as int, target as int, cross),
{
    if !cross {
        return None;
    }
    if spans_overlap_exec(s, sw, m, mw) {
        // already penetrating: stay where the sweep started
        return Some(m);
    }
    if m + mw <= s && target > m {
        if s - mw < target {
            return Some(s - mw);
        }
    } else if m >= s + sw && target < m {
        if s + sw > target {
            return Some(s + sw);
        }
    }
    None
}

/// Largest distance, in pixels, of an actor from the world origin on either
/// axis; also bounds the offsets and extents of its collision rectangle.
pub const POS_LIMIT: isize = 0x10_0000;

/// Largest speed, in 1/256 pixel per tick, on either axis.
pub const VEL_LIMIT: isize = 0x800_0000;

/// A fixed-point coordinate (pixels times 256) that lies inside the world.
pub const FULL_LIMIT: isize = 0x1000_0000;

/// A sprite attached to an actor, drawn at an offset from its position.
pub struct SpriteWithOffset {
    pub sprite: Rc<Sprite>,
    pub animation: Rc<SpriteAnimation>,
    /// position of `animation` among the sprite's animations
    pub animation_index: usize,
    pub animation_frame: usize,
    pub x_offset: isize,
    pub y_offset: isize,
    pub blend_mode: BlendMode,
    pub alpha: u8,
}

impl SpriteWithOffset {
    fn duplicate(&self) -> (r: SpriteWithOffset)
        ensures
            r == *self,
    {
        SpriteWithOffset {
            sprite: share(&self.sprite),
            animation: share(&self.animation),
            animation_index: self.animation_index,
            animation_frame: self.animation_frame,
            x_offset: self.x_offset,
            y_offset: self.y_offset,
            blend_mode: self.blend_mode,
            alpha: self.alpha,
        }
    }
}

/// State shared by every actor: position in 16.8 fixed point, velocity in
/// 1/256 pixel per tick, collision shape relative to the position, sprites,
/// health and the destroyed mark.
pub struct ActorInfo {
    pub x: isize,
    pub y: isize,
    pub subpixel_x: u8,
    pub subpixel_y: u8,
    pub velocity_x: isize,
    pub velocity_y: isize,
    pub collision_bounds: Option<BoundingRect>,
    pub collision_channel: u32,
    pub blocking_collision: bool,
    pub sprites: Vec<SpriteWithOffset>,
    pub destroyed: bool,
    pub health: i32,
}

/// An actor's state as mathematical values: its sprites as a sequence.
pub struct ActorView {
    pub x: isize,
    pub y: isize,
    pub subpixel_x: u8,
    pub subpixel_y: u8,
    pub velocity_x: isize,
    pub velocity_y: isize,
    pub collision_bounds: Option<BoundingRect>,
    pub collision_channel: u32,
    pub blocking_collision: bool,
    pub sprites: Seq<SpriteWithOffset>,
    pub destroyed: bool,
    pub health: i32,
}

impl View for ActorInfo {
    type V = ActorView;

    open spec fn view(&self) -> ActorView {
        ActorView {
            x: self.x,
            y: self.y,
            subpixel_x: self.subpixel_x,
            subpixel_y: self.subpixel_y,
            velocity_x: self.velocity_x,
            velocity_y: self.velocity_y,
            collision_bounds: self.collision_bounds,
            collision_channel: self.collision_channel,
            blocking_collision: self.blocking_collision,
            sprites: self.sprites@,
            destroyed: self.destroyed,
            health: self.health,
        }
    }
}

/// The views of a list of actors.
pub open spec fn views(actors: Seq<ActorInfo>) -> Seq<ActorView> {
    actors.map_values(|a: ActorInfo| a@)
}

impl ActorView {
    /// Position in 16.8 fixed point.
    pub open spec fn full_x(&self) -> int {
        self.x * 256 + self.subpixel_x
    }

    pub open spec fn full_y(&self) -> int {
        self.y * 256 + self.subpixel_y
    }

    /// The collision shape in world pixels.
    pub open spec fn world_bounds(&self) -> Option<BoundingRect> {
        match self.collision_bounds {
            Some(b) => Some(placed(b, self.x as int, self.y as int)),
            None => None,
        }
    }
}

/// What stopped a move, if anything; an actor is named by its position in
/// the actor list.
#[derive(Clone, Copy, Debug, PartialEq, Eq, Structural)]
pub enum MovementCollision {
    Unobstructed,
    CollidedWithWorld,
    CollidedWithActor(usize),
}

/// A collision shape fits any actor position.
pub open spec fn shape_ok(b: BoundingRect) -> bool {
    &&& -POS_LIMIT <= b.x <= POS_LIMIT
    &&& -POS_LIMIT <= b.y <= POS_LIMIT
    &&& 0 <= b.width <= POS_LIMIT
    &&& 0 <= b.height <= POS_LIMIT
}

/// Shape `b` placed at actor position `(x, y)`.
pub open spec fn placed(b: BoundingRect, x: int, y: int) -> BoundingRect {
    BoundingRect { x: (x + b.x) as isize, y: (y + b.y) as isize, width: b.width, height: b.height }
}

/// Fixed-point coordinate kept inside the world.
pub open spec fn clamp_full(f: int) -> int {
    if f < -FULL_LIMIT {
        -FULL_LIMIT as int
    } else if f > FULL_LIMIT {
        FULL_LIMIT as int
    } else {
        f
    }
}

/// Progress of a move along one axis: the pixel coordinate reached, the
/// fixed-point coordinate, whether something stopped the actor, and the
/// latest cause.
pub struct Motion {
    pub pos: int,
    pub full: int,
    pub halted: bool,
    pub outcome: MovementCollision,
}

pub open spec fn start_motion(full: int, outcome: MovementCollision) -> Motion {
    Motion { pos: full / 256, full, halted: false, outcome }
}

/// A move cut short at pixel coordinate `pos`.
pub open spec fn halt_at(pos: int, outcome: MovementCollision) -> Motion {
    Motion { pos, full: pos * 256, halted: true, outcome }
}

/// Sweep of the moving shape `bounds` against the static map, if one is
/// loaded; `off` is the shape's offset from the actor position on this axis.
pub open spec fn map_step(m: Motion, map: Option<TileMap>, bounds: BoundingRect, off: int, vertical: bool) -> Motion {
    let probe = if vertical { Probe::SweepY } else { Probe::SweepX };
    match map {
        Some(map) => match map.spec_sweep(probe, bounds, m.pos + off) {
            Some(r) => halt_at(r - off, MovementCollision::CollidedWithWorld),
            None => m,
        },
        None => m,
    }
}

/// Sweep against actor `j` of the list, when it is another actor that blocks.
pub open spec fn blocker_step(m: Motion, other: ActorView, j: int, skip: int, bounds: BoundingRect, off: int, vertical: bool) -> Motion {
    if j == skip || !other.blocking_collision {
        m
    } else {
        match other.collision_bounds {
            None => m,
            Some(ob) => {
                let o = placed(ob, other.x as int, other.y as int);
                let hit = if vertical {
                    o.spec_sweep_y(bounds, m.pos + off)
                } else {
                    o.spec_sweep_x(bounds, m.pos + off)
                };
                match hit {
                    Some(r) => halt_at(r - off, MovementCollision::CollidedWithActor(j as usize)),
                    None => m,
                }
            },
        }
    }
}

/// Sweeps against the first `n` actors of the list, in order.
pub open spec fn blockers_fold(m: Motion, actors: Seq<ActorView>, n: nat, skip: int, bounds: BoundingRect, off: int, vertical: bool) -> Motion
    decreases n,
{
    if n == 0 {
        m
    } else {
        blocker_step(blockers_fold(m, actors, (n - 1) as nat, skip, bounds, off, vertical), actors[n - 1], n - 1, skip, bounds, off, vertical)
    }
}

/// One axis of a move: the map first, then every blocking actor.
pub open spec fn axis_motion(m: Motion, map: Option<TileMap>, actors: Seq<ActorView>, skip: int, bounds: BoundingRect, off: int, vertical: bool) -> Motion {
    blockers_fold(map_step(m, map, bounds, off, vertical), actors, actors.len(), skip, bounds, off, vertical)
}

/// The two axes of a move: x is settled, and the shape moved there, before y.
/// Without a collision shape nothing stops the actor; with one, the map (if
/// any) and the other blocking actors do.
pub open spec fn move_motions(a: ActorView, map: Option<TileMap>, actors: Seq<ActorView>, skip: int) -> (Motion, Motion) {
    let fx = clamp_full(a.x * 256 + a.subpixel_x + a.velocity_x);
    let fy = clamp_full(a.y * 256 + a.subpixel_y + a.velocity_y);
    match a.collision_bounds {
        Some(b) => {
            let mx = axis_motion(start_motion(fx, MovementCollision::Unobstructed), map, actors, skip,
                placed(b, a.x as int, a.y as int), b.x as int, false);
            let my = axis_motion(start_motion(fy, mx.outcome), map, actors, skip,
                placed(b, mx.pos, a.y as int), b.y as int, true);
            (mx, my)
        },
        _ => (start_motion(fx, MovementCollision::Unobstructed), start_motion(fy, MovementCollision::Unobstructed)),
    }
}

/// The actor after one move.
pub open spec fn move_result(a: ActorView, map: Option<TileMap>, actors: Seq<ActorView>, skip: int) -> ActorView {
    let (mx, my) = move_motions(a, map, actors, skip);
    ActorView {
        x: (mx.full / 256) as isize,
        y: (my.full / 256) as isize,
        subpixel_x: (mx.full % 256) as u8,
        subpixel_y: (my.full % 256) as u8,
        velocity_x: if mx.halted { 0 } else { a.velocity_x },
        velocity_y: if my.halted { 0 } else { a.velocity_y },
        ..a
    }
}

/// The actor after `k` moves against the same surroundings.
pub open spec fn moved_times(a: ActorView, map: Option<TileMap>, actors: Seq<ActorView>, skip: int, k: nat) -> ActorView
    decreases k,
{
    if k == 0 {
        a
    } else {
        move_result(moved_times(a, map, actors, skip, (k - 1) as nat), map, actors, skip)
    }
}

/// An actor that cannot be obstructed (no collision shape)
/// advances by exactly its velocity on every move: after `k` moves its
/// fixed-point position is the start plus `k` times the velocity, with no
/// drift from rounding, as long as it stays inside the world.
pub proof fn lemma_velocity_integration(a: ActorView, map: Option<TileMap>, actors: Seq<ActorView>, skip: int, k: nat)
    requires
        a.collision_bounds is None,
        -FULL_LIMIT <= a.full_x() <= FULL_LIMIT,
        -FULL_LIMIT <= a.full_x() + k * a.velocity_x <= FULL_LIMIT,
    ensures
        moved_times(a, map, actors, skip, k).full_x() == a.full_x() + k * a.velocity_x,
        moved_times(a, map, actors, skip, k).x == (a.full_x() + k * a.velocity_x) / 256,
        moved_times(a, map, actors, skip, k).velocity_x == a.velocity_x,
        moved_times(a, map, actors, skip, k).collision_bounds == a.collision_bounds,
    decreases k,
{
    if k > 0 {
        let k1 = (k - 1) as nat;
        assert(-FULL_LIMIT <= a.full_x() + k1 * a.velocity_x <= FULL_LIMIT) by (nonlinear_arith)
            requires
                -FULL_LIMIT <= a.full_x() <= FULL_LIMIT,
                -FULL_LIMIT <= a.full_x() + k * a.velocity_x <= FULL_LIMIT,
                k1 == k - 1,
                k >= 1,
        ;
        lemma_velocity_integration(a, map, actors, skip, k1);
        let prev = moved_times(a, map, actors, skip, k1);
        let f = a.full_x() + k * a.velocity_x;
        assert(f == prev.full_x() + prev.velocity_x) by (nonlinear_arith)
            requires
                prev.full_x() == a.full_x() + k1 * a.velocity_x,
                prev.velocity_x == a.velocity_x,
                f == a.full_x() + k * a.velocity_x,
                k1 == k - 1,
        ;
        vstd::arithmetic::div_mod::lemma_fundamental_div_mod(f, 256);
        crate::map::lemma_floor_bounds(f, 256);
        let q = f / 256;
        let r = f % 256;
        assert(-POS_LIMIT - 1 <= q <= POS_LIMIT + 1);
        assert(0 <= r < 256);
        let (mx, my) = move_motions(prev, map, actors, skip);
        assert(mx.full == f);
        assert(mx.full / 256 == q);
        let next = moved_times(a, map, actors, skip, k);
        assert(next == move_result(prev, map, actors, skip));
        assert(next.x as int == q);
        assert(next.subpixel_x as int == r);
    } else {
        assert(k * a.velocity_x == 0) by (nonlinear_arith)
            requires
                k == 0,
        ;
        vstd::arithmetic::div_mod::lemma_fundamental_div_mod_converse(a.full_x(), 256, a.x as int, a.subpixel_x as int);
    }
}

impl ActorInfo {
    pub open spec fn wf(&self) -> bool {
        &&& -POS_LIMIT <= self.x <= POS_LIMIT
        &&& -POS_LIMIT <= self.y <= POS_LIMIT
        &&& -FULL_LIMIT <= self.x * 256 + self.subpixel_x <= FULL_LIMIT
        &&& -FULL_LIMIT <= self.y * 256 + self.subpixel_y <= FULL_LIMIT
        &&& -VEL_LIMIT <= self.velocity_x <= VEL_LIMIT
        &&& -VEL_LIMIT <= self.velocity_y <= VEL_LIMIT
        &&& (self.collision_bounds matches Some(b) ==> shape_ok(b))
    }

    /// Position in 16.8 fixed point.
    pub open spec fn full_x(&self) -> int {
        self.x * 256 + self.subpixel_x
    }

    pub open spec fn full_y(&self) -> int {
        self.y * 256 + self.subpixel_y
    }

    /// The collision shape in world pixels.
    pub open spec fn world_bounds(&self) -> Option<BoundingRect> {
        match self.collision_bounds {
            Some(b) => Some(placed(b, self.x as int, self.y as int)),
            None => None,
        }
    }
}

/// A sweep that stops, stops between the start and the destination.
pub proof fn lemma_sweep_1d_between(s: int, sw: int, m: int, mw: int, target: int, cross: bool)
    requires
        0 <= sw,
        0 <= mw,
    ensures
        sweep_1d(s, sw, m, mw, target, cross) matches Some(v) ==> between(v, m, target),
{
}

/// Shape `b` placed at `(x, y)`.
fn place(b: &BoundingRect, x: isize, y: isize) -> (r: BoundingRect)
    requires
        shape_ok(*b),
        -POS_LIMIT <= x <= POS_LIMIT,
        -POS_LIMIT <= y <= POS_LIMIT,
    ensures
        r == placed(*b, x as int, y as int),
        r.wf(),
{
    BoundingRect { x: x + b.x, y: y + b.y, width: b.width, height: b.height }
}

/// Executable counterpart of `Motion`.
struct AxisMove {
    pos: isize,
    full: isize,
    halted: bool,
    outcome: MovementCollision,
}

impl AxisMove {
    spec fn view(&self) -> Motion {
        Motion { pos: self.pos as int, full: self.full as int, halted: self.halted, outcome: self.outcome }
    }

    /// Inside the world, and between the start `from` and the destination
    /// `to` of the move.
    spec fn inside(&self, from: int, to: int) -> bool {
        &&& between(self.pos as int, from, to)
        &&& -POS_LIMIT <= self.pos <= POS_LIMIT
        &&& -FULL_LIMIT <= self.full <= FULL_LIMIT
    }
}

fn halt_exec(pos: isize, outcome: MovementCollision) -> (r: AxisMove)
    requires
        -POS_LIMIT <= pos <= POS_LIMIT,
    ensures
        r.view() == halt_at(pos as int, outcome),
        -FULL_LIMIT <= r.full <= FULL_LIMIT,
        r.pos == pos,
{
    AxisMove { pos, full: pos * 256, halted: true, outcome }
}

/// Sweeps `bounds`, offset `off` from the actor position, against every other
/// blocking actor of the list.
fn sweep_blockers(actors: &Vec<ActorInfo>, skip: usize, bounds: &BoundingRect, off: isize, vertical: bool, start: AxisMove) -> (r: AxisMove)
    requires
        forall|j: int| 0 <= j < actors@.len() ==> (#[trigger] actors@[j]).wf(),
        bounds.wf(),
        -POS_LIMIT <= off <= POS_LIMIT,
        -POS_LIMIT <= (if vertical { bounds.y } else { bounds.x }) - off <= POS_LIMIT,
        start.inside((if vertical { bounds.y } else { bounds.x }) - off, start.pos as int),
    ensures
        r.view() == blockers_fold(start.view(), views(actors@), actors@.len(), skip as int, *bounds, off as int, vertical),
        r.inside((if vertical { bounds.y } else { bounds.x }) - off, start.pos as int),
{
    let ghost from = (if vertical { bounds.y } else { bounds.x }) - off;
    let mut acc = start;
    let mut j: usize = 0;
    while j < actors.len()
        invariant
            forall|k: int| 0 <= k < actors@.len() ==> (#[trigger] actors@[k]).wf(),
            bounds.wf(),
            -POS_LIMIT <= off <= POS_LIMIT,
            from == (if vertical { bounds.y } else { bounds.x }) - off,
            -POS_LIMIT <= from <= POS_LIMIT,
            j <= actors@.len(),
            acc.view() == blockers_fold(start.view(), views(actors@), j as nat, skip as int, *bounds, off as int, vertical),
            acc.inside(from, start.pos as int),
        decreases actors@.len() - j,
    {
        let other = &actors[j];
        assert(actors@[j as int].wf());
        if j != skip && other.blocking_collision {
            if let Some(ob) = &other.collision_bounds {
                let o = place(ob, other.x, other.y);
                let target = acc.pos + off;
                let hit = if vertical {
                    o.sweep_collision_y(bounds, target)
                } else {
                    o.sweep_collision_x(bounds, target)
                };
                proof {
                    if vertical {
                        lemma_sweep_1d_between(o.y as int, o.height as int, bounds.y as int, bounds.height as int,
                            target as int, o.overlaps_x(*bounds));
                    } else {
                        lemma_sweep_1d_between(o.x as int, o.width as int, bounds.x as int, bounds.width as int,
                            target as int, o.overlaps_y(*bounds));
                    }
                }
                if let Some(r) = hit {
                    acc = halt_exec(r - off, MovementCollision::CollidedWithActor(j));
                }
            }
        }
        j += 1;
    }
    acc
}

/// One axis of a move: the map first, then the blocking actors.
fn axis_resolve(map: &Option<TileMap>, actors: &Vec<ActorInfo>, skip: usize, bounds: &BoundingRect, off: isize, vertical: bool, start: AxisMove) -> (r: AxisMove)
    requires
        map matches Some(m) ==> m.wf(),
        forall|j: int| 0 <= j < actors@.len() ==> (#[trigger] actors@[j]).wf(),
        bounds.wf(),
        -POS_LIMIT <= off <= POS_LIMIT,
        -POS_LIMIT <= (if vertical { bounds.y } else { bounds.x }) - off <= POS_LIMIT,
        -POS_LIMIT <= start.pos <= POS_LIMIT,
        -FULL_LIMIT <= start.full <= FULL_LIMIT,
    ensures
        r.view() == axis_motion(start.view(), *map, views(actors@), skip as int, *bounds, off as int, vertical),
        r.inside((if vertical { bounds.y } else { bounds.x }) - off, start.pos as int),
{
    let from = (if vertical { bounds.y } else { bounds.x }) - off;
    let target = start.pos + off;
    let hit = match map {
        Some(m) => if vertical {
            m.sweep_collision_y(bounds, target)
        } else {
            m.sweep_collision_x(bounds, target)
        },
        None => None,
    };
    let after_map = match hit {
        Some(r) => halt_exec(r - off, MovementCollision::CollidedWithWorld),
        None => start,
    };
    sweep_blockers(actors, skip, bounds, off, vertical, after_map)
}

/// A fixed-point coordinate kept inside the world.
fn clamp_full_exec(f: isize) -> (r: isize)
    ensures
        r as int == clamp_full(f as int),
{
    if f < -FULL_LIMIT {
        -FULL_LIMIT
    } else if f > FULL_LIMIT {
        FULL_LIMIT
    } else {
        f
    }
}

fn start_exec(full: isize, outcome: MovementCollision) -> (r: AxisMove)
    requires
        -FULL_LIMIT <= full <= FULL_LIMIT,
    ensures
        r.view() == start_motion(full as int, outcome),
        r.inside(r.pos as int, r.pos as int),
{
    let pos = floor_div(full, 256);
    proof {
        crate::map::lemma_floor_bounds(full as int, 256);
    }
    AxisMove { pos, full, halted: false, outcome }
}

/// Splits a fixed-point coordinate into pixel and 1/256 parts.
fn split_full(full: isize) -> (r: (isize, u8))
    requires
        -FULL_LIMIT <= full <= FULL_LIMIT,
    ensures
        r.0 as int == full as int / 256,
        r.1 as int == full as int % 256,
        -POS_LIMIT <= r.0 <= POS_LIMIT,
{
    let q = floor_div(full, 256);
    proof {
        crate::map::lemma_floor_bounds(full as int, 256);
        vstd::arithmetic::div_mod::lemma_fundamental_div_mod(full as int, 256);
    }
    (q, (full - q * 256) as u8)
}

/// The actors among the first `n` of the list, other than number `skip`,
/// whose collision shapes overlap that of `a`, in list order.
pub open spec fn overlapping(a: ActorView, actors: Seq<ActorView>, skip: int, n: nat) -> Seq<usize>
    decreases n,
{
    if n == 0 {
        Seq::empty()
    } else {
        let before = overlapping(a, actors, skip, (n - 1) as nat);
        let j = n - 1;
        match (a.world_bounds(), actors[j].world_bounds()) {
            (Some(mine), Some(theirs)) => if j != skip && mine.spec_is_colliding(theirs) {
                before.push(j as usize)
            } else {
                before
            },
            _ => before,
        }
    }
}

/// Health after a change of `amount`: a dead actor stays as it is; a living
/// one gains or loses `amount`, saturating at the bounds of `i32`.
pub open spec fn health_after(health: i32, amount: i32) -> int {
    if health <= 0 {
        health as int
    } else if health + amount > i32::MAX {
        i32::MAX as int
    } else if health + amount < i32::MIN {
        i32::MIN as int
    } else {
        health + amount
    }
}

/// Damage that brings a living actor to zero or below kills it once: a
/// further change leaves its health as it is and kills nothing.
pub proof fn lemma_death_is_final(health: i32, first: i32, second: i32)
    requires
        health > 0,
        health_after(health, first) <= 0,
    ensures
        health_after(health_after(health, first) as i32, second) == health_after(health, first),
        !(health_after(health, first) > 0),
{
}

/// Sprite `s` after a request to play the animation called `name`: an
/// animation of that name other than the current one starts from its first
/// frame; otherwise nothing changes.
pub open spec fn started(s: SpriteWithOffset, name: Seq<char>) -> SpriteWithOffset {
    match s.sprite.named(name) {
        Some(idx) => if idx != s.animation_index {
            SpriteWithOffset {
                sprite: s.sprite,
                animation: s.sprite.animations@[idx],
                animation_index: idx as usize,
                animation_frame: 0,
                x_offset: s.x_offset,
                y_offset: s.y_offset,
                blend_mode: s.blend_mode,
                alpha: s.alpha,
            }
        } else {
            s
        },
        None => s,
    }
}

/// Alpha after a change of `change`: raising saturates and caps at 16,
/// lowering saturates at 0.
pub open spec fn alpha_after(alpha: u8, change: i8) -> int {
    if change > 0 {
        min_int(min_int(alpha + change, 255), 16)
    } else if change < 0 {
        max_int(alpha + change, 0)
    } else {
        alpha as int
    }
}

impl ActorInfo {
    /// Everything but position, subpixels and velocity is as in `o`.
    pub open spec fn same_but_motion(&self, o: ActorInfo) -> bool {
        &&& self.collision_bounds == o.collision_bounds
        &&& self.collision_channel == o.collision_channel
        &&& self.blocking_collision == o.blocking_collision
        &&& self.sprites == o.sprites
        &&& self.destroyed == o.destroyed
        &&& self.health == o.health
    }

    /// A living actor at `(x, y)` with no velocity, shape or sprites.
    pub fn new(x: isize, y: isize) -> (r: ActorInfo)
        ensures
            r.x == x,
            r.y == y,
            r.subpixel_x == 0,
            r.subpixel_y == 0,
            r.velocity_x == 0,
            r.velocity_y == 0,
            r.collision_bounds is None,
            r.collision_channel == 0,
            !r.blocking_collision,
            r.sprites@.len() == 0,
            !r.destroyed,
            r.health == 100,
    {
        ActorInfo {
            x,
            y,
            subpixel_x: 0,
            subpixel_y: 0,
            velocity_x: 0,
            velocity_y: 0,
            collision_bounds: None,
            collision_channel: 0,
            blocking_collision: false,
            sprites: Vec::new(),
            destroyed: false,
            health: 100,
        }
    }

    /// Advances the position by the velocity, clipped by the map (when one is
    /// loaded) and by the other blocking actors of `actors` (`skip` is this
    /// actor's own place in it). An axis on which the move was cut short loses
    /// its velocity. The fixed-point position is kept within `FULL_LIMIT`
    /// (`POS_LIMIT` pixels) of the origin: a move that would go further stops
    /// at that limit, keeping its velocity; this bound keeps the arithmetic
    /// inside `isize` on every platform.
    #[verifier::rlimit(30)]
    pub fn move_with_collision(&mut self, map: &Option<TileMap>, actors: &Vec<ActorInfo>, skip: usize) -> (r: MovementCollision)
        requires
            old(self).wf(),
            map matches Some(m) ==> m.wf(),
            forall|j: int| 0 <= j < actors@.len() ==> (#[trigger] actors@[j]).wf(),
        ensures
            final(self).wf(),
            final(self).same_but_motion(*old(self)),
            final(self).x as int == move_motions(old(self)@, *map, views(actors@), skip as int).0.full / 256,
            final(self).subpixel_x as int == move_motions(old(self)@, *map, views(actors@), skip as int).0.full % 256,
            final(self).y as int == move_motions(old(self)@, *map, views(actors@), skip as int).1.full / 256,
            final(self).subpixel_y as int == move_motions(old(self)@, *map, views(actors@), skip as int).1.full % 256,
            final(self).velocity_x == if move_motions(old(self)@, *map, views(actors@), skip as int).0.halted {
                0
            } else {
                old(self).velocity_x
            },
            final(self).velocity_y == if move_motions(old(self)@, *map, views(actors@), skip as int).1.halted {
                0
            } else {
                old(self).velocity_y
            },
            r == move_motions(old(self)@, *map, views(actors@), skip as int).1.outcome,
            final(self)@ == move_result(old(self)@, *map, views(actors@), skip as int),
            final(self).sprites == old(self).sprites,
    {
        let fx = clamp_full_exec(self.x * 256 + self.subpixel_x as isize + self.velocity_x);
        let fy = clamp_full_exec(self.y * 256 + self.subpixel_y as isize + self.velocity_y);
        let sx = start_exec(fx, MovementCollision::Unobstructed);
        let (mx, my) = match &self.collision_bounds {
            Some(b) => {
                let bx = place(b, self.x, self.y);
                let mx = axis_resolve(map, actors, skip, &bx, b.x, false, sx);
                let by = place(b, mx.pos, self.y);
                let sy = start_exec(fy, mx.outcome);
                let my = axis_resolve(map, actors, skip, &by, b.y, true, sy);
                (mx, my)
            },
            _ => (sx, start_exec(fy, MovementCollision::Unobstructed)),
        };
        let (px, sub_x) = split_full(mx.full);
        let (py, sub_y) = split_full(my.full);
        self.x = px;
        self.subpixel_x = sub_x;
        self.y = py;
        self.subpixel_y = sub_y;
        if mx.halted {
            self.velocity_x = 0;
        }
        if my.halted {
            self.velocity_y = 0;
        }
        my.outcome
    }

    /// The other actors whose collision shapes overlap this one's where it
    /// stands, blocking or not, in list order.
    pub fn check_for_actor_collision(&self, actors: &Vec<ActorInfo>, skip: usize) -> (r: Vec<usize>)
        requires
            self.wf(),
            forall|j: int| 0 <= j < actors@.len() ==> (#[trigger] actors@[j]).wf(),
        ensures
            r@ == overlapping(self@, views(actors@), skip as int, actors@.len()),
    {
        let mut found: Vec<usize> = Vec::new();
        if let Some(b) = &self.collision_bounds {
            let mine = place(b, self.x, self.y);
            let mut j: usize = 0;
            while j < actors.len()
                invariant
                    self.wf(),
                    self.world_bounds() == Some(mine),
                    mine.wf(),
                    forall|k: int| 0 <= k < actors@.len() ==> (#[trigger] actors@[k]).wf(),
                    j <= actors@.len(),
                    found@ == overlapping(self@, views(actors@), skip as int, j as nat),
                decreases actors@.len() - j,
            {
                let other = &actors[j];
                assert(actors@[j as int].wf());
                if let Some(ob) = &other.collision_bounds {
                    let theirs = place(ob, other.x, other.y);
                    if j != skip && mine.is_colliding(&theirs) {
                        found.push(j);
                    }
                }
                j += 1;
            }
        } else {
            let mut j: usize = 0;
            while j < actors.len()
                invariant
                    self.collision_bounds is None,
                    j <= actors@.len(),
                    found@ == Seq::<usize>::empty(),
                    overlapping(self@, views(actors@), skip as int, j as nat) == Seq::<usize>::empty(),
                decreases actors@.len() - j,
            {
                j += 1;
            }
        }
        found
    }

    /// Changes health by `amount` unless the actor is already dead; returns
    /// whether this change killed it.
    pub fn adjust_health(&mut self, amount: i32) -> (died: bool)
        ensures
            final(self).health as int == health_after(old(self).health, amount),
            died == (old(self).health > 0 && health_after(old(self).health, amount) <= 0),
            final(self).x == old(self).x,
            final(self).y == old(self).y,
            final(self).subpixel_x == old(self).subpixel_x,
            final(self).subpixel_y == old(self).subpixel_y,
            final(self).velocity_x == old(self).velocity_x,
            final(self).velocity_y == old(self).velocity_y,
            final(self).same_but_health(*old(self)),
    {
        if self.health <= 0 {
            return false;
        }
        let sum = self.health as i64 + amount as i64;
        let new_health: i32 = if sum > i32::MAX as i64 {
            i32::MAX
        } else if sum < i32::MIN as i64 {
            i32::MIN
        } else {
            sum as i32
        };
        self.health = new_health;
        new_health <= 0
    }

    /// Everything but health is as in `o`.
    pub open spec fn same_but_health(&self, o: ActorInfo) -> bool {
        &&& self.collision_bounds == o.collision_bounds
        &&& self.collision_channel == o.collision_channel
        &&& self.blocking_collision == o.blocking_collision
        &&& self.sprites == o.sprites
        &&& self.destroyed == o.destroyed
    }

    /// Marks the actor for removal at the end of the tick.
    pub fn destroy(&mut self)
        ensures
            *final(self) == (ActorInfo { destroyed: true, ..*old(self) }),
    {
        self.destroyed = true;
    }

    pub fn is_destroyed(&self) -> (r: bool)
        ensures
            r == self.destroyed,
    {
        self.destroyed
    }

    pub fn set_collision_bounds(&mut self, bounds: BoundingRect)
        ensures
            *final(self) == (ActorInfo { collision_bounds: Some(bounds), ..*old(self) }),
    {
        self.collision_bounds = Some(bounds);
    }

    pub fn clear_collision_bounds(&mut self)
        ensures
            *final(self) == (ActorInfo { collision_bounds: None, ..*old(self) }),
    {
        self.collision_bounds = None;
    }
}

impl ActorInfo {
    /// Everything but the sprites is as in `o`.
    pub open spec fn same_but_sprites(&self, o: ActorInfo) -> bool {
        &&& self.x == o.x
        &&& self.y == o.y
        &&& self.subpixel_x == o.subpixel_x
        &&& self.subpixel_y == o.subpixel_y
        &&& self.velocity_x == o.velocity_x
        &&& self.velocity_y == o.velocity_y
        &&& self.collision_bounds == o.collision_bounds
        &&& self.collision_channel == o.collision_channel
        &&& self.blocking_collision == o.blocking_collision
        &&& self.destroyed == o.destroyed
        &&& self.health == o.health
    }

    /// Attaches `sprite`, showing its first animation with normal blending;
    /// returns the new attachment's index.
    pub fn add_sprite(&mut self, sprite: Rc<Sprite>, x_offset: isize, y_offset: isize) -> (r: usize)
        requires
            sprite.animations@.len() > 0,
        ensures
            r == old(self).sprites@.len(),
            final(self).same_but_sprites(*old(self)),
            final(self).sprites@ == old(self).sprites@.push(SpriteWithOffset {
                sprite,
                animation: sprite.animations@[0],
                animation_index: 0,
                animation_frame: 0,
                x_offset,
                y_offset,
                blend_mode: BlendMode::Normal,
                alpha: 0,
            }),
    {
        self.add_sprite_with_blending(sprite, x_offset, y_offset, BlendMode::Normal, 0)
    }

    /// Attaches `sprite`, showing its first animation with the given blending;
    /// returns the new attachment's index.
    pub fn add_sprite_with_blending(&mut self, sprite: Rc<Sprite>, x_offset: isize, y_offset: isize,
        blend_mode: BlendMode, alpha: u8) -> (r: usize)
        requires
            sprite.animations@.len() > 0,
        ensures
            r == old(self).sprites@.len(),
            final(self).same_but_sprites(*old(self)),
            final(self).sprites@ == old(self).sprites@.push(SpriteWithOffset {
                sprite,
                animation: sprite.animations@[0],
                animation_index: 0,
                animation_frame: 0,
                x_offset,
                y_offset,
                blend_mode,
                alpha,
            }),
    {
        let animation = sprite.get_default_animation();
        let index = self.sprites.len();
        self.sprites.push(SpriteWithOffset {
            sprite,
            animation,
            animation_index: 0,
            animation_frame: 0,
            x_offset,
            y_offset,
            blend_mode,
            alpha,
        });
        index
    }

    /// Sets the alpha of attachment `sprite_index`; an index past the end is
    /// ignored.
    pub fn set_sprite_alpha(&mut self, sprite_index: usize, alpha: u8)
        ensures
            final(self).same_but_sprites(*old(self)),
            final(self).sprites@.len() == old(self).sprites@.len(),
            forall|i: int| 0 <= i < old(self).sprites@.len() ==> {
                let o = old(self).sprites@[i];
                #[trigger] final(self).sprites@[i] == if i == sprite_index {
                    SpriteWithOffset { alpha, ..o }
                } else {
                    o
                }
            },
    {
        if sprite_index < self.sprites.len() {
            let mut s = self.sprites[sprite_index].duplicate();
            s.alpha = alpha;
            self.sprites.set(sprite_index, s);
        }
    }

    /// Alpha of attachment `sprite_index`, or 0 past the end.
    pub fn get_sprite_alpha(&self, sprite_index: usize) -> (r: u8)
        ensures
            r == if sprite_index < self.sprites@.len() { self.sprites@[sprite_index as int].alpha } else { 0 },
    {
        if sprite_index < self.sprites.len() {
            self.sprites[sprite_index].alpha
        } else {
            0
        }
    }

    /// Raises (capped at 16) or lowers (down to 0) the alpha of attachment
    /// `sprite_index`.
    pub fn adjust_sprite_alpha(&mut self, sprite_index: usize, change: i8)
        ensures
            final(self).same_but_sprites(*old(self)),
            final(self).sprites@.len() == old(self).sprites@.len(),
            forall|i: int| 0 <= i < old(self).sprites@.len() ==> {
                let o = old(self).sprites@[i];
                #[trigger] final(self).sprites@[i] == if i == sprite_index {
                    SpriteWithOffset { alpha: alpha_after(o.alpha, change) as u8, ..o }
                } else {
                    o
                }
            },
    {
        let mut alpha = self.get_sprite_alpha(sprite_index);
        if change > 0 {
            let raised = alpha as u16 + change as u16;
            alpha = if raised > 16 { 16 } else { raised as u8 };
        } else if change < 0 {
            let lowered = alpha as i16 + change as i16;
            alpha = if lowered < 0 { 0 } else { lowered as u8 };
        }
        self.set_sprite_alpha(sprite_index, alpha);
    }

    /// Switches every attachment whose sprite has an animation called `name`
    /// to that animation, from its first frame; an attachment already showing
    /// that very animation keeps running.
    pub fn start_animation(&mut self, name: &str)
        ensures
            final(self).same_but_sprites(*old(self)),
            final(self).sprites@.len() == old(self).sprites@.len(),
            forall|i: int| 0 <= i < old(self).sprites@.len() ==>
                #[trigger] final(self).sprites@[i] == started(old(self).sprites@[i], name@),
    {
        let ghost before = self.sprites@;
        let mut i: usize = 0;
        while i < self.sprites.len()
            invariant
                self.same_but_sprites(*old(self)),
                before == old(self).sprites@,
                self.sprites@.len() == before.len(),
                i <= before.len(),
                forall|k: int| 0 <= k < i ==> #[trigger] self.sprites@[k] == started(before[k], name@),
                forall|k: int| i <= k < before.len() ==> #[trigger] self.sprites@[k] == before[k],
            decreases before.len() - i,
        {
            let current = &self.sprites[i];
            if let Some(idx) = current.sprite.animation_index_by_name(name) {
                if idx != current.animation_index {
                    let s = SpriteWithOffset {
                        sprite: share(&current.sprite),
                        animation: share(&current.sprite.animations[idx]),
                        animation_index: idx,
                        animation_frame: 0,
                        x_offset: current.x_offset,
                        y_offset: current.y_offset,
                        blend_mode: current.blend_mode,
                        alpha: current.alpha,
                    };
                    self.sprites.set(i, s);
                }
            }
            i += 1;
        }
    }
}

impl ActorInfo {
    /// Equal field by field, sprites compared by content.
    pub open spec fn same_as(&self, o: ActorInfo) -> bool {
        &&& self.same_but_sprites(o)
        &&& self.sprites@ == o.sprites@
    }

    /// A copy that shares the sprites' data.
    pub fn duplicate(&self) -> (r: ActorInfo)
        ensures
            r.same_as(*self),
    {
        let mut sprites: Vec<SpriteWithOffset> = Vec::new();
        let mut i: usize = 0;
        while i < self.sprites.len()
            invariant
                i <= self.sprites@.len(),
                sprites@ == self.sprites@.subrange(0, i as int),
            decreases self.sprites@.len() - i,
        {
            sprites.push(self.sprites[i].duplicate());
            i += 1;
            assert(sprites@ =~= self.sprites@.subrange(0, i as int));
        }
        assert(sprites@ =~= self.sprites@);
        let r = ActorInfo {
            x: self.x,
            y: self.y,
            subpixel_x: self.subpixel_x,
            subpixel_y: self.subpixel_y,
            velocity_x: self.velocity_x,
            velocity_y: self.velocity_y,
            collision_bounds: self.collision_bounds,
            collision_channel: self.collision_channel,
            blocking_collision: self.blocking_collision,
            sprites,
            destroyed: self.destroyed,
            health: self.health,
        };
        r
    }

    /// Moves every attached animation on by one frame.
    pub fn advance_animations(&mut self)
        ensures
            final(self).same_but_sprites(*old(self)),
            final(self).sprites@.len() == old(self).sprites@.len(),
            forall|i: int| 0 <= i < old(self).sprites@.len() ==> {
                let o = old(self).sprites@[i];
                #[trigger] final(self).sprites@[i] == SpriteWithOffset {
                    animation_frame: (if o.animation_frame == usize::MAX { 0 } else { o.animation_frame + 1 }) as usize,
                    ..o
                }
            },
    {
        let ghost before = self.sprites@;
        let mut i: usize = 0;
        while i < self.sprites.len()
            invariant
                self.same_but_sprites(*old(self)),
                before == old(self).sprites@,
                self.sprites@.len() == before.len(),
                i <= before.len(),
                forall|k: int| 0 <= k < i ==> {
                    let o = before[k];
                    #[trigger] self.sprites@[k] == SpriteWithOffset {
                        animation_frame: (if o.animation_frame == usize::MAX { 0 } else { o.animation_frame + 1 }) as usize,
                        ..o
                    }
                },
                forall|k: int| i <= k < before.len() ==> #[trigger] self.sprites@[k] == before[k],
            decreases before.len() - i,
        {
            let mut s = self.sprites[i].duplicate();
            s.animation_frame = if s.animation_frame == usize::MAX { 0 } else { s.animation_frame + 1 };
            self.sprites.set(i, s);
            i += 1;
        }
    }
}

impl ActorInfo {
    /// Whether position, velocity and collision shape are in range.
    pub fn is_valid(&self) -> (r: bool)
        ensures
            r == self.wf(),
    {
        let in_world = -POS_LIMIT <= self.x && self.x <= POS_LIMIT && -POS_LIMIT <= self.y && self.y <= POS_LIMIT
            && -FULL_LIMIT <= self.x * 256 + self.subpixel_x as isize && self.x * 256 + self.subpixel_x as isize <= FULL_LIMIT
            && -FULL_LIMIT <= self.y * 256 + self.subpixel_y as isize && self.y * 256 + self.subpixel_y as isize <= FULL_LIMIT;
        let speed = -VEL_LIMIT <= self.velocity_x && self.velocity_x <= VEL_LIMIT
            && -VEL_LIMIT <= self.velocity_y && self.velocity_y <= VEL_LIMIT;
        let shape = match &self.collision_bounds {
            Some(b) => -POS_LIMIT <= b.x && b.x <= POS_LIMIT && -POS_LIMIT <= b.y && b.y <= POS_LIMIT
                && 0 <= b.width && b.width <= POS_LIMIT && 0 <= b.height && b.height <= POS_LIMIT,
            None => true,
        };
        in_world && speed && shape
    }
}

} // verus!
