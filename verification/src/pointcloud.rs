//! The incremental spatial-grid point cloud: a sparse map from integer grid
//! cells to the colored points inside them. Merging an RGB-D frame evicts
//! stored points that the new depth image contradicts and inserts one point
//! per valid depth pixel, reporting every cell it touched so a renderer can
//! re-mesh only what changed.

use std::collections::HashMap;
use vstd::prelude::*;
use vstd::arithmetic::div_mod::lemma_fundamental_div_mod_converse;
use crate::geom::{CameraIntrinsics, Point3, Pose, Projector};
use crate::num::floor_div_i64;

verus! {

broadcast use vstd::std_specs::hash::group_hash_axioms;

/// Bound on grid cell coordinates.
pub const GRID_IDX_LIMIT: i64 = 0x200_0000_0000;

/// Points farther than this from the camera are ignored (micrometers).
pub const MAX_DEPTH_UM: i64 = 5_000_000;

/// A stored point is evicted when the new depth reading at its pixel is
/// deeper than the stored depth minus this margin (micrometers).
pub const STALE_MARGIN_UM: i64 = 500_000;

/// An RGB color sample.
#[derive(Clone, Copy, Debug, PartialEq, Eq, Structural)]
pub struct Color {
    pub r: u8,
    pub g: u8,
    pub b: u8,
}

/// One reconstructed point: position, color, and world-space footprint.
#[derive(Clone, Copy, Debug, PartialEq, Eq, Structural)]
pub struct Point {
    pub position: Point3,
    pub color: Color,
    pub size: i64,
}

/// Coordinates of one cubic grid cell.
#[derive(Clone, Copy, Debug, PartialEq, Eq, Structural)]
pub struct GridIndex {
    pub x: i64,
    pub y: i64,
    pub z: i64,
}

impl GridIndex {
    pub open spec fn in_range(self) -> bool {
        &&& -GRID_IDX_LIMIT < self.x < GRID_IDX_LIMIT
        &&& -GRID_IDX_LIMIT < self.y < GRID_IDX_LIMIT
        &&& -GRID_IDX_LIMIT < self.z < GRID_IDX_LIMIT
    }
}

/// The key a grid index is stored under: three offset 42-bit fields.
pub open spec fn s_key(g: GridIndex) -> int {
    (g.x + GRID_IDX_LIMIT) * 0x10_0000_0000_0000_0000_0000 + (g.y + GRID_IDX_LIMIT)
        * 0x400_0000_0000 + (g.z + GRID_IDX_LIMIT)
}

pub open spec fn key_of(g: GridIndex) -> u128 {
    s_key(g) as u128
}

/// Distinct in-range grid indexes get distinct keys.
pub proof fn lemma_key_injective(a: GridIndex, b: GridIndex)
    requires
        a.in_range(),
        b.in_range(),
        key_of(a) == key_of(b),
    ensures
        a == b,
{
    let stride: int = 0x400_0000_0000;
    let stride2: int = 0x10_0000_0000_0000_0000_0000;
    let ra = (a.y + GRID_IDX_LIMIT) * stride + (a.z + GRID_IDX_LIMIT);
    let rb = (b.y + GRID_IDX_LIMIT) * stride + (b.z + GRID_IDX_LIMIT);
    assert(0 <= s_key(a) < 0x4_0000_0000_0000_0000_0000_0000_0000_0000);
    assert(0 <= s_key(b) < 0x4_0000_0000_0000_0000_0000_0000_0000_0000);
    assert(s_key(a) == s_key(b));
    lemma_fundamental_div_mod_converse(s_key(a), stride2, a.x + GRID_IDX_LIMIT, ra);
    lemma_fundamental_div_mod_converse(s_key(b), stride2, b.x + GRID_IDX_LIMIT, rb);
    lemma_fundamental_div_mod_converse(ra, stride, a.y + GRID_IDX_LIMIT, a.z + GRID_IDX_LIMIT);
    lemma_fundamental_div_mod_converse(rb, stride, b.y + GRID_IDX_LIMIT, b.z + GRID_IDX_LIMIT);
}

fn pack_key(g: &GridIndex) -> (k: u128)
    requires
        g.in_range(),
    ensures
        k == key_of(*g),
{
    let x = (g.x + GRID_IDX_LIMIT) as u128;
    let y = (g.y + GRID_IDX_LIMIT) as u128;
    let z = (g.z + GRID_IDX_LIMIT) as u128;
    x * 0x10_0000_0000_0000_0000_0000 + y * 0x400_0000_0000 + z
}

/// Floor of each coordinate divided by the cell size.
pub open spec fn s_grid_index(grid_size: i64, p: Point3) -> GridIndex {
    GridIndex {
        x: (p.x as int / grid_size as int) as i64,
        y: (p.y as int / grid_size as int) as i64,
        z: (p.z as int / grid_size as int) as i64,
    }
}

/// A sparse mapping from grid cells to the points inside them. Every stored
/// point lies in the cell it is keyed under, and no empty cell is kept.
pub struct SpacialGridMap {
    grid_size: i64,
    grids: HashMap<u128, Vec<Point>>,
}

impl SpacialGridMap {
    /// Cell size in micrometers.
    pub closed spec fn spec_grid_size(&self) -> i64 {
        self.grid_size
    }

    /// The abstract contents: each stored key to its point sequence.
    pub closed spec fn gmap(&self) -> Map<u128, Seq<Point>> {
        self.grids@.map_values(|v: Vec<Point>| v@)
    }

    /// The points of one cell (empty when the cell is absent).
    pub open spec fn cell(&self, g: GridIndex) -> Seq<Point> {
        if self.gmap().contains_key(key_of(g)) {
            self.gmap()[key_of(g)]
        } else {
            Seq::empty()
        }
    }

    /// A point belongs in cell `g`.
    pub open spec fn point_in_cell(&self, g: GridIndex, p: Point) -> bool {
        &&& p.position.in_bounds()
        &&& s_grid_index(self.spec_grid_size(), p.position) == g
    }

    /// Well-formedness: a sane cell size, and every stored point filed under
    /// the in-range cell that contains it, with no empty cell kept.
    pub open spec fn wf(&self) -> bool {
        &&& 1 <= self.spec_grid_size() <= 0x8000_0000
        &&& forall|k: u128| #[trigger] self.gmap().contains_key(k) ==> {
            &&& self.gmap()[k].len() > 0
            &&& forall|i: int|
                #![trigger self.gmap()[k][i]]
                0 <= i < self.gmap()[k].len() ==> {
                    let p = self.gmap()[k][i];
                    &&& p.position.in_bounds()
                    &&& s_grid_index(self.spec_grid_size(), p.position).in_range()
                    &&& key_of(s_grid_index(self.spec_grid_size(), p.position)) == k
                }
        }
    }

    pub fn new(grid_size: i64) -> (r: Self)
        requires
            1 <= grid_size <= 0x8000_0000,
        ensures
            r.wf(),
            r.spec_grid_size() == grid_size,
            forall|g: GridIndex| #[trigger] r.cell(g) == Seq::<Point>::empty(),
    {
        let r = SpacialGridMap { grid_size, grids: HashMap::new() };
        proof {
            assert(r.gmap() =~= Map::<u128, Seq<Point>>::empty());
        }
        r
    }

    pub fn grid_size(&self) -> (r: i64)
        ensures
            r == self.spec_grid_size(),
    {
        self.grid_size
    }

    /// The cell containing a position.
    pub fn grid_index(&self, p: &Point3) -> (g: GridIndex)
        requires
            self.spec_grid_size() >= 1,
        ensures
            g == s_grid_index(self.spec_grid_size(), *p),
            p.in_bounds() ==> -crate::geom::POS_LIMIT <= g.x <= crate::geom::POS_LIMIT
                && -crate::geom::POS_LIMIT <= g.y <= crate::geom::POS_LIMIT
                && -crate::geom::POS_LIMIT <= g.z <= crate::geom::POS_LIMIT,
    {
        GridIndex {
            x: floor_div_i64(p.x, self.grid_size),
            y: floor_div_i64(p.y, self.grid_size),
            z: floor_div_i64(p.z, self.grid_size),
        }
    }

    /// Append a point to its cell.
    pub fn add_point(&mut self, point: &Point)
        requires
            old(self).wf(),
            point.position.in_bounds(),
            s_grid_index(old(self).spec_grid_size(), point.position).in_range(),
        ensures
            final(self).wf(),
            final(self).spec_grid_size() == old(self).spec_grid_size(),
            final(self).cell(s_grid_index(old(self).spec_grid_size(), point.position)) == old(
                self,
            ).cell(s_grid_index(old(self).spec_grid_size(), point.position)).push(*point),
            forall|g: GridIndex|
                g.in_range() && g != s_grid_index(old(self).spec_grid_size(), point.position)
                    ==> #[trigger] final(self).cell(g) == old(self).cell(g),
    {
        let g = self.grid_index(&point.position);
        let key = pack_key(&g);
        let mut cellv: Vec<Point> = match self.grids.remove(&key) {
            Option::Some(v) => v,
            Option::None => Vec::new(),
        };
        cellv.push(*point);
        let ghost cellseq = cellv@;
        let ghost mid = *self;
        self.grids.insert(key, cellv);
        proof {
            assert(self.gmap() =~= mid.gmap().insert(key, cellseq));
            assert forall|g2: GridIndex| g2.in_range() && g2 != g implies #[trigger] self.cell(g2)
                == old(self).cell(g2) by {
                if key_of(g2) == key_of(g) {
                    lemma_key_injective(g2, g);
                }
            }
            assert(self.cell(g) =~= old(self).cell(g).push(*point));
            assert forall|k: u128| #[trigger] self.gmap().contains_key(k) implies {
                &&& self.gmap()[k].len() > 0
                &&& forall|i: int|
                    #![trigger self.gmap()[k][i]]
                    0 <= i < self.gmap()[k].len() ==> {
                        let p = self.gmap()[k][i];
                        &&& p.position.in_bounds()
                        &&& s_grid_index(self.spec_grid_size(), p.position).in_range()
                        &&& key_of(s_grid_index(self.spec_grid_size(), p.position)) == k
                    }
            } by {
                if k != key_of(g) {
                    assert(old(self).gmap().contains_key(k));
                }
            }
        }
    }

    /// Read-only access to one cell.
    pub fn points_in_grid(&self, grid_index: &GridIndex) -> (r: Option<&Vec<Point>>)
        requires
            grid_index.in_range(),
        ensures
            match r {
                Option::Some(v) => v@ == self.cell(*grid_index) && self.gmap().contains_key(
                    key_of(*grid_index),
                ),
                Option::None => self.cell(*grid_index) == Seq::<Point>::empty(),
            },
    {
        let key = pack_key(grid_index);
        let r = self.grids.get(&key);
        proof {
            match r {
                Option::Some(v) => {
                    assert(self.gmap().contains_key(key));
                    assert(self.gmap()[key] == v@);
                },
                Option::None => {
                    assert(!self.gmap().contains_key(key));
                },
            }
        }
        r
    }

    /// Drop a cell entirely.
    pub fn remove_grid(&mut self, grid_index: &GridIndex)
        requires
            old(self).wf(),
            grid_index.in_range(),
        ensures
            final(self).wf(),
            final(self).spec_grid_size() == old(self).spec_grid_size(),
            final(self).cell(*grid_index) == Seq::<Point>::empty(),
            forall|g: GridIndex|
                g.in_range() && g != *grid_index ==> #[trigger] final(self).cell(g) == old(
                    self,
                ).cell(g),
    {
        let key = pack_key(grid_index);
        self.grids.remove(&key);
        proof {
            assert forall|g2: GridIndex| g2.in_range() && g2 != *grid_index implies #[trigger] self
                .cell(g2) == old(self).cell(g2) by {
                if key_of(g2) == key_of(*grid_index) {
                    lemma_key_injective(g2, *grid_index);
                }
            }
            assert forall|k: u128| #[trigger] self.gmap().contains_key(k) implies
                old(self).gmap().contains_key(k) && self.gmap()[k] == old(self).gmap()[k] by {}
        }
    }

    /// Replace the contents of cell `g`, dropping the cell when empty.
    fn set_cell(&mut self, g: &GridIndex, points: Vec<Point>)
        requires
            old(self).wf(),
            g.in_range(),
            forall|i: int|
                0 <= i < points@.len() ==> #[trigger] old(self).point_in_cell(*g, points@[i]),
        ensures
            final(self).wf(),
            final(self).spec_grid_size() == old(self).spec_grid_size(),
            final(self).cell(*g) == points@,
            forall|g2: GridIndex|
                g2.in_range() && g2 != *g ==> #[trigger] final(self).cell(g2) == old(self).cell(
                    g2,
                ),
    {
        let key = pack_key(g);
        if points.len() == 0 {
            self.remove_grid(g);
            proof {
                assert(self.cell(*g) =~= points@);
            }
        } else {
            let ghost pts = points@;
            self.grids.insert(key, points);
            proof {
                assert(self.gmap() =~= old(self).gmap().insert(key, pts));
                assert forall|g2: GridIndex| g2.in_range() && g2 != *g implies #[trigger] self.cell(
                    g2,
                ) == old(self).cell(g2) by {
                    if key_of(g2) == key_of(*g) {
                        lemma_key_injective(g2, *g);
                    }
                }
                assert forall|k: u128| #[trigger] self.gmap().contains_key(k) implies {
                    &&& self.gmap()[k].len() > 0
                    &&& forall|i: int|
                        #![trigger self.gmap()[k][i]]
                        0 <= i < self.gmap()[k].len() ==> {
                            let p = self.gmap()[k][i];
                            &&& p.position.in_bounds()
                            &&& s_grid_index(self.spec_grid_size(), p.position).in_range()
                            &&& key_of(s_grid_index(self.spec_grid_size(), p.position)) == k
                        }
                } by {
                    if k == key {
                        assert(self.gmap()[k] == pts);
                        assert forall|i: int|
                            #![trigger self.gmap()[k][i]]
                            0 <= i < self.gmap()[k].len() implies {
                            let p = self.gmap()[k][i];
                            &&& p.position.in_bounds()
                            &&& s_grid_index(self.spec_grid_size(), p.position).in_range()
                            &&& key_of(s_grid_index(self.spec_grid_size(), p.position)) == k
                        } by {
                            assert(old(self).point_in_cell(*g, pts[i]));
                        }
                    } else {
                        assert(old(self).gmap().contains_key(k));
                        assert(self.gmap()[k] == old(self).gmap()[k]);
                    }
                }
            }
        }
    }
}


proof fn lemma_push_contains<T>(s: Seq<T>, x: T)
    ensures
        s.push(x).contains(x),
        forall|y: T| s.contains(y) ==> #[trigger] s.push(x).contains(y),
        forall|y: T| #[trigger] s.push(x).contains(y) ==> s.contains(y) || y == x,
{
    assert(s.push(x)[s.len() as int] == x);
    assert forall|y: T| s.contains(y) implies #[trigger] s.push(x).contains(y) by {
        let i = choose|i: int| 0 <= i < s.len() && s[i] == y;
        assert(s.push(x)[i] == y);
    }
    assert forall|y: T| #[trigger] s.push(x).contains(y) implies s.contains(y) || y == x by {
        let i = choose|i: int| 0 <= i < s.push(x).len() && s.push(x)[i] == y;
        if i < s.len() {
            assert(s[i] == y);
        }
    }
}

fn in_range_exec(g: &GridIndex) -> (r: bool)
    ensures
        r == g.in_range(),
{
    -GRID_IDX_LIMIT < g.x && g.x < GRID_IDX_LIMIT && -GRID_IDX_LIMIT < g.y && g.y < GRID_IDX_LIMIT
        && -GRID_IDX_LIMIT < g.z && g.z < GRID_IDX_LIMIT
}

fn contains_idx(v: &Vec<GridIndex>, g: &GridIndex) -> (r: bool)
    ensures
        r == v@.contains(*g),
{
    let mut i: usize = 0;
    while i < v.len()
        invariant
            i <= v@.len(),
            forall|j: int| 0 <= j < i ==> v@[j] != *g,
        decreases v@.len() - i,
    {
        if v[i] == *g {
            return true;
        }
        i += 1;
    }
    false
}

/// A row-major 8-bit RGB image.
pub struct ColorImage {
    pub width: u32,
    pub height: u32,
    pub pixels: Vec<Color>,
}

impl ColorImage {
    pub open spec fn wf(&self) -> bool {
        self.pixels@.len() == self.width * self.height
    }
}

/// A row-major 16-bit depth image; a zero sample means no return.
pub struct DepthImage {
    pub width: u32,
    pub height: u32,
    pub pixels: Vec<u16>,
}

impl DepthImage {
    pub open spec fn wf(&self) -> bool {
        self.pixels@.len() == self.width * self.height
    }
}

/// One correlated RGB-D frame: the capture pose, a color image and a depth
/// image with their intrinsics, and the depth scale in micrometers per count.
pub struct ImagesMessage {
    pub odometry: Pose,
    pub color: ColorImage,
    pub color_intrinsics: CameraIntrinsics,
    pub depth: DepthImage,
    pub depth_intrinsics: CameraIntrinsics,
    pub depth_unit_um: u32,
}

impl ImagesMessage {
    pub open spec fn wf(&self) -> bool {
        &&& self.odometry.wf()
        &&& self.color_intrinsics.wf()
        &&& self.depth_intrinsics.wf()
        &&& self.color.wf()
        &&& self.depth.wf()
        &&& self.color.width == self.color_intrinsics.width
        &&& self.color.height == self.color_intrinsics.height
        &&& self.depth.width == self.depth_intrinsics.width
        &&& self.depth.height == self.depth_intrinsics.height
        &&& 1 <= self.depth_unit_um <= 0x10_0000
    }

    pub open spec fn color_projector(&self) -> Projector {
        Projector { intrinsics: self.color_intrinsics, extrinsics: self.odometry }
    }

    pub open spec fn depth_projector(&self) -> Projector {
        Projector { intrinsics: self.depth_intrinsics, extrinsics: self.odometry }
    }
}

/// A stored point is contradicted by the frame: it projects into both images,
/// and the new depth reading at its pixel is not clearly in front of it.
pub open spec fn s_removable(msg: &ImagesMessage, p: Point) -> bool {
    match (
        msg.color_projector().s_point_to_pixel(p.position),
        msg.depth_projector().s_point_to_pixel(p.position),
    ) {
        (Option::Some(_), Option::Some(dpix)) => {
            let d_old = msg.depth_projector().s_point_depth(p.position);
            let d_new = msg.depth.pixels@[dpix.1 * msg.depth.width + dpix.0]
                * msg.depth_unit_um;
            d_new > d_old - STALE_MARGIN_UM
        },
        _ => false,
    }
}

/// Depth of pixel `k` in micrometers.
pub open spec fn s_pixel_depth_um(msg: &ImagesMessage, k: int) -> int {
    msg.depth.pixels@[k] * msg.depth_unit_um
}

/// The world point seen at depth pixel `k`.
pub open spec fn s_pixel_point3(msg: &ImagesMessage, k: int) -> Point3 {
    let t = msg.depth_projector().s_pixel_to_point(
        k % (msg.depth.width as int),
        k / (msg.depth.width as int),
        s_pixel_depth_um(msg, k),
    );
    Point3 { x: t.0 as i64, y: t.1 as i64, z: t.2 as i64 }
}

/// Depth pixel `k` inserts a point: its depth is a real return within range,
/// the point lands inside the color image, and its cell is representable.
pub open spec fn s_pixel_valid(grid_size: i64, msg: &ImagesMessage, k: int) -> bool {
    &&& 0 < s_pixel_depth_um(msg, k) <= MAX_DEPTH_UM
    &&& msg.color_projector().s_point_to_pixel(s_pixel_point3(msg, k)) is Some
    &&& s_grid_index(grid_size, s_pixel_point3(msg, k)).in_range()
}

/// The point that depth pixel `k` inserts.
pub open spec fn s_pixel_point(msg: &ImagesMessage, k: int) -> Point {
    let pt = s_pixel_point3(msg, k);
    let cpix = msg.color_projector().s_point_to_pixel(pt)->Some_0;
    Point {
        position: pt,
        color: msg.color.pixels@[cpix.1 * msg.color.width + cpix.0],
        size: msg.depth_projector().s_point_size(s_pixel_depth_um(msg, k)) as i64,
    }
}

/// The eviction test as a predicate value, shared by every spec that filters
/// a cell against the frame.
pub open spec fn s_keep(msg: &ImagesMessage) -> spec_fn(Point) -> bool {
    |p: Point| !s_removable(msg, p)
}

/// Corner `c` (0..8) of cell `g`, in micrometers: each axis offset by one of
/// the corner's three bits.
pub open spec fn s_corner(gs: i64, g: GridIndex, c: int) -> (int, int, int) {
    ((g.x + c % 2) * gs, (g.y + (c / 2) % 2) * gs, (g.z + c / 4) * gs)
}

/// Corner `c` is representable and projects into the camera closer than the
/// depth horizon.
pub open spec fn s_corner_visible(gs: i64, cp: Projector, g: GridIndex, c: int) -> bool {
    let (x, y, z) = s_corner(gs, g, c);
    &&& -crate::geom::POS_LIMIT <= x <= crate::geom::POS_LIMIT
    &&& -crate::geom::POS_LIMIT <= y <= crate::geom::POS_LIMIT
    &&& -crate::geom::POS_LIMIT <= z <= crate::geom::POS_LIMIT
    &&& cp.s_point_to_pixel(Point3 { x: x as i64, y: y as i64, z: z as i64 }) is Some
    &&& cp.s_point_depth(Point3 { x: x as i64, y: y as i64, z: z as i64 }) < MAX_DEPTH_UM
}

/// Some corner of the cell is visible to the camera.
pub open spec fn s_cell_visible(gs: i64, cp: Projector, g: GridIndex) -> bool {
    exists|c: int| 0 <= c < 8 && s_corner_visible(gs, cp, g, c)
}

/// The cell lies inside the camera's frustum bound at the depth horizon.
pub open spec fn s_cell_in_box(gs: i64, cp: Projector, g: GridIndex) -> bool {
    let (lo, hi) = cp.s_aabb(MAX_DEPTH_UM as int);
    &&& lo.0 / (gs as int) <= g.x <= hi.0 / (gs as int)
    &&& lo.1 / (gs as int) <= g.y <= hi.1 / (gs as int)
    &&& lo.2 / (gs as int) <= g.z <= hi.2 / (gs as int)
}

/// A representable, occupied cell whose index lies in the box spanned by the
/// two corner positions.
pub open spec fn s_grid_box_member(m: SpacialGridMap, lo: Point3, hi: Point3, g: GridIndex) -> bool {
    let gs = m.spec_grid_size() as int;
    &&& g.in_range()
    &&& m.cell(g).len() > 0
    &&& lo.x as int / gs <= g.x <= hi.x as int / gs
    &&& lo.y as int / gs <= g.y <= hi.y as int / gs
    &&& lo.z as int / gs <= g.z <= hi.z as int / gs
}

/// A cell the frame's eviction pass examines: representable, occupied, inside
/// the frustum bound, with a visible corner.
pub open spec fn s_candidate(m: SpacialGridMap, cp: Projector, g: GridIndex) -> bool {
    &&& g.in_range()
    &&& m.cell(g).len() > 0
    &&& s_cell_in_box(m.spec_grid_size(), cp, g)
    &&& s_cell_visible(m.spec_grid_size(), cp, g)
}

/// What eviction leaves of a cell: candidates keep exactly their
/// uncontradicted points, in order; any other cell is untouched.
pub open spec fn s_kept_cell(m: SpacialGridMap, msg: &ImagesMessage, g: GridIndex) -> Seq<Point> {
    if s_candidate(m, msg.color_projector(), g) {
        m.cell(g).filter(s_keep(msg))
    } else {
        m.cell(g)
    }
}

/// The points of the first `k` depth pixels that land in cell `g`, in pixel
/// order.
pub open spec fn s_inserted_upto(gs: i64, msg: &ImagesMessage, g: GridIndex, k: int) -> Seq<Point>
    decreases k,
{
    if k <= 0 {
        Seq::empty()
    } else {
        let rest = s_inserted_upto(gs, msg, g, k - 1);
        if s_pixel_valid(gs, msg, k - 1) && s_grid_index(gs, s_pixel_point3(msg, k - 1)) == g {
            rest.push(s_pixel_point(msg, k - 1))
        } else {
            rest
        }
    }
}

/// Every point the frame inserts into cell `g`.
pub open spec fn s_inserted_at(gs: i64, msg: &ImagesMessage, g: GridIndex) -> Seq<Point> {
    s_inserted_upto(gs, msg, g, msg.depth.pixels@.len() as int)
}

/// A cell's exact contents after one merge: what eviction kept, then what the
/// frame's pixels inserted, in pixel order.
pub open spec fn s_merged_cell(m: SpacialGridMap, msg: &ImagesMessage, g: GridIndex) -> Seq<
    Point,
> {
    s_kept_cell(m, msg, g) + s_inserted_at(m.spec_grid_size(), msg, g)
}

/// The merge touched the cell: eviction dropped a point from it, or a pixel
/// inserted one.
pub open spec fn s_cell_touched(m: SpacialGridMap, msg: &ImagesMessage, g: GridIndex) -> bool {
    ||| s_kept_cell(m, msg, g) != m.cell(g)
    ||| s_inserted_at(m.spec_grid_size(), msg, g) != Seq::<Point>::empty()
}

/// Appending an element filters to the old filtrate, plus the element when it
/// passes.
proof fn lemma_filter_push<T>(s: Seq<T>, pred: spec_fn(T) -> bool, x: T)
    ensures
        s.push(x).filter(pred) == if pred(x) {
            s.filter(pred).push(x)
        } else {
            s.filter(pred)
        },
{
    reveal(Seq::filter);
    assert(s.push(x).drop_last() =~= s);
    assert(s.push(x).last() == x);
}

/// A filtrate as long as its source is its source.
proof fn lemma_filter_full<T>(s: Seq<T>, pred: spec_fn(T) -> bool)
    ensures
        s.filter(pred).len() <= s.len(),
        s.filter(pred).len() == s.len() ==> s.filter(pred) == s,
    decreases s.len(),
{
    reveal(Seq::filter);
    if s.len() > 0 {
        let dl = s.drop_last();
        lemma_filter_full(dl, pred);
        if pred(s.last()) {
            if s.filter(pred).len() == s.len() {
                assert(dl.filter(pred) == dl);
                assert(dl.push(s.last()) =~= s);
            }
        }
    }
}

/// The filtrate holds only elements of its source.
proof fn lemma_filter_subset<T>(s: Seq<T>, pred: spec_fn(T) -> bool)
    ensures
        forall|x: T| #[trigger] s.filter(pred).contains(x) ==> s.contains(x),
    decreases s.len(),
{
    reveal(Seq::filter);
    if s.len() > 0 {
        let dl = s.drop_last();
        lemma_filter_subset(dl, pred);
        assert forall|x: T| #[trigger] s.filter(pred).contains(x) implies s.contains(x) by {
            lemma_push_contains(dl.filter(pred), s.last());
            if s.filter(pred).contains(x) {
                if dl.filter(pred).contains(x) {
                    let t = choose|t: int| 0 <= t < dl.len() && dl[t] == x;
                    assert(s[t] == x);
                } else {
                    assert(x == s.last());
                    assert(s[s.len() - 1] == x);
                }
            }
        }
    }
}

/// Appending to the right part of a concatenation appends to the whole.
proof fn lemma_concat_push<T>(a: Seq<T>, b: Seq<T>, x: T)
    ensures
        (a + b).push(x) == a + b.push(x),
{
    assert((a + b).push(x) =~= a + b.push(x));
}

/// Filtering what already passed the filter changes nothing.
proof fn lemma_filter_idempotent<T>(s: Seq<T>, pred: spec_fn(T) -> bool)
    ensures
        s.filter(pred).filter(pred) == s.filter(pred),
    decreases s.len(),
{
    reveal(Seq::filter);
    if s.len() > 0 {
        let dl = s.drop_last();
        lemma_filter_idempotent(dl, pred);
        if pred(s.last()) {
            lemma_filter_push(dl.filter(pred), pred, s.last());
        }
    }
}

/// The reconstruction: a spatial grid of points, mutable only by merging
/// frames.
pub struct PointCloud {
    grid_map: SpacialGridMap,
}

impl PointCloud {
    pub closed spec fn map(&self) -> SpacialGridMap {
        self.grid_map
    }

    pub open spec fn wf(&self) -> bool {
        self.map().wf()
    }

    pub fn new(grid_size: i64) -> (r: Self)
        requires
            1 <= grid_size <= 0x8000_0000,
        ensures
            r.wf(),
            r.map().spec_grid_size() == grid_size,
            forall|g: GridIndex| #[trigger] r.map().cell(g) == Seq::<Point>::empty(),
    {
        PointCloud { grid_map: SpacialGridMap::new(grid_size) }
    }

    pub fn grid_map(&self) -> (r: &SpacialGridMap)
        ensures
            *r == self.map(),
    {
        &self.grid_map
    }
}


impl PointCloud {
    /// Does any corner of cell `g` project into the camera closer than the
    /// depth horizon? Corners beyond the representable volume are ignored.
    fn cell_visible(&self, cp: &Projector, g: &GridIndex) -> (r: bool)
        requires
            self.wf(),
            cp.wf(),
            g.in_range(),
        ensures
            r == s_cell_visible(self.map().spec_grid_size(), *cp, *g),
    {
        let gs = self.grid_map.grid_size() as i128;
        let ghost gsv = self.map().spec_grid_size();
        let mut corner: usize = 0;
        let mut seen = false;
        while corner < 8 && !seen
            invariant
                self.wf(),
                cp.wf(),
                g.in_range(),
                gs == gsv as int,
                gsv == self.map().spec_grid_size(),
                1 <= gs <= 0x8000_0000,
                corner <= 8,
                seen ==> corner < 8 && s_corner_visible(gsv, *cp, *g, corner as int),
                !seen ==> forall|c: int| 0 <= c < corner ==> !s_corner_visible(gsv, *cp, *g, c),
            decreases 8 - corner + (if seen {
                0int
            } else {
                1int
            }),
        {
            let dx = (corner % 2) as i128;
            let dy = (corner / 2 % 2) as i128;
            let dz = (corner / 4) as i128;
            proof {
                crate::geom::lemma_abs_mul_le(g.x + dx, gs as int, GRID_IDX_LIMIT as int + 1, 0x8000_0000);
                crate::geom::lemma_abs_mul_le(g.y + dy, gs as int, GRID_IDX_LIMIT as int + 1, 0x8000_0000);
                crate::geom::lemma_abs_mul_le(g.z + dz, gs as int, GRID_IDX_LIMIT as int + 1, 0x8000_0000);
            }
            let cx = (g.x as i128 + dx) * gs;
            let cy = (g.y as i128 + dy) * gs;
            let cz = (g.z as i128 + dz) * gs;
            proof {
                assert((cx as int, cy as int, cz as int) == s_corner(gsv, *g, corner as int));
            }
            let lim = crate::geom::POS_LIMIT as i128;
            if -lim <= cx && cx <= lim && -lim <= cy && cy <= lim && -lim <= cz && cz <= lim {
                let pt = Point3 { x: cx as i64, y: cy as i64, z: cz as i64 };
                if let Option::Some(_) = cp.point_to_pixel(&pt) {
                    if cp.point_depth(&pt) < MAX_DEPTH_UM {
                        seen = true;
                        proof {
                            assert(s_corner_visible(gsv, *cp, *g, corner as int));
                        }
                    }
                }
            }
            proof {
                if !seen {
                    assert(!s_corner_visible(gsv, *cp, *g, corner as int));
                }
            }
            if !seen {
                corner += 1;
            }
        }
        proof {
            if seen {
                assert(s_cell_visible(gsv, *cp, *g));
            } else {
                assert(corner == 8);
                assert(!s_cell_visible(gsv, *cp, *g)) by {
                    if s_cell_visible(gsv, *cp, *g) {
                        let c = choose|c: int| 0 <= c < 8 && s_corner_visible(gsv, *cp, *g, c);
                        assert(!s_corner_visible(gsv, *cp, *g, c));
                    }
                }
            }
        }
        seen
    }

}

impl SpacialGridMap {
    /// Every representable, occupied cell whose index lies in the box spanned
    /// by the two corner positions — the cells an axis-aligned bound can
    /// touch.
    pub fn grids_touching_aabb(&self, lo: &Point3, hi: &Point3) -> (out: Vec<GridIndex>)
        requires
            self.wf(),
            lo.in_bounds(),
            hi.in_bounds(),
        ensures
            forall|g: GridIndex| #[trigger] out@.contains(g) <==> s_grid_box_member(*self, *lo, *hi, g),
    {
        let lo_idx = self.grid_index(lo);
        let hi_idx = self.grid_index(hi);
        let ghost gs = self.spec_grid_size() as int;
        proof {
            crate::num::lemma_div_shrinks(lo.x as int, gs);
            crate::num::lemma_div_shrinks(lo.y as int, gs);
            crate::num::lemma_div_shrinks(lo.z as int, gs);
            crate::num::lemma_div_shrinks(hi.x as int, gs);
            crate::num::lemma_div_shrinks(hi.y as int, gs);
            crate::num::lemma_div_shrinks(hi.z as int, gs);
            assert(lo_idx.x as int == lo.x as int / gs);
            assert(lo_idx.y as int == lo.y as int / gs);
            assert(lo_idx.z as int == lo.z as int / gs);
            assert(hi_idx.x as int == hi.x as int / gs);
            assert(hi_idx.y as int == hi.y as int / gs);
            assert(hi_idx.z as int == hi.z as int / gs);
        }
        let mut out: Vec<GridIndex> = Vec::new();
        let mut gx = lo_idx.x;
        while gx <= hi_idx.x
            invariant
                self.wf(),
                gs == self.spec_grid_size() as int,
                lo_idx.x as int == lo.x as int / gs,
                lo_idx.y as int == lo.y as int / gs,
                lo_idx.z as int == lo.z as int / gs,
                hi_idx.x as int == hi.x as int / gs,
                hi_idx.y as int == hi.y as int / gs,
                hi_idx.z as int == hi.z as int / gs,
                -crate::geom::POS_LIMIT <= lo_idx.x <= crate::geom::POS_LIMIT,
                -crate::geom::POS_LIMIT <= lo_idx.y <= crate::geom::POS_LIMIT,
                -crate::geom::POS_LIMIT <= lo_idx.z <= crate::geom::POS_LIMIT,
                -crate::geom::POS_LIMIT <= hi_idx.x <= crate::geom::POS_LIMIT,
                -crate::geom::POS_LIMIT <= hi_idx.y <= crate::geom::POS_LIMIT,
                -crate::geom::POS_LIMIT <= hi_idx.z <= crate::geom::POS_LIMIT,
                lo_idx.x <= gx <= hi_idx.x + 1 || gx == lo_idx.x,
                forall|g: GridIndex|
                    #[trigger] out@.contains(g) ==> s_grid_box_member(*self, *lo, *hi, g),
                forall|g: GridIndex|
                    s_grid_box_member(*self, *lo, *hi, g) && g.x < gx ==> #[trigger] out@.contains(
                        g,
                    ),
            decreases hi_idx.x - gx + 1,
        {
            let mut gy = lo_idx.y;
            while gy <= hi_idx.y
                invariant
                    self.wf(),
                    gs == self.spec_grid_size() as int,
                    lo_idx.x as int == lo.x as int / gs,
                    lo_idx.y as int == lo.y as int / gs,
                    lo_idx.z as int == lo.z as int / gs,
                    hi_idx.x as int == hi.x as int / gs,
                    hi_idx.y as int == hi.y as int / gs,
                    hi_idx.z as int == hi.z as int / gs,
                    -crate::geom::POS_LIMIT <= lo_idx.y <= crate::geom::POS_LIMIT,
                    -crate::geom::POS_LIMIT <= lo_idx.z <= crate::geom::POS_LIMIT,
                    -crate::geom::POS_LIMIT <= hi_idx.y <= crate::geom::POS_LIMIT,
                    -crate::geom::POS_LIMIT <= hi_idx.z <= crate::geom::POS_LIMIT,
                    lo_idx.x <= gx <= hi_idx.x,
                    -crate::geom::POS_LIMIT <= gx <= crate::geom::POS_LIMIT,
                    lo_idx.y <= gy <= hi_idx.y + 1 || gy == lo_idx.y,
                    forall|g: GridIndex|
                        #[trigger] out@.contains(g) ==> s_grid_box_member(*self, *lo, *hi, g),
                    forall|g: GridIndex|
                        s_grid_box_member(*self, *lo, *hi, g) && g.x < gx
                            ==> #[trigger] out@.contains(g),
                    forall|g: GridIndex|
                        s_grid_box_member(*self, *lo, *hi, g) && g.x == gx && g.y < gy
                            ==> #[trigger] out@.contains(g),
                decreases hi_idx.y - gy + 1,
            {
                let mut gz = lo_idx.z;
                while gz <= hi_idx.z
                    invariant
                        self.wf(),
                        gs == self.spec_grid_size() as int,
                        lo_idx.x as int == lo.x as int / gs,
                        lo_idx.y as int == lo.y as int / gs,
                        lo_idx.z as int == lo.z as int / gs,
                        hi_idx.x as int == hi.x as int / gs,
                        hi_idx.y as int == hi.y as int / gs,
                        hi_idx.z as int == hi.z as int / gs,
                        -crate::geom::POS_LIMIT <= lo_idx.z <= crate::geom::POS_LIMIT,
                        -crate::geom::POS_LIMIT <= hi_idx.z <= crate::geom::POS_LIMIT,
                        lo_idx.x <= gx <= hi_idx.x,
                        lo_idx.y <= gy <= hi_idx.y,
                        -crate::geom::POS_LIMIT <= gx <= crate::geom::POS_LIMIT,
                        -crate::geom::POS_LIMIT <= gy <= crate::geom::POS_LIMIT,
                        lo_idx.z <= gz <= hi_idx.z + 1 || gz == lo_idx.z,
                        forall|g: GridIndex|
                            #[trigger] out@.contains(g) ==> s_grid_box_member(*self, *lo, *hi, g),
                        forall|g: GridIndex|
                            s_grid_box_member(*self, *lo, *hi, g) && g.x < gx
                                ==> #[trigger] out@.contains(g),
                        forall|g: GridIndex|
                            s_grid_box_member(*self, *lo, *hi, g) && g.x == gx && g.y < gy
                                ==> #[trigger] out@.contains(g),
                        forall|g: GridIndex|
                            s_grid_box_member(*self, *lo, *hi, g) && g.x == gx && g.y == gy && g.z
                                < gz ==> #[trigger] out@.contains(g),
                    decreases hi_idx.z - gz + 1,
                {
                    let g = GridIndex { x: gx, y: gy, z: gz };
                    if in_range_exec(&g) {
                        let occupied = match self.points_in_grid(&g) {
                            Option::Some(v) => v.len() > 0,
                            Option::None => false,
                        };
                        if occupied {
                            proof {
                                lemma_push_contains(out@, g);
                                assert(s_grid_box_member(*self, *lo, *hi, g));
                            }
                            out.push(g);
                        }
                    }
                    gz += 1;
                }
                gy += 1;
            }
            gx += 1;
        }
        out
    }
}

impl PointCloud {
    /// The cells the frame's eviction pass examines: exactly the candidates.
    fn candidate_cells(&self, cp: &Projector) -> (out: Vec<GridIndex>)
        requires
            self.wf(),
            cp.wf(),
        ensures
            forall|g: GridIndex| #[trigger] out@.contains(g) <==> s_candidate(self.map(), *cp, g),
    {
        let (lo, hi) = cp.aabb(MAX_DEPTH_UM);
        let boxed = self.grid_map.grids_touching_aabb(&lo, &hi);
        proof {
            assert forall|g: GridIndex| #[trigger] boxed@.contains(g) <==> (g.in_range()
                && self.map().cell(g).len() > 0 && s_cell_in_box(
                self.map().spec_grid_size(),
                *cp,
                g,
            )) by {}
        }
        let mut out: Vec<GridIndex> = Vec::new();
        let n = boxed.len();
        let mut i: usize = 0;
        while i < n
            invariant
                self.wf(),
                cp.wf(),
                n == boxed@.len(),
                i <= n,
                forall|g: GridIndex|
                    #[trigger] boxed@.contains(g) <==> (g.in_range() && self.map().cell(g).len()
                        > 0 && s_cell_in_box(self.map().spec_grid_size(), *cp, g)),
                forall|g: GridIndex|
                    #[trigger] out@.contains(g) ==> s_candidate(self.map(), *cp, g),
                forall|t: int|
                    0 <= t < i && s_candidate(self.map(), *cp, #[trigger] boxed@[t])
                        ==> out@.contains(boxed@[t]),
            decreases n - i,
        {
            let g = boxed[i];
            proof {
                assert(boxed@.contains(g)) by {
                    assert(boxed@[i as int] == g);
                }
            }
            if self.cell_visible(cp, &g) {
                proof {
                    lemma_push_contains(out@, g);
                }
                out.push(g);
            }
            i += 1;
        }
        proof {
            assert forall|g: GridIndex|
                s_candidate(self.map(), *cp, g) implies #[trigger] out@.contains(g) by {
                assert(boxed@.contains(g));
                let t = choose|t: int| 0 <= t < boxed@.len() && boxed@[t] == g;
                assert(s_candidate(self.map(), *cp, boxed@[t]));
            }
        }
        out
    }
}

/// Filter one cell against the new frame: keep exactly the points the frame
/// does not contradict, preserving their order; report whether any point was
/// dropped.
fn filter_points(msg: &ImagesMessage, cp: &Projector, dp: &Projector, v: &Vec<Point>) -> (r: (
    Vec<Point>,
    bool,
))
    requires
        msg.wf(),
        *cp == msg.color_projector(),
        *dp == msg.depth_projector(),
        forall|t: int| 0 <= t < v@.len() ==> (#[trigger] v@[t]).position.in_bounds(),
    ensures
        r.0@ == v@.filter(s_keep(msg)),
        r.1 == (r.0@ != v@),
{
    let mut kept: Vec<Point> = Vec::new();
    let mut removed = false;
    let mut i: usize = 0;
    proof {
        reveal(Seq::filter);
        assert(v@.take(0) =~= Seq::<Point>::empty());
    }
    while i < v.len()
        invariant
            msg.wf(),
            *cp == msg.color_projector(),
            *dp == msg.depth_projector(),
            forall|t: int| 0 <= t < v@.len() ==> (#[trigger] v@[t]).position.in_bounds(),
            i <= v@.len(),
            kept@.len() <= i,
            kept@ == v@.take(i as int).filter(s_keep(msg)),
            removed == (kept@.len() < i),
        decreases v@.len() - i,
    {
        let p = v[i];
        proof {
            assert(cp.wf());
            assert(dp.wf());
        }
        let copt = cp.point_to_pixel(&p.position);
        let dopt = dp.point_to_pixel(&p.position);
        let rem = match (copt, dopt) {
            (Option::Some(_), Option::Some(dpix)) => {
                let d_old = dp.point_depth(&p.position);
                let du = dpix.0 as usize;
                let dv = dpix.1 as usize;
                let w = msg.depth.width as usize;
                let npix = msg.depth.pixels.len();
                proof {
                    assert(msg.depth_projector().s_point_to_pixel(p.position) == Some(
                        (dpix.0 as int, dpix.1 as int),
                    ));
                    assert(du < msg.depth.width as usize);
                    assert(dv < msg.depth.height as usize);
                    assert(dv * w + du < npix) by (nonlinear_arith)
                        requires
                            dv < msg.depth.height as usize,
                            du < w,
                            w == msg.depth.width as usize,
                            npix == msg.depth.pixels@.len(),
                            msg.depth.pixels@.len() == msg.depth.width * msg.depth.height,
                    ;
                }
                let raw = msg.depth.pixels[dv * w + du];
                proof {
                    crate::geom::lemma_abs_mul_le(
                        raw as int,
                        msg.depth_unit_um as int,
                        0x1_0000,
                        0x10_0000,
                    );
                }
                let d_new = (raw as i64) * (msg.depth_unit_um as i64);
                d_new > d_old - STALE_MARGIN_UM
            },
            _ => false,
        };
        proof {
            assert(rem == s_removable(msg, p));
            assert((s_keep(msg))(p) == !rem);
            assert(v@.take(i as int).push(p) =~= v@.take(i + 1));
            lemma_filter_push(v@.take(i as int), s_keep(msg), p);
        }
        if rem {
            removed = true;
        } else {
            kept.push(p);
        }
        i += 1;
    }
    proof {
        assert(v@.take(v@.len() as int) =~= v@);
        lemma_filter_full(v@, s_keep(msg));
    }
    (kept, removed)
}

impl PointCloud {
    /// Merge one RGB-D frame. Afterwards every representable cell holds
    /// exactly what eviction kept of it followed by what the frame's depth
    /// pixels inserted into it, and the returned set holds exactly the cells
    /// the merge touched (a touched cell may since have emptied, or hold the
    /// same points it lost).
    pub fn merge_images_msg(&mut self, msg: &ImagesMessage) -> (modified: Vec<GridIndex>)
        requires
            old(self).wf(),
            msg.wf(),
        ensures
            final(self).wf(),
            final(self).map().spec_grid_size() == old(self).map().spec_grid_size(),
            forall|g: GridIndex|
                g.in_range() ==> #[trigger] final(self).map().cell(g) == s_merged_cell(
                    old(self).map(),
                    msg,
                    g,
                ),
            forall|g: GridIndex|
                #[trigger] modified@.contains(g) <==> s_cell_touched(old(self).map(), msg, g),
            forall|g: GridIndex|
                g.in_range() && #[trigger] final(self).map().cell(g) != old(self).map().cell(g)
                    ==> modified@.contains(g),
    {
        let ghost gs = self.grid_map.spec_grid_size();
        let ghost m0 = self.grid_map;
        let cp = Projector::new(msg.color_intrinsics, msg.odometry);
        let dp = Projector::new(msg.depth_intrinsics, msg.odometry);
        let cands = self.candidate_cells(&cp);
        proof {
            assert forall|i: int|
                0 <= i < cands@.len() implies (#[trigger] cands@[i]).in_range() by {
                assert(cands@.contains(cands@[i]));
            }
            assert(cands@.take(0) =~= Seq::<GridIndex>::empty());
        }
        let mut modified: Vec<GridIndex> = Vec::new();
        let n_cands = cands.len();
        let mut ci: usize = 0;
        while ci < n_cands
            invariant
                msg.wf(),
                self.grid_map.wf(),
                self.grid_map.spec_grid_size() == gs,
                gs == m0.spec_grid_size(),
                m0 == old(self).grid_map,
                m0.wf(),
                cp == msg.color_projector(),
                dp == msg.depth_projector(),
                n_cands == cands@.len(),
                ci <= n_cands,
                forall|i: int| 0 <= i < cands@.len() ==> (#[trigger] cands@[i]).in_range(),
                forall|g: GridIndex| #[trigger] cands@.contains(g) <==> s_candidate(m0, cp, g),
                forall|g: GridIndex|
                    g.in_range() ==> #[trigger] self.grid_map.cell(g) == if cands@.take(
                        ci as int,
                    ).contains(g) {
                        s_kept_cell(m0, msg, g)
                    } else {
                        m0.cell(g)
                    },
                forall|g: GridIndex|
                    #[trigger] modified@.contains(g) <==> (cands@.take(ci as int).contains(g)
                        && s_kept_cell(m0, msg, g) != m0.cell(g)),
            decreases n_cands - ci,
        {
            let gc = cands[ci];
            let ghost cell_now = self.grid_map.cell(gc);
            proof {
                assert(cands@.contains(gc)) by {
                    assert(cands@[ci as int] == gc);
                }
                assert(s_candidate(m0, cp, gc));
                assert(s_kept_cell(m0, msg, gc) == m0.cell(gc).filter(s_keep(msg)));
                assert(cands@.take(ci as int).push(gc) =~= cands@.take(ci + 1));
                lemma_push_contains(cands@.take(ci as int), gc);
            }
            let step = {
                match self.grid_map.points_in_grid(&gc) {
                    Option::None => Option::None,
                    Option::Some(v) => {
                        proof {
                            assert forall|t: int| 0 <= t < v@.len() implies (
                            #[trigger] v@[t]).position.in_bounds() by {
                                assert(self.grid_map.gmap()[key_of(gc)][t] == v@[t]);
                            }
                        }
                        Option::Some(filter_points(msg, &cp, &dp, v))
                    },
                }
            };
            match step {
                Option::None => {
                    proof {
                        // only an already-processed, fully evicted candidate
                        // has no stored points
                        assert(self.grid_map.cell(gc) == Seq::<Point>::empty());
                        if !cands@.take(ci as int).contains(gc) {
                            assert(self.grid_map.cell(gc) == m0.cell(gc));
                            assert(m0.cell(gc).len() > 0);
                        }
                        assert(cands@.take(ci as int).contains(gc));
                    }
                },
                Option::Some((kept, removed)) => {
                    proof {
                        assert(kept@ == cell_now.filter(s_keep(msg)));
                        if cands@.take(ci as int).contains(gc) {
                            // a repeated candidate was already filtered: the
                            // filter drops nothing more
                            assert(cell_now == s_kept_cell(m0, msg, gc));
                            lemma_filter_idempotent(m0.cell(gc), s_keep(msg));
                            assert(kept@ == cell_now);
                            assert(!removed);
                        } else {
                            assert(cell_now == m0.cell(gc));
                            assert(kept@ == s_kept_cell(m0, msg, gc));
                        }
                    }
                    if removed {
                        let ghost keptseq = kept@;
                        proof {
                            assert(self.grid_map.gmap().contains_key(key_of(gc)));
                            lemma_filter_subset(m0.cell(gc), s_keep(msg));
                            assert forall|j: int|
                                0 <= j < keptseq.len() implies #[trigger] self.grid_map
                                .point_in_cell(gc, keptseq[j]) by {
                                assert(keptseq.contains(keptseq[j]));
                                assert(m0.cell(gc).contains(keptseq[j]));
                                let t = choose|t: int|
                                    0 <= t < m0.cell(gc).len() && m0.cell(gc)[t] == keptseq[j];
                                assert(m0.gmap()[key_of(gc)][t] == keptseq[j]);
                                let gi = s_grid_index(gs, keptseq[j].position);
                                assert(gi.in_range());
                                assert(key_of(gi) == key_of(gc));
                                lemma_key_injective(gi, gc);
                            }
                            lemma_push_contains(modified@, gc);
                        }
                        let ghost before = *self;
                        if !contains_idx(&modified, &gc) {
                            modified.push(gc);
                        }
                        self.grid_map.set_cell(&gc, kept);
                        proof {
                            assert(self.grid_map.cell(gc) == keptseq);
                            assert forall|g: GridIndex|
                                g.in_range() implies #[trigger] self.grid_map.cell(g)
                                == if cands@.take(ci + 1).contains(g) {
                                s_kept_cell(m0, msg, g)
                            } else {
                                m0.cell(g)
                            } by {
                                if g != gc {
                                    assert(self.grid_map.cell(g) == before.grid_map.cell(g));
                                }
                            }
                            assert forall|g: GridIndex|
                                #[trigger] modified@.contains(g) <==> (cands@.take(
                                ci + 1).contains(g) && s_kept_cell(m0, msg, g) != m0.cell(
                                g,
                            )) by {}
                        }
                    }
                },
            }
            ci += 1;
        }
        proof {
            assert(cands@.take(n_cands as int) =~= cands@);
            assert forall|g: GridIndex|
                g.in_range() implies #[trigger] self.grid_map.cell(g) == s_kept_cell(
                m0,
                msg,
                g,
            ) by {
                if !cands@.contains(g) {
                    assert(!s_candidate(m0, cp, g));
                }
            }
        }
        let ghost mid = self.grid_map;
        let ghost mmod = modified@;
        let w = msg.depth.width as usize;
        let npix = msg.depth.pixels.len();
        proof {
            assert forall|g: GridIndex|
                g.in_range() implies #[trigger] self.grid_map.cell(g) == mid.cell(g)
                + s_inserted_upto(gs, msg, g, 0) by {
                crate::bytes::lemma_seq_empty_unit(mid.cell(g));
            }
        }
        let mut k: usize = 0;
        while k < npix
            invariant
                msg.wf(),
                self.grid_map.wf(),
                self.grid_map.spec_grid_size() == gs,
                gs == m0.spec_grid_size(),
                m0 == old(self).grid_map,
                m0.wf(),
                cp == msg.color_projector(),
                dp == msg.depth_projector(),
                w == msg.depth.width,
                npix == msg.depth.pixels@.len(),
                k <= npix,
                forall|g: GridIndex|
                    g.in_range() ==> #[trigger] mid.cell(g) == s_kept_cell(m0, msg, g),
                forall|g: GridIndex|
                    #[trigger] mmod.contains(g) <==> s_kept_cell(m0, msg, g) != m0.cell(g),
                forall|g: GridIndex|
                    g.in_range() ==> #[trigger] self.grid_map.cell(g) == mid.cell(g)
                        + s_inserted_upto(gs, msg, g, k as int),
                forall|g: GridIndex|
                    #[trigger] modified@.contains(g) <==> (mmod.contains(g) || s_inserted_upto(
                        gs,
                        msg,
                        g,
                        k as int,
                    ) != Seq::<Point>::empty()),
            decreases npix - k,
        {
            let raw = msg.depth.pixels[k];
            proof {
                crate::geom::lemma_abs_mul_le(
                    raw as int,
                    msg.depth_unit_um as int,
                    0x1_0000,
                    0x10_0000,
                );
            }
            let d = (raw as i64) * (msg.depth_unit_um as i64);
            let mut inserted = false;
            let ghost mut gcell: GridIndex = GridIndex { x: 0, y: 0, z: 0 };
            if d != 0 && d <= MAX_DEPTH_UM {
                let px = (k % w) as u32;
                let py = (k / w) as u32;
                proof {
                    assert(k / w < msg.depth.height) by (nonlinear_arith)
                        requires
                            k < npix,
                            w == msg.depth.width,
                            w > 0,
                            npix == msg.depth.width * msg.depth.height,
                    ;
                }
                let pt = dp.pixel_to_point(px, py, d);
                proof {
                    assert(pt == s_pixel_point3(msg, k as int));
                }
                match cp.point_to_pixel(&pt) {
                    Option::Some(cpix) => {
                        let cu = cpix.0 as usize;
                        let cv = cpix.1 as usize;
                        let wc = msg.color.width as usize;
                        let ncol = msg.color.pixels.len();
                        proof {
                            assert(cv * wc + cu < ncol) by (nonlinear_arith)
                                requires
                                    cv < msg.color.height as usize,
                                    cu < wc,
                                    wc == msg.color.width as usize,
                                    ncol == msg.color.pixels@.len(),
                                    msg.color.pixels@.len() == msg.color.width
                                        * msg.color.height,
                            ;
                        }
                        let color = msg.color.pixels[cv * wc + cu];
                        let size = dp.point_size(d);
                        let g = self.grid_map.grid_index(&pt);
                        if in_range_exec(&g) {
                            let p = Point { position: pt, color, size };
                            proof {
                                assert(s_pixel_valid(gs, msg, k as int));
                                assert(p == s_pixel_point(msg, k as int));
                                gcell = g;
                            }
                            let ghost st = self.grid_map;
                            self.grid_map.add_point(&p);
                            inserted = true;
                            if !contains_idx(&modified, &g) {
                                proof {
                                    lemma_push_contains(modified@, g);
                                }
                                modified.push(g);
                            }
                            proof {
                                assert(modified@.contains(g));
                                assert(self.grid_map.cell(g) == st.cell(g).push(p));
                                lemma_concat_push(
                                    mid.cell(g),
                                    s_inserted_upto(gs, msg, g, k as int),
                                    p,
                                );
                            }
                        } else {
                            proof {
                                assert(!s_pixel_valid(gs, msg, k as int));
                            }
                        }
                    },
                    Option::None => {
                        proof {
                            assert(!s_pixel_valid(gs, msg, k as int));
                        }
                    },
                }
            } else {
                proof {
                    assert(!s_pixel_valid(gs, msg, k as int));
                }
            }
            proof {
                if inserted {
                    assert forall|g: GridIndex|
                        g.in_range() implies #[trigger] self.grid_map.cell(g) == mid.cell(g)
                        + s_inserted_upto(gs, msg, g, k + 1) by {
                        if g != gcell {
                            assert(s_inserted_upto(gs, msg, g, k + 1) == s_inserted_upto(
                                gs,
                                msg,
                                g,
                                k as int,
                            ));
                        }
                    }
                } else {
                    assert forall|g: GridIndex|
                        g.in_range() implies #[trigger] self.grid_map.cell(g) == mid.cell(g)
                        + s_inserted_upto(gs, msg, g, k + 1) by {
                        assert(s_inserted_upto(gs, msg, g, k + 1) == s_inserted_upto(
                            gs,
                            msg,
                            g,
                            k as int,
                        ));
                    }
                }
            }
            k += 1;
        }
        proof {
            assert forall|g: GridIndex|
                g.in_range() implies #[trigger] self.grid_map.cell(g) == s_merged_cell(
                m0,
                msg,
                g,
            ) by {}
            assert forall|g: GridIndex|
                g.in_range() && #[trigger] self.grid_map.cell(g) != m0.cell(g)
                implies modified@.contains(g) by {
                if !modified@.contains(g) {
                    assert(s_kept_cell(m0, msg, g) == m0.cell(g));
                    assert(s_inserted_at(gs, msg, g) == Seq::<Point>::empty());
                    crate::bytes::lemma_seq_empty_unit(s_kept_cell(m0, msg, g));
                }
            }
            assert forall|g: GridIndex|
                #[trigger] modified@.contains(g) <==> s_cell_touched(m0, msg, g) by {}
        }
        modified
    }
}

/// Concatenation keeps the members of both parts.
proof fn lemma_concat_contains<T>(a: Seq<T>, b: Seq<T>, x: T)
    ensures
        a.contains(x) ==> (a + b).contains(x),
        b.contains(x) ==> (a + b).contains(x),
{
    if a.contains(x) {
        let i = choose|i: int| 0 <= i < a.len() && a[i] == x;
        assert((a + b)[i] == x);
    }
    if b.contains(x) {
        let i = choose|i: int| 0 <= i < b.len() && b[i] == x;
        assert((a + b)[a.len() + i] == x);
    }
}

/// A valid pixel's point is among the insertions of any long enough prefix.
proof fn lemma_upto_contains(gs: i64, msg: &ImagesMessage, g: GridIndex, j: int, n: int)
    requires
        0 <= j < n,
        s_pixel_valid(gs, msg, j),
        s_grid_index(gs, s_pixel_point3(msg, j)) == g,
    ensures
        s_inserted_upto(gs, msg, g, n).contains(s_pixel_point(msg, j)),
    decreases n,
{
    let rest = s_inserted_upto(gs, msg, g, n - 1);
    if j == n - 1 {
        assert(s_inserted_upto(gs, msg, g, n) == rest.push(s_pixel_point(msg, j)));
        lemma_push_contains(rest, s_pixel_point(msg, j));
    } else {
        lemma_upto_contains(gs, msg, g, j, n - 1);
        if s_pixel_valid(gs, msg, n - 1) && s_grid_index(gs, s_pixel_point3(msg, n - 1)) == g {
            lemma_push_contains(rest, s_pixel_point(msg, n - 1));
        }
    }
}

/// No false eviction: a stored point the frame does not contradict — in
/// particular any point facing a no-return depth reading, which is never
/// "behind" it — is still in its cell after the merge.
pub proof fn lemma_merge_keeps_uncontradicted(
    m: SpacialGridMap,
    msg: &ImagesMessage,
    g: GridIndex,
    i: int,
)
    requires
        0 <= i < m.cell(g).len(),
        !s_removable(msg, m.cell(g)[i]),
    ensures
        s_merged_cell(m, msg, g).contains(m.cell(g)[i]),
{
    let p = m.cell(g)[i];
    if s_candidate(m, msg.color_projector(), g) {
        assert((s_keep(msg))(p));
        m.cell(g).lemma_filter_contains(s_keep(msg), i);
        assert(s_kept_cell(m, msg, g).contains(p));
    } else {
        assert(s_kept_cell(m, msg, g).contains(p)) by {
            assert(s_kept_cell(m, msg, g)[i] == p);
        }
    }
    lemma_concat_contains(s_kept_cell(m, msg, g), s_inserted_at(m.spec_grid_size(), msg, g), p);
}

/// Every valid depth pixel's point is in its cell after the merge.
pub proof fn lemma_merge_inserts_valid_pixel(m: SpacialGridMap, msg: &ImagesMessage, k: int)
    requires
        0 <= k < msg.depth.pixels@.len(),
        s_pixel_valid(m.spec_grid_size(), msg, k),
    ensures
        s_merged_cell(
            m,
            msg,
            s_grid_index(m.spec_grid_size(), s_pixel_point3(msg, k)),
        ).contains(s_pixel_point(msg, k)),
{
    let gs = m.spec_grid_size();
    let g = s_grid_index(gs, s_pixel_point3(msg, k));
    lemma_upto_contains(gs, msg, g, k, msg.depth.pixels@.len() as int);
    lemma_concat_contains(s_kept_cell(m, msg, g), s_inserted_at(gs, msg, g), s_pixel_point(msg, k));
}

} // verus!
