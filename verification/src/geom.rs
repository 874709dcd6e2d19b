//! Fixed-point pinhole camera geometry. Positions and depths are integers in
//! micrometers; focal lengths and image centers are integers in thousandths
//! of a pixel; rotations are 3x3 matrices in Q16 fixed point (65536 = 1.0).
//! Every operation is exact integer arithmetic with floor division, and each
//! executable function returns precisely what its specification twin states.

use vstd::prelude::*;
use vstd::arithmetic::div_mod::lemma_div_is_ordered;
use crate::num::floor_div_i128;

verus! {

/// Q16 fixed-point scale of rotation entries.
pub const FIXED_ONE: i64 = 65536;

/// Millipixels per pixel.
pub const MILLI_PIXEL: i64 = 1000;

/// Bound on position components (micrometers).
pub const POS_LIMIT: i64 = 0x200_0000_0000_0000;

/// Bound on translation components (micrometers).
pub const TRANS_LIMIT: i64 = 0x100_0000_0000;

/// Bound on focal lengths (millipixels).
pub const FOCAL_LIMIT: i64 = 0x40_0000;

/// Bound on image centers (millipixels).
pub const CENTER_LIMIT: i64 = 0x8000_0000;

/// Bound on image dimensions (pixels).
pub const DIM_LIMIT: u32 = 0x1_0000;

/// Camera-frame points and depths beyond this are out of range (micrometers).
pub const DEPTH_LIMIT: i64 = 0x80_0000_0000_0000;

/// A position in micrometers.
#[derive(Clone, Copy, Debug, PartialEq, Eq, Structural)]
pub struct Point3 {
    pub x: i64,
    pub y: i64,
    pub z: i64,
}

impl Point3 {
    pub open spec fn in_bounds(self) -> bool {
        -POS_LIMIT <= self.x <= POS_LIMIT && -POS_LIMIT <= self.y <= POS_LIMIT && -POS_LIMIT
            <= self.z <= POS_LIMIT
    }
}

/// A rotation matrix in Q16 fixed point, row-major.
#[derive(Clone, Copy, Debug, PartialEq, Eq, Structural)]
pub struct Mat3 {
    pub xx: i64,
    pub xy: i64,
    pub xz: i64,
    pub yx: i64,
    pub yy: i64,
    pub yz: i64,
    pub zx: i64,
    pub zy: i64,
    pub zz: i64,
}

impl Mat3 {
    pub open spec fn wf(self) -> bool {
        &&& -FIXED_ONE <= self.xx <= FIXED_ONE
        &&& -FIXED_ONE <= self.xy <= FIXED_ONE
        &&& -FIXED_ONE <= self.xz <= FIXED_ONE
        &&& -FIXED_ONE <= self.yx <= FIXED_ONE
        &&& -FIXED_ONE <= self.yy <= FIXED_ONE
        &&& -FIXED_ONE <= self.yz <= FIXED_ONE
        &&& -FIXED_ONE <= self.zx <= FIXED_ONE
        &&& -FIXED_ONE <= self.zy <= FIXED_ONE
        &&& -FIXED_ONE <= self.zz <= FIXED_ONE
    }

    /// The identity rotation.
    pub fn identity() -> (r: Mat3)
        ensures
            r == Mat3::spec_identity(),
            r.wf(),
    {
        Mat3 { xx: FIXED_ONE, xy: 0, xz: 0, yx: 0, yy: FIXED_ONE, yz: 0, zx: 0, zy: 0, zz: FIXED_ONE }
    }

    pub open spec fn spec_identity() -> Mat3 {
        Mat3 { xx: FIXED_ONE, xy: 0, xz: 0, yx: 0, yy: FIXED_ONE, yz: 0, zx: 0, zy: 0, zz: FIXED_ONE }
    }
}

/// A rigid transform from the camera frame to the world frame (extrinsics):
/// rotation then translation.
#[derive(Clone, Copy, Debug, PartialEq, Eq, Structural)]
pub struct Pose {
    pub rot: Mat3,
    pub trans: Point3,
}

impl Pose {
    pub open spec fn wf(self) -> bool {
        &&& self.rot.wf()
        &&& -TRANS_LIMIT <= self.trans.x <= TRANS_LIMIT
        &&& -TRANS_LIMIT <= self.trans.y <= TRANS_LIMIT
        &&& -TRANS_LIMIT <= self.trans.z <= TRANS_LIMIT
    }

    /// The identity pose.
    pub fn identity() -> (r: Pose)
        ensures
            r.wf(),
            r.rot == Mat3::spec_identity(),
            r.trans == (Point3 { x: 0, y: 0, z: 0 }),
    {
        Pose { rot: Mat3::identity(), trans: Point3 { x: 0, y: 0, z: 0 } }
    }

    /// World-to-camera transform: undo the translation, then rotate by the
    /// transpose.
    pub open spec fn s_to_cam(self, p: Point3) -> (int, int, int) {
        let qx = p.x - self.trans.x;
        let qy = p.y - self.trans.y;
        let qz = p.z - self.trans.z;
        (
            (self.rot.xx * qx + self.rot.yx * qy + self.rot.zx * qz) / (FIXED_ONE as int),
            (self.rot.xy * qx + self.rot.yy * qy + self.rot.zy * qz) / (FIXED_ONE as int),
            (self.rot.xz * qx + self.rot.yz * qy + self.rot.zz * qz) / (FIXED_ONE as int),
        )
    }

    /// Camera-to-world transform: rotate, then translate.
    pub open spec fn s_to_world(self, cx: int, cy: int, cz: int) -> (int, int, int) {
        (
            (self.rot.xx * cx + self.rot.xy * cy + self.rot.xz * cz) / (FIXED_ONE as int)
                + self.trans.x,
            (self.rot.yx * cx + self.rot.yy * cy + self.rot.yz * cz) / (FIXED_ONE as int)
                + self.trans.y,
            (self.rot.zx * cx + self.rot.zy * cy + self.rot.zz * cz) / (FIXED_ONE as int)
                + self.trans.z,
        )
    }
}

/// `-(la * lb) <= a * b <= la * lb` for `|a| <= la`, `|b| <= lb`.
pub proof fn lemma_abs_mul_le(a: int, b: int, la: int, lb: int)
    requires
        -la <= a <= la,
        -lb <= b <= lb,
        0 <= la,
        0 <= lb,
    ensures
        -(la * lb) <= a * b <= la * lb,
{
    assert(-(la * lb) <= a * b <= la * lb) by (nonlinear_arith)
        requires
            -la <= a <= la,
            -lb <= b <= lb,
            0 <= la,
            0 <= lb,
    ;
}

/// Floor division by a positive divisor maps an interval into the divided
/// interval.
pub proof fn lemma_div_bounds(a: int, b: int, lo: int, hi: int)
    requires
        b > 0,
        lo <= a <= hi,
    ensures
        lo / b <= a / b <= hi / b,
{
    lemma_div_is_ordered(lo, a, b);
    lemma_div_is_ordered(a, hi, b);
}

/// One transformed coordinate: `(m0*q0 + m1*q1 + m2*q2) / FIXED_ONE`, with
/// every input within its well-formedness bound.
fn rotate_coord(m0: i64, m1: i64, m2: i64, q0: i64, q1: i64, q2: i64, lim: Ghost<int>) -> (r: i64)
    requires
        -FIXED_ONE <= m0 <= FIXED_ONE,
        -FIXED_ONE <= m1 <= FIXED_ONE,
        -FIXED_ONE <= m2 <= FIXED_ONE,
        -lim@ <= q0 <= lim@,
        -lim@ <= q1 <= lim@,
        -lim@ <= q2 <= lim@,
        0 <= lim@ <= 0x400_0000_0000_0000,
    ensures
        r == (m0 * q0 + m1 * q1 + m2 * q2) / (FIXED_ONE as int),
        -3 * lim@ <= r <= 3 * lim@,
{
    proof {
        lemma_abs_mul_le(m0 as int, q0 as int, 65536, lim@);
        lemma_abs_mul_le(m1 as int, q1 as int, 65536, lim@);
        lemma_abs_mul_le(m2 as int, q2 as int, 65536, lim@);
    }
    let num: i128 = (m0 as i128) * (q0 as i128) + (m1 as i128) * (q1 as i128) + (m2 as i128) * (
    q2 as i128);
    let q = floor_div_i128(num, FIXED_ONE as i128);
    proof {
        assert(-196608 * lim@ <= num as int <= 196608 * lim@);
        lemma_div_bounds(num as int, 65536, -196608 * lim@, 196608 * lim@);
        assert((65536int * (3 * lim@)) / 65536 == 3 * lim@) by {
            vstd::arithmetic::div_mod::lemma_div_multiples_vanish(3 * lim@, 65536);
        }
        assert(65536int * (3 * lim@) == 196608 * lim@) by (nonlinear_arith);
        assert((65536int * (-3 * lim@)) / 65536 == -3 * lim@) by {
            vstd::arithmetic::div_mod::lemma_div_multiples_vanish(-3 * lim@, 65536);
        }
        assert(65536int * (-3 * lim@) == -196608 * lim@) by (nonlinear_arith);
    }
    q as i64
}

impl Pose {
    /// Transform a world point into the camera frame.
    pub fn to_cam(&self, p: &Point3) -> (r: Point3)
        requires
            self.wf(),
            p.in_bounds(),
        ensures
            (r.x as int, r.y as int, r.z as int) == self.s_to_cam(*p),
            -3 * (POS_LIMIT + TRANS_LIMIT) <= r.x <= 3 * (POS_LIMIT + TRANS_LIMIT),
            -3 * (POS_LIMIT + TRANS_LIMIT) <= r.y <= 3 * (POS_LIMIT + TRANS_LIMIT),
            -3 * (POS_LIMIT + TRANS_LIMIT) <= r.z <= 3 * (POS_LIMIT + TRANS_LIMIT),
    {
        let qx = p.x - self.trans.x;
        let qy = p.y - self.trans.y;
        let qz = p.z - self.trans.z;
        let lim: Ghost<int> = Ghost((POS_LIMIT + TRANS_LIMIT) as int);
        let x = rotate_coord(self.rot.xx, self.rot.yx, self.rot.zx, qx, qy, qz, lim);
        let y = rotate_coord(self.rot.xy, self.rot.yy, self.rot.zy, qx, qy, qz, lim);
        let z = rotate_coord(self.rot.xz, self.rot.yz, self.rot.zz, qx, qy, qz, lim);
        Point3 { x, y, z }
    }

    /// Transform a camera-frame point into the world frame; camera components
    /// must be within `DEPTH_LIMIT`.
    pub fn to_world(&self, cx: i64, cy: i64, cz: i64) -> (r: Point3)
        requires
            self.wf(),
            -DEPTH_LIMIT <= cx <= DEPTH_LIMIT,
            -DEPTH_LIMIT <= cy <= DEPTH_LIMIT,
            -DEPTH_LIMIT <= cz <= DEPTH_LIMIT,
        ensures
            (r.x as int, r.y as int, r.z as int) == self.s_to_world(cx as int, cy as int, cz as int),
            -3 * DEPTH_LIMIT - TRANS_LIMIT <= r.x <= 3 * DEPTH_LIMIT + TRANS_LIMIT,
            -3 * DEPTH_LIMIT - TRANS_LIMIT <= r.y <= 3 * DEPTH_LIMIT + TRANS_LIMIT,
            -3 * DEPTH_LIMIT - TRANS_LIMIT <= r.z <= 3 * DEPTH_LIMIT + TRANS_LIMIT,
            r.in_bounds(),
    {
        let lim: Ghost<int> = Ghost(DEPTH_LIMIT as int);
        let x = rotate_coord(self.rot.xx, self.rot.xy, self.rot.xz, cx, cy, cz, lim);
        let y = rotate_coord(self.rot.yx, self.rot.yy, self.rot.yz, cx, cy, cz, lim);
        let z = rotate_coord(self.rot.zx, self.rot.zy, self.rot.zz, cx, cy, cz, lim);
        Point3 { x: x + self.trans.x, y: y + self.trans.y, z: z + self.trans.z }
    }
}


/// Pinhole camera parameters: image size in pixels, focal lengths and image
/// center in millipixels.
#[derive(Clone, Copy, Debug, PartialEq, Eq, Structural)]
pub struct CameraIntrinsics {
    pub width: u32,
    pub height: u32,
    pub fx: i64,
    pub fy: i64,
    pub cx: i64,
    pub cy: i64,
}

impl CameraIntrinsics {
    pub open spec fn wf(self) -> bool {
        &&& 0 < self.width <= DIM_LIMIT
        &&& 0 < self.height <= DIM_LIMIT
        &&& 1 <= self.fx <= FOCAL_LIMIT
        &&& 1 <= self.fy <= FOCAL_LIMIT
        &&& -CENTER_LIMIT <= self.cx <= CENTER_LIMIT
        &&& -CENTER_LIMIT <= self.cy <= CENTER_LIMIT
    }
}

/// Smaller of two values.
pub open spec fn s_min2(a: int, b: int) -> int {
    if a <= b {
        a
    } else {
        b
    }
}

/// Larger of two values.
pub open spec fn s_max2(a: int, b: int) -> int {
    if a <= b {
        b
    } else {
        a
    }
}

fn min_i64(a: i64, b: i64) -> (r: i64)
    ensures
        r == s_min2(a as int, b as int),
{
    if a <= b {
        a
    } else {
        b
    }
}

fn max_i64(a: i64, b: i64) -> (r: i64)
    ensures
        r == s_max2(a as int, b as int),
{
    if a <= b {
        b
    } else {
        a
    }
}

/// Projection between world points and pixels of one camera with a fixed
/// pose. The camera frame has +X forward (the depth axis), +Y left, +Z up;
/// pixels run x right, y down.
#[derive(Clone, Copy, Debug, PartialEq, Eq, Structural)]
pub struct Projector {
    pub intrinsics: CameraIntrinsics,
    pub extrinsics: Pose,
}

impl Projector {
    pub open spec fn wf(self) -> bool {
        self.intrinsics.wf() && self.extrinsics.wf()
    }

    pub fn new(intrinsics: CameraIntrinsics, extrinsics: Pose) -> (r: Self)
        ensures
            r.intrinsics == intrinsics,
            r.extrinsics == extrinsics,
    {
        Projector { intrinsics, extrinsics }
    }

    /// Where a world point lands on the image: `None` when it is on or behind
    /// the camera plane or projects outside the image.
    pub open spec fn s_point_to_pixel(self, p: Point3) -> Option<(int, int)> {
        let c = self.extrinsics.s_to_cam(p);
        if c.0 <= 0 {
            None
        } else {
            let u = (((self.intrinsics.fx as int) * (-c.1)) / c.0 + self.intrinsics.cx) / (
            MILLI_PIXEL as int);
            let v = (((self.intrinsics.fy as int) * (-c.2)) / c.0 + self.intrinsics.cy) / (
            MILLI_PIXEL as int);
            if 0 <= u < self.intrinsics.width && 0 <= v < self.intrinsics.height {
                Some((u, v))
            } else {
                None
            }
        }
    }

    /// Camera-frame depth (the forward component) of a world point.
    pub open spec fn s_point_depth(self, p: Point3) -> int {
        self.extrinsics.s_to_cam(p).0
    }

    /// The world point seen at a pixel at a given camera-frame depth.
    pub open spec fn s_pixel_to_point(self, px: int, py: int, d: int) -> (int, int, int) {
        let y = ((self.intrinsics.cx - (MILLI_PIXEL as int) * px) * d) / (self.intrinsics.fx
            as int);
        let z = ((self.intrinsics.cy - (MILLI_PIXEL as int) * py) * d) / (self.intrinsics.fy
            as int);
        self.extrinsics.s_to_world(d, y, z)
    }

    /// World-space footprint of one pixel at a given depth (micrometers).
    pub open spec fn s_point_size(self, d: int) -> int {
        (d * (MILLI_PIXEL as int)) / (self.intrinsics.fx as int)
    }

    pub fn point_to_pixel(&self, p: &Point3) -> (r: Option<(u32, u32)>)
        requires
            self.wf(),
            p.in_bounds(),
        ensures
            match r {
                Option::Some(t) => self.s_point_to_pixel(*p) == Some((t.0 as int, t.1 as int)),
                Option::None => self.s_point_to_pixel(*p) is None,
            },
    {
        let c = self.extrinsics.to_cam(p);
        if c.x <= 0 {
            return None;
        }
        proof {
            lemma_abs_mul_le(
                self.intrinsics.fx as int,
                -(c.y as int),
                FOCAL_LIMIT as int,
                3 * (POS_LIMIT + TRANS_LIMIT),
            );
            lemma_abs_mul_le(
                self.intrinsics.fy as int,
                -(c.z as int),
                FOCAL_LIMIT as int,
                3 * (POS_LIMIT + TRANS_LIMIT),
            );
        }
        let qu = floor_div_i128(
            (self.intrinsics.fx as i128) * (-(c.y as i128)),
            c.x as i128,
        );
        let u = floor_div_i128(qu + self.intrinsics.cx as i128, MILLI_PIXEL as i128);
        let qv = floor_div_i128(
            (self.intrinsics.fy as i128) * (-(c.z as i128)),
            c.x as i128,
        );
        let v = floor_div_i128(qv + self.intrinsics.cy as i128, MILLI_PIXEL as i128);
        if 0 <= u && u < self.intrinsics.width as i128 && 0 <= v && v < self.intrinsics.height
            as i128 {
            Some((u as u32, v as u32))
        } else {
            None
        }
    }

    pub fn point_depth(&self, p: &Point3) -> (r: i64)
        requires
            self.wf(),
            p.in_bounds(),
        ensures
            r == self.s_point_depth(*p),
            -3 * (POS_LIMIT + TRANS_LIMIT) <= r <= 3 * (POS_LIMIT + TRANS_LIMIT),
    {
        let c = self.extrinsics.to_cam(p);
        c.x
    }

    pub fn pixel_to_point(&self, px: u32, py: u32, depth_um: i64) -> (r: Point3)
        requires
            self.wf(),
            px < self.intrinsics.width,
            py < self.intrinsics.height,
            0 < depth_um <= 0x80_0000,
        ensures
            (r.x as int, r.y as int, r.z as int) == self.s_pixel_to_point(
                px as int,
                py as int,
                depth_um as int,
            ),
            r.in_bounds(),
    {
        let base_y: i128 = (self.intrinsics.cx as i128) - (MILLI_PIXEL as i128) * (px as i128);
        let base_z: i128 = (self.intrinsics.cy as i128) - (MILLI_PIXEL as i128) * (py as i128);
        proof {
            lemma_abs_mul_le(base_y as int, depth_um as int, 0x8400_0000, 0x80_0000);
            lemma_abs_mul_le(base_z as int, depth_um as int, 0x8400_0000, 0x80_0000);
        }
        let y = floor_div_i128(base_y * (depth_um as i128), self.intrinsics.fx as i128);
        let z = floor_div_i128(base_z * (depth_um as i128), self.intrinsics.fy as i128);
        self.extrinsics.to_world(depth_um, y as i64, z as i64)
    }

    pub fn point_size(&self, depth_um: i64) -> (r: i64)
        requires
            self.wf(),
            0 <= depth_um <= 0x80_0000,
        ensures
            r == self.s_point_size(depth_um as int),
            0 <= r <= 0x1F4_0000_0000,
    {
        let num = floor_div_i128(
            (depth_um as i128) * (MILLI_PIXEL as i128),
            self.intrinsics.fx as i128,
        );
        num as i64
    }

    /// Axis-aligned bound of the viewing frustum out to `max_depth`: the
    /// componentwise extremes of the camera origin and the four far-plane
    /// corner points.
    pub open spec fn s_aabb(self, d: int) -> ((int, int, int), (int, int, int)) {
        let o = (self.extrinsics.trans.x as int, self.extrinsics.trans.y as int,
        self.extrinsics.trans.z as int);
        let c1 = self.s_pixel_to_point(0, 0, d);
        let c2 = self.s_pixel_to_point(self.intrinsics.width - 1, 0, d);
        let c3 = self.s_pixel_to_point(0, self.intrinsics.height - 1, d);
        let c4 = self.s_pixel_to_point(
            self.intrinsics.width - 1,
            self.intrinsics.height - 1,
            d,
        );
        (
            (
                s_min2(s_min2(s_min2(s_min2(o.0, c1.0), c2.0), c3.0), c4.0),
                s_min2(s_min2(s_min2(s_min2(o.1, c1.1), c2.1), c3.1), c4.1),
                s_min2(s_min2(s_min2(s_min2(o.2, c1.2), c2.2), c3.2), c4.2),
            ),
            (
                s_max2(s_max2(s_max2(s_max2(o.0, c1.0), c2.0), c3.0), c4.0),
                s_max2(s_max2(s_max2(s_max2(o.1, c1.1), c2.1), c3.1), c4.1),
                s_max2(s_max2(s_max2(s_max2(o.2, c1.2), c2.2), c3.2), c4.2),
            ),
        )
    }

    pub fn aabb(&self, max_depth_um: i64) -> (r: (Point3, Point3))
        requires
            self.wf(),
            0 < max_depth_um <= 0x80_0000,
        ensures
            ({
                let (lo, hi) = self.s_aabb(max_depth_um as int);
                &&& (r.0.x as int, r.0.y as int, r.0.z as int) == lo
                &&& (r.1.x as int, r.1.y as int, r.1.z as int) == hi
                &&& r.0.in_bounds()
                &&& r.1.in_bounds()
            }),
    {
        let o = self.extrinsics.trans;
        let c1 = self.pixel_to_point(0, 0, max_depth_um);
        let c2 = self.pixel_to_point(self.intrinsics.width - 1, 0, max_depth_um);
        let c3 = self.pixel_to_point(0, self.intrinsics.height - 1, max_depth_um);
        let c4 = self.pixel_to_point(
            self.intrinsics.width - 1,
            self.intrinsics.height - 1,
            max_depth_um,
        );
        let lo = Point3 {
            x: min_i64(min_i64(min_i64(min_i64(o.x, c1.x), c2.x), c3.x), c4.x),
            y: min_i64(min_i64(min_i64(min_i64(o.y, c1.y), c2.y), c3.y), c4.y),
            z: min_i64(min_i64(min_i64(min_i64(o.z, c1.z), c2.z), c3.z), c4.z),
        };
        let hi = Point3 {
            x: max_i64(max_i64(max_i64(max_i64(o.x, c1.x), c2.x), c3.x), c4.x),
            y: max_i64(max_i64(max_i64(max_i64(o.y, c1.y), c2.y), c3.y), c4.y),
            z: max_i64(max_i64(max_i64(max_i64(o.z, c1.z), c2.z), c3.z), c4.z),
        };
        (lo, hi)
    }
}


/// Projector round trip: when the pose is a pure translation and the
/// back-projection divisions are exact, projecting the world point seen at a
/// pixel returns exactly that pixel, and its camera depth is the given depth.
/// (With a rotated pose or inexact ray divisions, fixed-point truncation can
/// move the result across a pixel boundary.)
pub proof fn lemma_projector_round_trip(proj: Projector, px: int, py: int, d: int, pt: Point3)
    requires
        proj.wf(),
        proj.extrinsics.rot == Mat3::spec_identity(),
        0 <= px < proj.intrinsics.width,
        0 <= py < proj.intrinsics.height,
        0 < d <= 0x80_0000,
        ((proj.intrinsics.cx - (MILLI_PIXEL as int) * px) * d) % (proj.intrinsics.fx as int) == 0,
        ((proj.intrinsics.cy - (MILLI_PIXEL as int) * py) * d) % (proj.intrinsics.fy as int) == 0,
        (pt.x as int, pt.y as int, pt.z as int) == proj.s_pixel_to_point(px, py, d),
    ensures
        proj.s_point_to_pixel(pt) == Some((px, py)),
        proj.s_point_depth(pt) == d,
{
    let fx = proj.intrinsics.fx as int;
    let fy = proj.intrinsics.fy as int;
    let cxm = proj.intrinsics.cx as int;
    let cym = proj.intrinsics.cy as int;
    let tx = proj.extrinsics.trans.x as int;
    let ty = proj.extrinsics.trans.y as int;
    let tz = proj.extrinsics.trans.z as int;
    let ay = (cxm - 1000 * px) * d;
    let az = (cym - 1000 * py) * d;
    let y = ay / fx;
    let z = az / fy;
    vstd::arithmetic::div_mod::lemma_fundamental_div_mod(ay, fx);
    vstd::arithmetic::div_mod::lemma_fundamental_div_mod(az, fy);
    assert(ay == fx * y);
    assert(az == fy * z);
    // The identity rotation makes both transforms exact translations.
    vstd::arithmetic::div_mod::lemma_div_multiples_vanish(d, 65536);
    vstd::arithmetic::div_mod::lemma_div_multiples_vanish(y, 65536);
    vstd::arithmetic::div_mod::lemma_div_multiples_vanish(z, 65536);
    assert(proj.s_pixel_to_point(px, py, d) == (d + tx, y + ty, z + tz));
    assert(pt.x == d + tx && pt.y == y + ty && pt.z == z + tz);
    let c = proj.extrinsics.s_to_cam(pt);
    assert(c == (d, y, z));
    // Projecting back: the ray divisions cancel exactly.
    assert(fx * (-y) == (1000 * px - cxm) * d) by (nonlinear_arith)
        requires
            fx * y == (cxm - 1000 * px) * d,
    ;
    assert(fy * (-z) == (1000 * py - cym) * d) by (nonlinear_arith)
        requires
            fy * z == (cym - 1000 * py) * d,
    ;
    assert((1000 * px - cxm) * d == d * (1000 * px - cxm)) by (nonlinear_arith);
    assert((1000 * py - cym) * d == d * (1000 * py - cym)) by (nonlinear_arith);
    vstd::arithmetic::div_mod::lemma_div_multiples_vanish(1000 * px - cxm, d);
    vstd::arithmetic::div_mod::lemma_div_multiples_vanish(1000 * py - cym, d);
    assert((fx * (-y)) / d + cxm == 1000 * px);
    assert((fy * (-z)) / d + cym == 1000 * py);
    vstd::arithmetic::div_mod::lemma_div_multiples_vanish(px, 1000);
    vstd::arithmetic::div_mod::lemma_div_multiples_vanish(py, 1000);
    assert(1000 * px / 1000 == px);
    assert(proj.s_point_to_pixel(pt) == Some((px, py)));
}

/// One off-diagonal rotation entry: `2(ab - cd) / FIXED_ONE`, within the unit
/// bound whenever the four words square-sum to at most one.
fn quat_off(a: i64, b: i64, c: i64, d: i64) -> (r: i64)
    requires
        -FIXED_ONE <= a <= FIXED_ONE,
        -FIXED_ONE <= b <= FIXED_ONE,
        -FIXED_ONE <= c <= FIXED_ONE,
        -FIXED_ONE <= d <= FIXED_ONE,
        a * a + b * b + c * c + d * d <= FIXED_ONE * FIXED_ONE,
    ensures
        r == (2 * (a * b - c * d)) / (FIXED_ONE as int),
        -FIXED_ONE <= r <= FIXED_ONE,
{
    proof {
        assert(2 * ((a as int) * (b as int) - (c as int) * (d as int)) <= (a as int) * (a as int)
            + (b as int) * (b as int) + (c as int) * (c as int) + (d as int) * (d as int))
            by (nonlinear_arith);
        assert(-((a as int) * (a as int) + (b as int) * (b as int) + (c as int) * (c as int) + (
        d as int) * (d as int)) <= 2 * ((a as int) * (b as int) - (c as int) * (d as int)))
            by (nonlinear_arith);
    }
    proof {
        lemma_abs_mul_le(a as int, b as int, 65536, 65536);
        lemma_abs_mul_le(c as int, d as int, 65536, 65536);
    }
    let num: i128 = 2 * ((a as i128) * (b as i128) - (c as i128) * (d as i128));
    let q = floor_div_i128(num, FIXED_ONE as i128);
    proof {
        lemma_div_bounds(num as int, 65536, -0x1_0000_0000, 0x1_0000_0000);
    }
    q as i64
}

/// One diagonal rotation entry: `FIXED_ONE - 2(a*a + b*b) / FIXED_ONE`.
fn quat_diag(a: i64, b: i64) -> (r: i64)
    requires
        -FIXED_ONE <= a <= FIXED_ONE,
        -FIXED_ONE <= b <= FIXED_ONE,
        a * a + b * b <= FIXED_ONE * FIXED_ONE,
    ensures
        r == FIXED_ONE - (2 * (a * a + b * b)) / (FIXED_ONE as int),
        -FIXED_ONE <= r <= FIXED_ONE,
{
    proof {
        assert((a as int) * (a as int) >= 0 && (b as int) * (b as int) >= 0) by (nonlinear_arith);
    }
    proof {
        lemma_abs_mul_le(a as int, a as int, 65536, 65536);
        lemma_abs_mul_le(b as int, b as int, 65536, 65536);
    }
    let num: i128 = 2 * ((a as i128) * (a as i128) + (b as i128) * (b as i128));
    let q = floor_div_i128(num, FIXED_ONE as i128);
    proof {
        lemma_div_bounds(num as int, 65536, 0, 0x2_0000_0000);
    }
    FIXED_ONE - (q as i64)
}

/// The rotation matrix of a unit quaternion given in Q16 fixed point
/// (components square-summing to at most one).
pub open spec fn s_rot_from_quat(x: int, y: int, z: int, w: int) -> Mat3 {
    let f = FIXED_ONE as int;
    Mat3 {
        xx: (f - (2 * (y * y + z * z)) / f) as i64,
        xy: ((2 * (x * y - z * w)) / f) as i64,
        xz: ((2 * (x * z + y * w)) / f) as i64,
        yx: ((2 * (x * y + z * w)) / f) as i64,
        yy: (f - (2 * (x * x + z * z)) / f) as i64,
        yz: ((2 * (y * z - x * w)) / f) as i64,
        zx: ((2 * (x * z - y * w)) / f) as i64,
        zy: ((2 * (y * z + x * w)) / f) as i64,
        zz: (f - (2 * (x * x + y * y)) / f) as i64,
    }
}

/// A pose from a unit quaternion and a translation, as the wire odometry
/// carries them: the counterpart of building extrinsics from an odometry
/// sample. Normalizing the rotation is the caller's obligation — it is
/// floating-point work done before quantizing to Q16 — and the requires
/// states it; `pose_from_quat_checked` tests it at run time instead.
pub fn pose_from_quat(qx: i64, qy: i64, qz: i64, qw: i64, trans: Point3) -> (r: Pose)
    requires
        -FIXED_ONE <= qx <= FIXED_ONE,
        -FIXED_ONE <= qy <= FIXED_ONE,
        -FIXED_ONE <= qz <= FIXED_ONE,
        -FIXED_ONE <= qw <= FIXED_ONE,
        qx * qx + qy * qy + qz * qz + qw * qw <= FIXED_ONE * FIXED_ONE,
        -TRANS_LIMIT <= trans.x <= TRANS_LIMIT,
        -TRANS_LIMIT <= trans.y <= TRANS_LIMIT,
        -TRANS_LIMIT <= trans.z <= TRANS_LIMIT,
    ensures
        r.rot == s_rot_from_quat(qx as int, qy as int, qz as int, qw as int),
        r.trans == trans,
        r.wf(),
{
    proof {
        assert(qx * qx >= 0 && qy * qy >= 0 && qz * qz >= 0 && qw * qw >= 0) by (nonlinear_arith);
        assert((-(qx as int)) * (-(qx as int)) == qx * qx) by (nonlinear_arith);
        assert((-(qy as int)) * (-(qy as int)) == qy * qy) by (nonlinear_arith);
        assert((-(qz as int)) * (-(qz as int)) == qz * qz) by (nonlinear_arith);
        assert((-(qx as int)) * (qw as int) == -((qx as int) * (qw as int))) by (nonlinear_arith);
        assert((-(qy as int)) * (qw as int) == -((qy as int) * (qw as int))) by (nonlinear_arith);
        assert((-(qz as int)) * (qw as int) == -((qz as int) * (qw as int))) by (nonlinear_arith);
    }
    let rot = Mat3 {
        xx: quat_diag(qy, qz),
        xy: quat_off(qx, qy, qz, qw),
        xz: quat_off(qx, qz, -qy, qw),
        yx: quat_off(qx, qy, -qz, qw),
        yy: quat_diag(qx, qz),
        yz: quat_off(qy, qz, qx, qw),
        zx: quat_off(qx, qz, qy, qw),
        zy: quat_off(qy, qz, -qx, qw),
        zz: quat_diag(qx, qy),
    };
    proof {
        assert(rot == s_rot_from_quat(qx as int, qy as int, qz as int, qw as int));
    }
    Pose { rot, trans }
}

/// `pose_from_quat` behind a run-time gate: the quaternion must square-sum
/// to at most one and the translation must be representable, else the sample
/// is refused. This is the library's guard on the normalization obligation
/// for rotations quantized outside it.
pub fn pose_from_quat_checked(qx: i64, qy: i64, qz: i64, qw: i64, trans: Point3) -> (r: Option<
    Pose,
>)
    ensures
        ({
            let ok = {
                &&& -FIXED_ONE <= qx <= FIXED_ONE
                &&& -FIXED_ONE <= qy <= FIXED_ONE
                &&& -FIXED_ONE <= qz <= FIXED_ONE
                &&& -FIXED_ONE <= qw <= FIXED_ONE
                &&& qx * qx + qy * qy + qz * qz + qw * qw <= FIXED_ONE * FIXED_ONE
                &&& -TRANS_LIMIT <= trans.x <= TRANS_LIMIT
                &&& -TRANS_LIMIT <= trans.y <= TRANS_LIMIT
                &&& -TRANS_LIMIT <= trans.z <= TRANS_LIMIT
            };
            match r {
                Option::Some(p) => ok && p.rot == s_rot_from_quat(
                    qx as int,
                    qy as int,
                    qz as int,
                    qw as int,
                ) && p.trans == trans && p.wf(),
                Option::None => !ok,
            }
        }),
{
    if -FIXED_ONE <= qx && qx <= FIXED_ONE && -FIXED_ONE <= qy && qy <= FIXED_ONE && -FIXED_ONE
        <= qz && qz <= FIXED_ONE && -FIXED_ONE <= qw && qw <= FIXED_ONE && -TRANS_LIMIT <= trans.x
        && trans.x <= TRANS_LIMIT && -TRANS_LIMIT <= trans.y && trans.y <= TRANS_LIMIT
        && -TRANS_LIMIT <= trans.z && trans.z <= TRANS_LIMIT {
        proof {
            lemma_abs_mul_le(qx as int, qx as int, 65536, 65536);
            lemma_abs_mul_le(qy as int, qy as int, 65536, 65536);
            lemma_abs_mul_le(qz as int, qz as int, 65536, 65536);
            lemma_abs_mul_le(qw as int, qw as int, 65536, 65536);
        }
        let sum: i128 = (qx as i128) * (qx as i128) + (qy as i128) * (qy as i128) + (qz as i128)
            * (qz as i128) + (qw as i128) * (qw as i128);
        if sum <= (FIXED_ONE as i128) * (FIXED_ONE as i128) {
            return Some(pose_from_quat(qx, qy, qz, qw, trans));
        }
    }
    None
}

} // verus!
