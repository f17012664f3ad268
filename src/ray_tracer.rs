use vstd::prelude::*;

use crate::vector::{lemma_shifted_div_mod, Vec3i};
use crate::world::World;

verus! {

/// Fixed-point scale of ray origins and distances: a value `v` stands for
/// `v / RAY_SCALE` world units.
pub const RAY_SCALE: i64 = 1024;

/// A ray: its origin in fixed point (see `RAY_SCALE`), and its direction in
/// any integer scale (only the ratios of the components matter).
#[derive(Copy, Clone, Debug)]
pub struct Ray {
    pub origin: [i32; 3],
    pub direction: [i16; 3],
}

/// First solid voxel a ray meets, and the normal of the face it entered by
/// (zero when the ray starts inside it).
#[derive(Copy, Clone, Debug, PartialEq, Eq, Structural)]
pub struct RayCollision {
    pub block_pos: Vec3i,
    pub block_face_direction: Vec3i,
}

pub open spec fn dir(ray: Ray, k: int) -> int {
    ray.direction[k] as int
}

pub open spec fn abs(x: int) -> int {
    if x < 0 {
        -x
    } else {
        x
    }
}

pub open spec fn sign(x: int) -> int {
    if x > 0 {
        1
    } else if x < 0 {
        -1
    } else {
        0
    }
}

/// Squared length of the ray's direction.
pub open spec fn norm2(ray: Ray) -> int {
    dir(ray, 0) * dir(ray, 0) + dir(ray, 1) * dir(ray, 1) + dir(ray, 2) * dir(ray, 2)
}

/// Distance (in fixed point) along axis `k` from the origin to the boundary
/// by which the ray leaves the origin's cell: for a positive direction the
/// next grid line above (a whole cell away when the origin lies on a grid
/// line), otherwise the grid line at or below the origin.
pub open spec fn first_crossing(ray: Ray, k: int) -> int {
    let f = ray.origin[k] as int % RAY_SCALE as int;
    if dir(ray, k) > 0 {
        RAY_SCALE - f
    } else {
        f
    }
}

/// State of a traversal: the current cell, for each axis the distance along
/// it (in fixed point) at which the ray crosses its next grid line, and the
/// normal of the face the current cell was entered by. Along axis `k` that
/// distance divided by `|direction[k]|` is the ray parameter of the crossing.
pub type DdaState = (Seq<int>, Seq<int>, Seq<int>);

pub open spec fn init_state(ray: Ray) -> DdaState {
    (
        seq![
            ray.origin[0] as int / RAY_SCALE as int,
            ray.origin[1] as int / RAY_SCALE as int,
            ray.origin[2] as int / RAY_SCALE as int,
        ],
        seq![first_crossing(ray, 0), first_crossing(ray, 1), first_crossing(ray, 2)],
        seq![0int, 0int, 0int],
    )
}

/// The ray crosses its next grid line along axis `i` strictly before the
/// one along axis `j`; an axis the ray does not move along never comes first.
pub open spec fn earlier(ray: Ray, s: DdaState, i: int, j: int) -> bool {
    if dir(ray, i) == 0 {
        false
    } else if dir(ray, j) == 0 {
        true
    } else {
        s.1[i] * abs(dir(ray, j)) < s.1[j] * abs(dir(ray, i))
    }
}

/// Axis of the next crossing.
pub open spec fn next_axis(ray: Ray, s: DdaState) -> int {
    if earlier(ray, s, 0, 1) {
        if earlier(ray, s, 0, 2) {
            0
        } else {
            2
        }
    } else {
        if earlier(ray, s, 1, 2) {
            1
        } else {
            2
        }
    }
}

/// The next crossing along axis `k` lies farther than `m` (fixed point) from
/// the origin, or never comes.
pub open spec fn beyond(ray: Ray, m: int, s: DdaState, k: int) -> bool {
    dir(ray, k) == 0 || s.1[k] * s.1[k] * norm2(ray) > m * m * (dir(ray, k) * dir(ray, k))
}

/// Step into the neighbouring cell along axis `k`.
pub open spec fn advance(ray: Ray, s: DdaState, k: int) -> DdaState {
    (
        s.0.update(k, s.0[k] + sign(dir(ray, k))),
        s.1.update(k, s.1[k] + RAY_SCALE),
        seq![0int, 0int, 0int].update(k, -sign(dir(ray, k))),
    )
}

pub open spec fn dda_inv(m: int, s: DdaState) -> bool {
    &&& s.0.len() == 3
    &&& s.1.len() == 3
    &&& s.2.len() == 3
    &&& forall|k: int| 0 <= k < 3 ==> 0 <= #[trigger] s.1[k] <= m + RAY_SCALE
}

pub open spec fn cell_vec(c: Seq<int>) -> Vec3i {
    Vec3i { x: c[0] as i32, y: c[1] as i32, z: c[2] as i32 }
}

pub open spec fn cell_of(s: DdaState) -> Vec3i {
    cell_vec(s.0)
}

pub proof fn lemma_within_reach(a: int, m: int, e2: int, n2: int)
    requires
        0 <= a,
        0 <= m,
        0 < e2 <= n2,
        a * a * n2 <= m * m * e2,
    ensures
        a <= m,
{
    if a > m {
        assert(a * a > m * m) by (nonlinear_arith)
            requires
                a > m,
                m >= 0,
        ;
        assert(a * a * n2 > m * m * e2) by (nonlinear_arith)
            requires
                a * a > m * m,
                0 < e2 <= n2,
                m >= 0,
        ;
    }
}

/// Outcome of marching from state `s`: the first solid cell, with the normal
/// of the face it was entered by, unless the next crossing lies beyond `m`.
pub open spec fn trace(world: World, ray: Ray, m: int, s: DdaState) -> Option<(Seq<int>, Seq<int>)>
    decreases 3 * (m + RAY_SCALE) - (s.1[0] + s.1[1] + s.1[2]),
    when dda_inv(m, s) && m >= 0
{
    if world.hits(cell_of(s)) {
        Some((s.0, s.2))
    } else {
        let k = next_axis(ray, s);
        if beyond(ray, m, s, k) {
            None
        } else {
            proof {
                assert(dir(ray, k) * dir(ray, k) <= norm2(ray)) by (nonlinear_arith)
                    requires
                        0 <= k < 3,
                        norm2(ray) == dir(ray, 0) * dir(ray, 0) + dir(ray, 1) * dir(ray, 1) + dir(ray, 2) * dir(ray, 2),
                ;
                assert(dir(ray, k) * dir(ray, k) > 0) by (nonlinear_arith)
                    requires
                        dir(ray, k) != 0,
                ;
                lemma_within_reach(s.1[k], m, dir(ray, k) * dir(ray, k), norm2(ray));
            }
            trace(world, ray, m, advance(ray, s, k))
        }
    }
}

/// What marching `ray` through `world` up to distance `m` (fixed point) finds.
pub open spec fn ray_hit(world: World, ray: Ray, m: int) -> Option<(Seq<int>, Seq<int>)> {
    trace(world, ray, m, init_state(ray))
}

/// Largest distance to a crossing that a traversal holds.
pub open spec fn crossing_bound() -> int {
    0x1_0000_0400
}

fn cell_of_origin(v: i32) -> (r: i64)
    ensures
        r == v as int / RAY_SCALE as int,
        -0x20_0000 <= r < 0x20_0000,
{
    proof {
        lemma_shifted_div_mod(v as int, 0x20_0000, 1024);
    }
    (v as i64 + 0x8000_0000) / 1024 - 0x20_0000
}

/// Distance from `v` (fixed point) to the boundary of its cell that a ray
/// along the sign of `d` crosses first: the far side of the cell for a
/// positive `d`, the near side otherwise.
fn init_tmax(v: i32, d: i16) -> (r: i64)
    ensures
        r == (if d > 0 {
            RAY_SCALE - v as int % RAY_SCALE as int
        } else {
            v as int % RAY_SCALE as int
        }),
        0 <= r <= RAY_SCALE,
{
    proof {
        lemma_shifted_div_mod(v as int, 0x20_0000, 1024);
    }
    let f = (v as i64 + 0x8000_0000) % 1024;
    if d > 0 {
        RAY_SCALE - f
    } else {
        f
    }
}

fn abs16(d: i16) -> (r: i64)
    ensures
        r == abs(d as int),
{
    if d < 0 {
        -(d as i64)
    } else {
        d as i64
    }
}

fn sign16(d: i16) -> (r: i64)
    ensures
        r == sign(d as int),
{
    if d > 0 {
        1
    } else if d < 0 {
        -1
    } else {
        0
    }
}

/// Whether the crossing at `ai` along an axis of direction `di` comes
/// strictly before the one at `aj` along an axis of direction `dj`.
fn crosses_first(ai: i64, di: i16, aj: i64, dj: i16) -> (r: bool)
    requires
        0 <= ai <= crossing_bound(),
        0 <= aj <= crossing_bound(),
    ensures
        r == (if di == 0 {
            false
        } else if dj == 0 {
            true
        } else {
            ai * abs(dj as int) < aj * abs(di as int)
        }),
{
    if di == 0 {
        return false;
    }
    if dj == 0 {
        return true;
    }
    let ei = abs16(di);
    let ej = abs16(dj);
    assert(0 <= ai * ej <= 0x1_0000_0400 * 0x8000) by (nonlinear_arith)
        requires
            0 <= ai <= 0x1_0000_0400,
            0 <= ej <= 0x8000,
    ;
    assert(0 <= aj * ei <= 0x1_0000_0400 * 0x8000) by (nonlinear_arith)
        requires
            0 <= aj <= 0x1_0000_0400,
            0 <= ei <= 0x8000,
    ;
    ai * ej < aj * ei
}

/// Whether the crossing at `a` along an axis of direction `d` lies farther
/// than `m` from the origin, for a direction of squared length `n2`.
fn out_of_reach(a: i64, d: i16, n2: i128, m: u32) -> (r: bool)
    requires
        0 <= a <= crossing_bound(),
        0 <= n2 <= 0xC000_0000,
    ensures
        r == (d == 0 || a * a * n2 > m * m * (d * d)),
{
    if d == 0 {
        return true;
    }
    assert(0 <= a * a <= 0x1_0000_0400 * 0x1_0000_0400) by (nonlinear_arith)
        requires
            0 <= a <= 0x1_0000_0400,
    ;
    let a2 = (a as i128) * (a as i128);
    assert(0 <= a2 <= 0x1_0000_0400 * 0x1_0000_0400) by (nonlinear_arith)
        requires
            a2 == a * a,
            0 <= a <= 0x1_0000_0400,
    ;
    assert(0 <= a2 * n2 <= 0x1_0000_0400 * 0x1_0000_0400 * 0xC000_0000) by (nonlinear_arith)
        requires
            0 <= a2 <= 0x1_0000_0400 * 0x1_0000_0400,
            0 <= n2 <= 0xC000_0000,
    ;
    assert(0 <= m * m <= 0x1_0000_0000 * 0x1_0000_0000) by (nonlinear_arith)
        requires
            0 <= m < 0x1_0000_0000,
    ;
    let m2 = (m as i128) * (m as i128);
    assert(0 <= m2 <= 0x1_0000_0000 * 0x1_0000_0000) by (nonlinear_arith)
        requires
            m2 == m * m,
            0 <= m < 0x1_0000_0000,
    ;
    assert(0 <= d * d <= 0x4000_0000) by (nonlinear_arith)
        requires
            -0x8000 <= d < 0x8000,
    ;
    let d2 = (d as i128) * (d as i128);
    assert(0 <= d2 <= 0x4000_0000) by (nonlinear_arith)
        requires
            d2 == d * d,
            -0x8000 <= d < 0x8000,
    ;
    assert(0 <= m2 * d2 <= 0x1_0000_0000 * 0x1_0000_0000 * 0x4000_0000) by (nonlinear_arith)
        requires
            0 <= m2 <= 0x1_0000_0000 * 0x1_0000_0000,
            0 <= d2 <= 0x4000_0000,
    ;
    a2 * n2 > m2 * d2
}

/// Marches `ray` through `world` cell by cell (Amanatides and Woo) and
/// returns the first solid voxel whose entry lies within `max_distance`
/// (fixed point, see `RAY_SCALE`) of the origin, with the normal of the face
/// it was entered by.
#[verifier::spinoff_prover]
pub fn ray_block(ray: Ray, max_distance: u32, world: &World) -> (r: Option<RayCollision>)
    requires
        world.wf(),
    ensures
        r is Some <==> ray_hit(*world, ray, max_distance as int) is Some,
        r matches Some(h) ==> ray_hit(*world, ray, max_distance as int) == Some(
            (
                seq![h.block_pos.x as int, h.block_pos.y as int, h.block_pos.z as int],
                seq![
                    h.block_face_direction.x as int,
                    h.block_face_direction.y as int,
                    h.block_face_direction.z as int,
                ],
            ),
        ),
{
    let ghost m = max_distance as int;
    let d0 = ray.direction[0];
    let d1 = ray.direction[1];
    let d2 = ray.direction[2];
    let e0 = d0 as i128;
    let e1 = d1 as i128;
    let e2 = d2 as i128;
    assert(0 <= e0 * e0 <= 0x4000_0000 && 0 <= e1 * e1 <= 0x4000_0000 && 0 <= e2 * e2 <= 0x4000_0000)
        by (nonlinear_arith)
        requires
            -0x8000 <= e0 < 0x8000,
            -0x8000 <= e1 < 0x8000,
            -0x8000 <= e2 < 0x8000,
    ;
    let n2: i128 = e0 * e0 + e1 * e1 + e2 * e2;
    assert(0 <= n2 <= 0xC000_0000 && n2 == norm2(ray)) by (nonlinear_arith)
        requires
            n2 == d0 * d0 + d1 * d1 + d2 * d2,
            -0x8000 <= d0 < 0x8000,
            -0x8000 <= d1 < 0x8000,
            -0x8000 <= d2 < 0x8000,
            norm2(ray) == d0 * d0 + d1 * d1 + d2 * d2,
    ;
    let s0 = sign16(d0);
    let s1 = sign16(d1);
    let s2 = sign16(d2);
    let q0 = cell_of_origin(ray.origin[0]);
    let q1 = cell_of_origin(ray.origin[1]);
    let q2 = cell_of_origin(ray.origin[2]);
    let mut px: i64 = q0;
    let mut py: i64 = q1;
    let mut pz: i64 = q2;
    let mut ax: i64 = init_tmax(ray.origin[0], d0);
    let mut ay: i64 = init_tmax(ray.origin[1], d1);
    let mut az: i64 = init_tmax(ray.origin[2], d2);
    let c0 = ax;
    let c1 = ay;
    let c2 = az;
    let mut face = Vec3i::new(0, 0, 0);
    let ghost mut nx: int = 0;
    let ghost mut ny: int = 0;
    let ghost mut nz: int = 0;
    let ghost mut st: DdaState = init_state(ray);
    assert(st =~= (
        seq![px as int, py as int, pz as int],
        seq![ax as int, ay as int, az as int],
        seq![face.x as int, face.y as int, face.z as int],
    ));
    loop
        invariant
            world.wf(),
            m == max_distance as int,
            n2 == norm2(ray),
            0 <= n2 <= 0xC000_0000,
            d0 == ray.direction[0],
            d1 == ray.direction[1],
            d2 == ray.direction[2],
            s0 == sign(d0 as int),
            s1 == sign(d1 as int),
            s2 == sign(d2 as int),
            -0x20_0000 <= q0 < 0x20_0000,
            -0x20_0000 <= q1 < 0x20_0000,
            -0x20_0000 <= q2 < 0x20_0000,
            0 <= c0 <= RAY_SCALE,
            0 <= c1 <= RAY_SCALE,
            0 <= c2 <= RAY_SCALE,
            nx >= 0 && ny >= 0 && nz >= 0,
            ax == c0 + nx * RAY_SCALE,
            ay == c1 + ny * RAY_SCALE,
            az == c2 + nz * RAY_SCALE,
            px == q0 + s0 * nx,
            py == q1 + s1 * ny,
            pz == q2 + s2 * nz,
            st == (
                seq![px as int, py as int, pz as int],
                seq![ax as int, ay as int, az as int],
                seq![face.x as int, face.y as int, face.z as int],
            ),
            dda_inv(m, st),
            trace(*world, ray, m, st) == ray_hit(*world, ray, m),
        decreases 3 * (m + RAY_SCALE) - (ax + ay + az),
    {
        assert(st.1[0] == ax && st.1[1] == ay && st.1[2] == az);
        assert(nx <= 0x40_0001 && ny <= 0x40_0001 && nz <= 0x40_0001);
        let pos = Vec3i::new(px as i32, py as i32, pz as i32);
        assert(pos == cell_of(st));
        if world.is_hitting_block(pos) {
            return Some(RayCollision { block_pos: pos, block_face_direction: face });
        }
        let k: usize = if crosses_first(ax, d0, ay, d1) {
            if crosses_first(ax, d0, az, d2) {
                0
            } else {
                2
            }
        } else {
            if crosses_first(ay, d1, az, d2) {
                1
            } else {
                2
            }
        };
        assert(k == next_axis(ray, st));
        let (a, d) = if k == 0 {
            (ax, d0)
        } else if k == 1 {
            (ay, d1)
        } else {
            (az, d2)
        };
        if out_of_reach(a, d, n2, max_distance) {
            return None;
        }
        proof {
            let kk = k as int;
            assert(dir(ray, kk) * dir(ray, kk) <= norm2(ray)) by (nonlinear_arith)
                requires
                    0 <= kk < 3,
                    norm2(ray) == dir(ray, 0) * dir(ray, 0) + dir(ray, 1) * dir(ray, 1) + dir(ray, 2) * dir(ray, 2),
            ;
            assert(dir(ray, kk) * dir(ray, kk) > 0) by (nonlinear_arith)
                requires
                    dir(ray, kk) != 0,
            ;
            lemma_within_reach(st.1[kk], m, dir(ray, kk) * dir(ray, kk), norm2(ray));
        }
        let ghost next = advance(ray, st, k as int);
        if k == 0 {
            px = px + s0;
            ax = ax + RAY_SCALE;
            face = Vec3i::new(-s0 as i32, 0, 0);
            proof {
                nx = nx + 1;
            }
        } else if k == 1 {
            py = py + s1;
            ay = ay + RAY_SCALE;
            face = Vec3i::new(0, -s1 as i32, 0);
            proof {
                ny = ny + 1;
            }
        } else {
            pz = pz + s2;
            az = az + RAY_SCALE;
            face = Vec3i::new(0, 0, -s2 as i32);
            proof {
                nz = nz + 1;
            }
        }
        proof {
            assert(next =~= (
                seq![px as int, py as int, pz as int],
                seq![ax as int, ay as int, az as int],
                seq![face.x as int, face.y as int, face.z as int],
            ));
            st = next;
        }
    }
}

/// Distance (fixed point) along axis `k`, measured in the direction of
/// travel, from the origin to where the ray leaves the slab of cells with
/// index `c` on that axis.
pub open spec fn exit_dist(ray: Ray, k: int, c: int) -> int {
    if dir(ray, k) > 0 {
        (c + 1) * RAY_SCALE - ray.origin[k] as int
    } else {
        ray.origin[k] as int - c * RAY_SCALE
    }
}

/// Distance along axis `k` from the origin to where the ray enters the slab
/// of index `c`.
pub open spec fn entry_dist(ray: Ray, k: int, c: int) -> int {
    exit_dist(ray, k, c) - RAY_SCALE
}

/// Along axes `i` and `j` the ray enters the slab of cell `c` on axis `i` no
/// later than it leaves the slab on axis `j` (ray parameters compared by
/// cross-multiplying).
pub open spec fn enters_before_exit(ray: Ray, c: Seq<int>, i: int, j: int) -> bool {
    dir(ray, i) != 0 && dir(ray, j) != 0 ==> entry_dist(ray, i, c[i]) * abs(dir(ray, j)) <= exit_dist(ray, j, c[j])
        * abs(dir(ray, i))
}

/// Along axis `k` the ray can be in cell `c`'s slab within the segment: an
/// axis it does not move along holds the origin's cell, otherwise the slab is
/// not left behind the origin and is entered within reach `m`.
pub open spec fn slab_in_reach(ray: Ray, m: int, c: Seq<int>, k: int) -> bool {
    &&& dir(ray, k) == 0 ==> c[k] == ray.origin[k] as int / RAY_SCALE as int
    &&& dir(ray, k) != 0 ==> {
        &&& exit_dist(ray, k, c[k]) >= 0
        &&& (entry_dist(ray, k, c[k]) <= 0 || entry_dist(ray, k, c[k]) * entry_dist(ray, k, c[k]) * norm2(ray) <= m
            * m * (dir(ray, k) * dir(ray, k)))
    }
}

/// The segment of the ray from its origin up to distance `m` (fixed point)
/// meets the closed cell `c`: some point of it lies in all three of the
/// cell's slabs at once.
pub open spec fn segment_meets_cell(ray: Ray, m: int, c: Seq<int>) -> bool {
    &&& c.len() == 3
    &&& forall|k: int| 0 <= k < 3 ==> #[trigger] slab_in_reach(ray, m, c, k)
    &&& forall|i: int, j: int| 0 <= i < 3 && 0 <= j < 3 ==> #[trigger] enters_before_exit(ray, c, i, j)
}

/// The traversal state tracks the geometry: along each moving axis the
/// crossing distance is where the ray leaves the current cell, and the
/// segment meets the current cell.
pub open spec fn geometry_inv(ray: Ray, m: int, s: DdaState) -> bool {
    &&& forall|k: int| 0 <= k < 3 ==> (dir(ray, k) != 0 ==> #[trigger] s.1[k] == exit_dist(ray, k, s.0[k]))
    &&& segment_meets_cell(ray, m, s.0)
}

proof fn lemma_init_geometry(ray: Ray, m: int)
    requires
        m >= 0,
    ensures
        geometry_inv(ray, m, init_state(ray)),
{
    let s = init_state(ray);
    assert forall|k: int| 0 <= k < 3 implies (dir(ray, k) != 0 ==> #[trigger] s.1[k] == exit_dist(ray, k, s.0[k])) by {
        lemma_shifted_div_mod(ray.origin[k] as int, 0, RAY_SCALE as int);
        vstd::arithmetic::div_mod::lemma_fundamental_div_mod(ray.origin[k] as int, RAY_SCALE as int);
    }
    assert forall|k: int| 0 <= k < 3 implies #[trigger] slab_in_reach(ray, m, s.0, k) by {
        vstd::arithmetic::div_mod::lemma_fundamental_div_mod(ray.origin[k] as int, RAY_SCALE as int);
        vstd::arithmetic::div_mod::lemma_mod_bound(ray.origin[k] as int, RAY_SCALE as int);
    }
    assert forall|i: int, j: int| 0 <= i < 3 && 0 <= j < 3 implies #[trigger] enters_before_exit(ray, s.0, i, j) by {
        vstd::arithmetic::div_mod::lemma_fundamental_div_mod(ray.origin[i] as int, RAY_SCALE as int);
        vstd::arithmetic::div_mod::lemma_mod_bound(ray.origin[i] as int, RAY_SCALE as int);
        vstd::arithmetic::div_mod::lemma_fundamental_div_mod(ray.origin[j] as int, RAY_SCALE as int);
        vstd::arithmetic::div_mod::lemma_mod_bound(ray.origin[j] as int, RAY_SCALE as int);
        let ei = entry_dist(ray, i, s.0[i]);
        let xj = exit_dist(ray, j, s.0[j]);
        if dir(ray, i) != 0 && dir(ray, j) != 0 {
            assert(ei * abs(dir(ray, j)) <= xj * abs(dir(ray, i))) by (nonlinear_arith)
                requires
                    ei <= 0,
                    xj >= 0,
                    abs(dir(ray, j)) >= 0,
                    abs(dir(ray, i)) >= 0,
            ;
        }
    }
}

proof fn lemma_cross_trans(a: int, b: int, c: int, ea: int, eb: int, ec: int)
    requires
        a * eb <= b * ea,
        b * ec <= c * eb,
        eb > 0,
        ea >= 0,
        ec >= 0,
    ensures
        a * ec <= c * ea,
{
    assert(a * eb * ec <= b * ea * ec) by (nonlinear_arith)
        requires
            a * eb <= b * ea,
            ec >= 0,
    ;
    assert(b * ec * ea <= c * eb * ea) by (nonlinear_arith)
        requires
            b * ec <= c * eb,
            ea >= 0,
    ;
    assert(b * ea * ec == b * ec * ea) by (nonlinear_arith);
    assert(a * ec <= c * ea) by (nonlinear_arith)
        requires
            a * eb * ec <= c * eb * ea,
            eb > 0,
    ;
}

/// The axis of the next crossing crosses no later than any other moving axis.
proof fn lemma_next_axis_first(ray: Ray, s: DdaState)
    requires
        s.1.len() == 3,
        dir(ray, next_axis(ray, s)) != 0,
    ensures
        forall|j: int| 0 <= j < 3 && dir(ray, j) != 0 ==> s.1[next_axis(ray, s)] * abs(dir(ray, j)) <= #[trigger] s.1[j]
            * abs(dir(ray, next_axis(ray, s))),
{
    let k = next_axis(ray, s);
    let (a0, a1, a2) = (s.1[0], s.1[1], s.1[2]);
    let (e0, e1, e2) = (abs(dir(ray, 0)), abs(dir(ray, 1)), abs(dir(ray, 2)));
    if earlier(ray, s, 0, 1) && !earlier(ray, s, 0, 2) && dir(ray, 1) != 0 {
        lemma_cross_trans(a2, a0, a1, e2, e0, e1);
    }
    if !earlier(ray, s, 0, 1) && !earlier(ray, s, 1, 2) && dir(ray, 0) != 0 && dir(ray, 1) != 0 {
        lemma_cross_trans(a2, a1, a0, e2, e1, e0);
    }
}

#[verifier::spinoff_prover]
#[verifier::rlimit(50)]
proof fn lemma_advance_geometry(ray: Ray, m: int, s: DdaState, k: int)
    requires
        m >= 0,
        dda_inv(m, s),
        geometry_inv(ray, m, s),
        k == next_axis(ray, s),
        !beyond(ray, m, s, k),
    ensures
        geometry_inv(ray, m, advance(ray, s, k)),
{
    let t = advance(ray, s, k);
    lemma_next_axis_first(ray, s);
    assert forall|q: int| 0 <= q < 3 implies (dir(ray, q) != 0 ==> #[trigger] t.1[q] == exit_dist(ray, q, t.0[q])) by {
        if q != k {
            assert(t.1[q] == s.1[q] && t.0[q] == s.0[q]);
        }
    }
    assert forall|q: int| 0 <= q < 3 implies #[trigger] slab_in_reach(ray, m, t.0, q) by {
        if q != k {
            assert(slab_in_reach(ray, m, s.0, q));
        }
    }
    assert forall|i: int, j: int| 0 <= i < 3 && 0 <= j < 3 implies #[trigger] enters_before_exit(ray, t.0, i, j) by {
        if dir(ray, i) != 0 && dir(ray, j) != 0 {
            let ei = abs(dir(ray, i));
            let ej = abs(dir(ray, j));
            if i == k && j == k {
                assert(s.1[k] * ej <= (s.1[k] + RAY_SCALE) * ei) by (nonlinear_arith)
                    requires
                        ei == ej,
                        ei >= 0,
                ;
            } else if i == k {
                assert(s.1[k] * ej <= s.1[j] * ei);
            } else if j == k {
                assert(enters_before_exit(ray, s.0, i, k));
                assert(s.1[k] * ei <= (s.1[k] + RAY_SCALE) * ei) by (nonlinear_arith)
                    requires
                        ei >= 0,
                ;
            } else {
                assert(enters_before_exit(ray, s.0, i, j));
            }
        }
    }
}

proof fn lemma_trace_on_segment(world: World, ray: Ray, m: int, s: DdaState)
    requires
        m >= 0,
        dda_inv(m, s),
        geometry_inv(ray, m, s),
    ensures
        trace(world, ray, m, s) matches Some((c, f)) ==> world.hits(cell_vec(c)) && segment_meets_cell(ray, m, c),
    decreases 3 * (m + RAY_SCALE) - (s.1[0] + s.1[1] + s.1[2]),
{
    if !world.hits(cell_of(s)) {
        let k = next_axis(ray, s);
        if !beyond(ray, m, s, k) {
            assert(dir(ray, k) * dir(ray, k) <= norm2(ray)) by (nonlinear_arith)
                requires
                    0 <= k < 3,
                    norm2(ray) == dir(ray, 0) * dir(ray, 0) + dir(ray, 1) * dir(ray, 1) + dir(ray, 2) * dir(ray, 2),
            ;
            assert(dir(ray, k) * dir(ray, k) > 0) by (nonlinear_arith)
                requires
                    dir(ray, k) != 0,
            ;
            lemma_within_reach(s.1[k], m, dir(ray, k) * dir(ray, k), norm2(ray));
            lemma_advance_geometry(ray, m, s, k);
            lemma_trace_on_segment(world, ray, m, advance(ray, s, k));
        }
    }
}

/// Soundness of the march in geometric terms: the voxel it returns is solid,
/// and the segment of the ray from its origin up to distance `m` (fixed
/// point) passes through it.
pub proof fn lemma_ray_hit_on_segment(world: World, ray: Ray, m: int)
    requires
        m >= 0,
    ensures
        ray_hit(world, ray, m) matches Some((c, f)) ==> world.hits(cell_vec(c)) && segment_meets_cell(ray, m, c),
{
    let s = init_state(ray);
    assert forall|k: int| 0 <= k < 3 implies 0 <= #[trigger] s.1[k] <= m + RAY_SCALE by {
        vstd::arithmetic::div_mod::lemma_mod_bound(ray.origin[k] as int, RAY_SCALE as int);
    }
    lemma_init_geometry(ray, m);
    lemma_trace_on_segment(world, ray, m, s);
}

} // verus!