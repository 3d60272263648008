//! The world: units, unit types, statics, projectiles, the tile map and the
//! camera, with the isometric coordinate transforms.

use vstd::prelude::*;
use crate::fixed::{SUB, POS_LIMIT, clamp_pos, abs, trunc_div, floor_div, trunc_div_exec, clamp_to_world};
use crate::tiles::{TileType, TileMap};
use crate::entity::{Unit, UnitType, UnitState, with_state};
use crate::projectile::Projectile;

verus! {

/// Number of unit ids, and of unit type ids.
pub const N_IDS: usize = 256;

/// Tint of the player's units loaded from a world file (opaque white).
pub const PLAYER_TINT: i32 = -1;

/// Tint of the enemy's units loaded from a world file.
pub const ENEMY_TINT: i32 = -0x38ffc328;

/// A texture placed at a tile.
#[derive(Clone, Copy, Debug, PartialEq, Eq, Structural)]
pub struct StaticTex {
    /// Texture id in the resource set.
    pub tex_id: u8,
    /// Tile x coordinate.
    pub wx: i32,
    /// Tile y coordinate.
    pub wy: i32,
}

/// Why a unit could not be spawned.
#[derive(Clone, Copy, Debug, PartialEq, Eq, Structural)]
pub enum SpawnError {
    /// No unit type is registered under the requested id.
    UnknownUnitType,
    /// All unit ids are taken.
    NoFreeId,
}

/// Sprites, the tile map, units and projectiles.
pub struct World {
    /// Statics, drawn in the order they were created.
    pub statics: Vec<StaticTex>,
    /// Registered unit types, indexed by type id.
    pub unit_types: Vec<Option<UnitType>>,
    /// Living units, indexed by unit id.
    pub units: Vec<Option<Unit>>,
    /// Projectiles yet to reach their target.
    pub projectiles: Vec<Projectile>,
    /// Screen position of the top corner of tile `(0, 0)`'s box.
    pub origin: (i32, i32),
    pub tilemap: TileMap,
    /// Width and height of a tile, in pixels.
    pub tile_size: (i32, i32),
    /// Camera x position, in sub-units.
    pub cam_wx: i64,
    /// Camera y position, in sub-units.
    pub cam_wy: i64,
    /// Camera offset on the screen, in pixels.
    pub coff: (i32, i32),
    /// Id of the background music.
    pub bgm_id: u8,
}

/// Screen position of the top corner of tile `(x, y)`'s box.
pub open spec fn wots_spec(ox: int, oy: int, tw: int, th: int, x: int, y: int) -> (int, int) {
    (ox + trunc_div((x - y) * tw, 2), oy + trunc_div((x + y) * th, 2))
}

/// Screen position, rounded down to whole pixels, of world position
/// `(x, y)` given in sub-units.
pub open spec fn wots_sub_spec(ox: int, oy: int, tw: int, th: int, x: int, y: int) -> (int, int) {
    (ox + (x - y) * tw / (2 * SUB), oy + (x + y) * th / (2 * SUB))
}

/// The tile under screen point `(sx, sy)` for a camera at `(cx, cy)`.
///
/// The point is moved by the camera's screen position and laid on a grid of
/// boxes of one tile's size. A point inside the diamond inscribed in its
/// box belongs to the tile of that box; any other point belongs to one of
/// the four neighbours, picked by the signs of the offsets from the box's
/// centre in this order: right and below, left and below, right and above,
/// and otherwise left and above (which takes every point whose offset on
/// either axis is zero). All quantities are scaled by `2 * SUB`, which keeps
/// them whole.
pub open spec fn screen_to_tile(tw: int, th: int, cx: int, cy: int, sx: int, sy: int) -> (int, int) {
    let k = 2 * SUB;
    let px = k * sx + (cx - cy) * tw;
    let py = k * sy + (cx + cy) * th;
    let gx = px / (k * tw);
    let gy = py / (k * th);
    let ix = px - (2 * gx + 1) * SUB * tw;
    let iy = py - (2 * gy + 1) * SUB * th;
    let rx = gx + gy;
    let ry = gy - gx;
    if abs(ix) * th + abs(iy) * tw <= SUB * tw * th {
        (rx, ry)
    } else if ix > 0 && iy > 0 {
        (rx + 1, ry)
    } else if ix < 0 && iy > 0 {
        (rx, ry + 1)
    } else if ix > 0 && iy < 0 {
        (rx, ry - 1)
    } else {
        (rx - 1, ry)
    }
}

/// `v` saturated into the range of `i32`, as a float-to-integer cast does.
pub open spec fn sat_i32(v: int) -> i32 {
    if v > i32::MAX {
        i32::MAX
    } else if v < i32::MIN {
        i32::MIN
    } else {
        v as i32
    }
}

fn sat_i32_exec(v: i128) -> (r: i32)
    ensures
        r == sat_i32(v as int),
{
    if v > i32::MAX as i128 {
        i32::MAX
    } else if v < i32::MIN as i128 {
        i32::MIN
    } else {
        v as i32
    }
}

/// `a - (a / d) * d` lies in `[0, d)`.
proof fn lemma_floor_rem(a: int, d: int)
    requires
        d > 0,
    ensures
        0 <= a - (a / d) * d < d,
{
    vstd::arithmetic::div_mod::lemma_fundamental_div_mod(a, d);
    assert(d * (a / d) == (a / d) * d) by (nonlinear_arith);
}

/// On one axis, `2 * SUB * w * (m + 1) / 2` over a grid of boxes of width
/// `w`: the box and the offset from its centre.
proof fn lemma_center_axis(hw: int, m: int)
    requires
        hw > 0,
    ensures
        ({
            let w = 2 * hw;
            let p = SUB * w * (m + 1);
            let g = p / (2 * SUB * w);
            let i = p - (2 * g + 1) * SUB * w;
            &&& (m % 2 == 0 ==> g == m / 2 && i == 0)
            &&& (m % 2 == 1 ==> g == m / 2 + 1 && i == -(SUB * w))
        }),
{
    let w = 2 * hw;
    let d = 2 * SUB * w;
    let p = SUB * w * (m + 1);
    vstd::arithmetic::div_mod::lemma_fundamental_div_mod(m, 2);
    let j = m / 2;
    if m % 2 == 0 {
        assert(p == d * j + SUB * w) by (nonlinear_arith)
            requires p == SUB * w * (m + 1), m == 2 * j, d == 2 * SUB * w;
        assert(0 <= SUB * w < d) by (nonlinear_arith)
            requires d == 2 * SUB * w, w > 0, SUB > 0;
        vstd::arithmetic::div_mod::lemma_fundamental_div_mod_converse(p, d, j, SUB * w);
        assert(p - (2 * j + 1) * SUB * w == 0) by (nonlinear_arith)
            requires p == d * j + SUB * w, d == 2 * SUB * w;
    } else {
        assert(m == 2 * j + 1);
        assert(p == d * (j + 1)) by (nonlinear_arith)
            requires p == SUB * w * (m + 1), m == 2 * j + 1, d == 2 * SUB * w;
        assert(d > 0) by (nonlinear_arith)
            requires d == 2 * SUB * w, w > 0, SUB > 0;
        vstd::arithmetic::div_mod::lemma_fundamental_div_mod_converse(p, d, j + 1, 0);
        assert(p - (2 * (j + 1) + 1) * SUB * w == -(SUB * w)) by (nonlinear_arith)
            requires p == d * (j + 1), d == 2 * SUB * w;
    }
}

/// The centre of a tile's box, moved by the camera's screen position, is
/// found again as that tile, for any camera whose screen position is a
/// whole pixel (a camera standing on a whole tile is one). Tile sizes are
/// even, so that the centre lies on a whole pixel.
pub proof fn lemma_tile_round_trip(ox: int, oy: int, tw: int, th: int, cx: int, cy: int, tx: int, ty: int)
    requires
        tw > 0,
        th > 0,
        tw % 2 == 0,
        th % 2 == 0,
        ((cx - cy) * tw) % (2 * SUB) == 0,
        ((cx + cy) * th) % (2 * SUB) == 0,
    ensures
        ({
            let corner = wots_spec(ox, oy, tw, th, tx, ty);
            let cam = wots_sub_spec(ox, oy, tw, th, cx, cy);
            screen_to_tile(tw, th, cx, cy, corner.0 + tw / 2 - cam.0, corner.1 + th / 2 - cam.1)
                == (tx, ty)
        }),
{
    let hw = tw / 2;
    let hh = th / 2;
    assert(tw == 2 * hw && th == 2 * hh);
    let m = tx - ty;
    let n = tx + ty;
    let k = 2 * SUB;
    let qx = (cx - cy) * tw / k;
    let qy = (cx + cy) * th / k;
    vstd::arithmetic::div_mod::lemma_fundamental_div_mod((cx - cy) * tw, k);
    vstd::arithmetic::div_mod::lemma_fundamental_div_mod((cx + cy) * th, k);
    assert((cx - cy) * tw == k * qx);
    assert((cx + cy) * th == k * qy);
    assert(trunc_div(m * tw, 2) == m * hw && trunc_div(n * th, 2) == n * hh) by {
        assert(m * tw == 2 * (m * hw)) by (nonlinear_arith) requires tw == 2 * hw;
        assert(n * th == 2 * (n * hh)) by (nonlinear_arith) requires th == 2 * hh;
        vstd::arithmetic::div_mod::lemma_fundamental_div_mod_converse(m * tw, 2, m * hw, 0);
        vstd::arithmetic::div_mod::lemma_fundamental_div_mod_converse(-(m * tw), 2, -(m * hw), 0);
        vstd::arithmetic::div_mod::lemma_fundamental_div_mod_converse(n * th, 2, n * hh, 0);
        vstd::arithmetic::div_mod::lemma_fundamental_div_mod_converse(-(n * th), 2, -(n * hh), 0);
    }
    let sx = m * hw + hw - qx;
    let sy = n * hh + hh - qy;
    let px = k * sx + (cx - cy) * tw;
    let py = k * sy + (cx + cy) * th;
    assert(px == SUB * tw * (m + 1)) by (nonlinear_arith)
        requires px == k * sx + (cx - cy) * tw, k == 2 * SUB, sx == m * hw + hw - qx,
            (cx - cy) * tw == k * qx, tw == 2 * hw;
    assert(py == SUB * th * (n + 1)) by (nonlinear_arith)
        requires py == k * sy + (cx + cy) * th, k == 2 * SUB, sy == n * hh + hh - qy,
            (cx + cy) * th == k * qy, th == 2 * hh;
    lemma_center_axis(hw, m);
    lemma_center_axis(hh, n);
    vstd::arithmetic::div_mod::lemma_fundamental_div_mod(m, 2);
    vstd::arithmetic::div_mod::lemma_fundamental_div_mod(n, 2);
    assert(m % 2 == n % 2) by {
        vstd::arithmetic::div_mod::lemma_fundamental_div_mod_converse(n - m, 2, ty, 0);
    }
    let gx = px / (k * tw);
    let gy = py / (k * th);
    let ix = px - (2 * gx + 1) * SUB * tw;
    let iy = py - (2 * gy + 1) * SUB * th;
    assert(SUB * tw * th > 0) by (nonlinear_arith)
        requires tw > 0, th > 0, SUB > 0;
    assert(SUB * tw > 0 && SUB * th > 0) by (nonlinear_arith)
        requires tw > 0, th > 0, SUB > 0;
    let corner = wots_spec(ox, oy, tw, th, tx, ty);
    let cam = wots_sub_spec(ox, oy, tw, th, cx, cy);
    assert(corner.0 + tw / 2 - cam.0 == sx);
    assert(corner.1 + th / 2 - cam.1 == sy);
    if m % 2 == 1 {
        assert(ix == -(SUB * tw) && iy == -(SUB * th));
        assert(abs(ix) * th + abs(iy) * tw == 2 * (SUB * tw * th)) by (nonlinear_arith)
            requires ix == -(SUB * tw), iy == -(SUB * th), SUB * tw > 0, SUB * th > 0;
        assert(gx + gy - 1 == tx);
        assert(gy - gx == ty);
    } else {
        assert(ix == 0 && iy == 0);
        assert(abs(ix) == 0 && abs(iy) == 0);
        assert(abs(ix) * th + abs(iy) * tw == 0) by (nonlinear_arith)
            requires abs(ix) == 0, abs(iy) == 0;
        assert(gx + gy == tx);
        assert(gy - gx == ty);
    }
    assert(screen_to_tile(tw, th, cx, cy, sx, sy) == (tx, ty));
}

/// A point on the edge of the diamond inscribed in its box belongs to the
/// tile of that box, whichever quadrant the edge lies in; only points beyond
/// the edge go to a neighbour, chosen by the quadrant.
pub proof fn lemma_edge_points(tw: int, th: int, cx: int, cy: int, sx: int, sy: int)
    requires
        tw > 0,
        th > 0,
    ensures
        ({
            let k = 2 * SUB;
            let px = k * sx + (cx - cy) * tw;
            let py = k * sy + (cx + cy) * th;
            let gx = px / (k * tw);
            let gy = py / (k * th);
            let ix = px - (2 * gx + 1) * SUB * tw;
            let iy = py - (2 * gy + 1) * SUB * th;
            let t = screen_to_tile(tw, th, cx, cy, sx, sy);
            &&& abs(ix) * th + abs(iy) * tw == SUB * tw * th ==> t == (gx + gy, gy - gx)
            &&& abs(ix) * th + abs(iy) * tw > SUB * tw * th ==> t == if ix > 0 && iy > 0 {
                (gx + gy + 1, gy - gx)
            } else if ix < 0 && iy > 0 {
                (gx + gy, gy - gx + 1)
            } else if ix > 0 && iy < 0 {
                (gx + gy, gy - gx - 1)
            } else {
                (gx + gy - 1, gy - gx)
            }
        }),
{
}

/// Screen point `(px, py)`, moved by the camera and scaled by `2 * SUB`,
/// lies in the closed diamond of tile `(a, b)`.
pub open spec fn in_diamond(tw: int, th: int, px: int, py: int, a: int, b: int) -> bool {
    abs(px - SUB * tw * (a - b + 1)) * th + abs(py - SUB * th * (a + b + 1)) * tw <= SUB * tw * th
}

/// `|x| * m` for a positive `m` is `|x * m|`.
proof fn lemma_abs_mul(x: int, m: int)
    requires
        m > 0,
    ensures
        abs(x) * m == abs(x * m),
{
    if x < 0 {
        assert(abs(x) * m == -(x * m)) by (nonlinear_arith)
            requires x < 0, m > 0;
        assert(x * m < 0) by (nonlinear_arith)
            requires x < 0, m > 0;
    } else {
        assert(x * m >= 0) by (nonlinear_arith)
            requires x >= 0, m > 0;
    }
}

/// The tile `screen_to_tile` returns holds the point in its closed diamond.
pub proof fn lemma_tile_holds_point(tw: int, th: int, cx: int, cy: int, sx: int, sy: int)
    requires
        tw > 0,
        th > 0,
    ensures
        ({
            let px = 2 * SUB * sx + (cx - cy) * tw;
            let py = 2 * SUB * sy + (cx + cy) * th;
            let t = screen_to_tile(tw, th, cx, cy, sx, sy);
            in_diamond(tw, th, px, py, t.0, t.1)
        }),
{
    let k = 2 * SUB;
    let px = k * sx + (cx - cy) * tw;
    let py = k * sy + (cx + cy) * th;
    let gx = px / (k * tw);
    let gy = py / (k * th);
    let ix = px - (2 * gx + 1) * SUB * tw;
    let iy = py - (2 * gy + 1) * SUB * th;
    let ca = SUB * tw;
    let cb = SUB * th;
    let c = SUB * tw * th;
    assert(k * tw > 0 && k * th > 0) by (nonlinear_arith)
        requires tw > 0, th > 0, k == 2_000_000;
    lemma_floor_rem(px, k * tw);
    lemma_floor_rem(py, k * th);
    assert(-ca <= ix < ca) by (nonlinear_arith)
        requires 0 <= px - gx * (k * tw) < k * tw, ix == px - (2 * gx + 1) * SUB * tw, k == 2 * SUB, ca == SUB * tw;
    assert(-cb <= iy < cb) by (nonlinear_arith)
        requires 0 <= py - gy * (k * th) < k * th, iy == py - (2 * gy + 1) * SUB * th, k == 2 * SUB, cb == SUB * th;
    let p = ix * th;
    let q = iy * tw;
    assert(ca * th == c && cb * tw == c) by (nonlinear_arith)
        requires ca == SUB * tw, cb == SUB * th, c == SUB * tw * th;
    assert(-c <= p < c) by (nonlinear_arith)
        requires -ca <= ix < ca, p == ix * th, th > 0, c == ca * th, ca == SUB * tw;
    assert(-c <= q < c) by (nonlinear_arith)
        requires -cb <= iy < cb, q == iy * tw, tw > 0, c == cb * tw, cb == SUB * th;
    lemma_abs_mul(ix, th);
    lemma_abs_mul(iy, tw);
    lemma_abs_mul(ix - ca, th);
    lemma_abs_mul(ix + ca, th);
    lemma_abs_mul(iy - cb, tw);
    lemma_abs_mul(iy + cb, tw);
    assert((ix - ca) * th == p - c && (ix + ca) * th == p + c) by (nonlinear_arith)
        requires p == ix * th, c == ca * th;
    assert((iy - cb) * tw == q - c && (iy + cb) * tw == q + c) by (nonlinear_arith)
        requires q == iy * tw, c == cb * tw;
    assert(ix > 0 <==> p > 0) by (nonlinear_arith)
        requires p == ix * th, th > 0;
    assert(ix < 0 <==> p < 0) by (nonlinear_arith)
        requires p == ix * th, th > 0;
    assert(iy > 0 <==> q > 0) by (nonlinear_arith)
        requires q == iy * tw, tw > 0;
    assert(iy < 0 <==> q < 0) by (nonlinear_arith)
        requires q == iy * tw, tw > 0;
    let rx = gx + gy;
    let ry = gy - gx;
    assert(SUB * tw * ((rx + 1) - ry + 1) == (2 * gx + 1) * SUB * tw + ca) by (nonlinear_arith)
        requires rx == gx + gy, ry == gy - gx, ca == SUB * tw;
    assert(SUB * tw * (rx - ry + 1) == (2 * gx + 1) * SUB * tw) by (nonlinear_arith)
        requires rx == gx + gy, ry == gy - gx;
    assert(SUB * tw * (rx - (ry + 1) + 1) == (2 * gx + 1) * SUB * tw - ca) by (nonlinear_arith)
        requires rx == gx + gy, ry == gy - gx, ca == SUB * tw;
    assert(SUB * tw * (rx - (ry - 1) + 1) == (2 * gx + 1) * SUB * tw + ca) by (nonlinear_arith)
        requires rx == gx + gy, ry == gy - gx, ca == SUB * tw;
    assert(SUB * tw * ((rx - 1) - ry + 1) == (2 * gx + 1) * SUB * tw - ca) by (nonlinear_arith)
        requires rx == gx + gy, ry == gy - gx, ca == SUB * tw;
    assert(SUB * th * ((rx + 1) + ry + 1) == (2 * gy + 1) * SUB * th + cb) by (nonlinear_arith)
        requires rx == gx + gy, ry == gy - gx, cb == SUB * th;
    assert(SUB * th * (rx + ry + 1) == (2 * gy + 1) * SUB * th) by (nonlinear_arith)
        requires rx == gx + gy, ry == gy - gx;
    assert(SUB * th * (rx + (ry + 1) + 1) == (2 * gy + 1) * SUB * th + cb) by (nonlinear_arith)
        requires rx == gx + gy, ry == gy - gx, cb == SUB * th;
    assert(SUB * th * (rx + (ry - 1) + 1) == (2 * gy + 1) * SUB * th - cb) by (nonlinear_arith)
        requires rx == gx + gy, ry == gy - gx, cb == SUB * th;
    assert(SUB * th * ((rx - 1) + ry + 1) == (2 * gy + 1) * SUB * th - cb) by (nonlinear_arith)
        requires rx == gx + gy, ry == gy - gx, cb == SUB * th;
}

/// True when the two tiles are exactly `r` apart in Manhattan distance.
pub open spec fn at_range(t1: (i32, i32), t2: (i32, i32), r: int) -> bool {
    abs(t1.0 - t2.0) + abs(t1.1 - t2.1) == r
}

/// Returns true if two tiles are exactly `r` apart in Manhattan distance.
pub fn is_tile_atrange(t1: (i32, i32), t2: (i32, i32), r: u8) -> (b: bool)
    ensures
        b == at_range(t1, t2, r as int),
{
    let x: i64 = t1.0 as i64 - t2.0 as i64;
    let y: i64 = t1.1 as i64 - t2.1 as i64;
    let ax: i64 = if x < 0 { -x } else { x };
    let ay: i64 = if y < 0 { -y } else { y };
    ax + ay == r as i64
}

/// A tile is in attack range of itself only at range zero, and the tile `r`
/// steps along one axis is in range `r` and in no other range.
pub proof fn lemma_atrange_axis(r: u8, s: u8)
    requires
        r != s,
    ensures
        at_range((3, 3), (3, (3 + r) as i32), r as int),
        !at_range((3, 3), (3, (3 + r) as i32), s as int),
{
}

impl World {
    /// The id space holds every slot, every unit is well formed and of a
    /// registered type, every registered type has all its animations, and
    /// tiles have a positive size.
    pub open spec fn wf(&self) -> bool {
        &&& self.units@.len() == N_IDS
        &&& self.unit_types@.len() == N_IDS
        &&& forall|i: int|
            0 <= i < N_IDS && #[trigger] self.units@[i] is Some ==> {
                &&& self.units@[i]->0.wf()
                &&& self.unit_types@[self.units@[i]->0.type_id as int] is Some
            }
        &&& forall|t: int|
            0 <= t < N_IDS && #[trigger] self.unit_types@[t] is Some ==> self.unit_types@[t]->0.complete()
        &&& forall|i: int| 0 <= i < self.projectiles@.len() ==> #[trigger] self.projectiles@[i].wf()
        &&& self.tilemap.wf()
        &&& self.tile_size.0 > 0
        &&& self.tile_size.1 > 0
        &&& -POS_LIMIT <= self.cam_wx <= POS_LIMIT
        &&& -POS_LIMIT <= self.cam_wy <= POS_LIMIT
    }

    /// The unit with id `id`, if it lives.
    pub open spec fn unit(&self, id: u8) -> Option<Unit> {
        self.units@[id as int]
    }

    /// An empty world with tiles of 96 by 48 pixels.
    pub fn blank() -> (r: World)
        ensures
            r.wf(),
            r.is_blank(0, 0, 96, 48),
    {
        World::blank_o(0, 0, 96, 48)
    }

    /// Nothing in it, the camera at the origin, origin and tile size as given.
    pub open spec fn is_blank(&self, ox: i32, oy: i32, tx: i32, ty: i32) -> bool {
        &&& self.statics@.len() == 0
        &&& self.projectiles@.len() == 0
        &&& forall|i: int| 0 <= i < N_IDS ==> self.units@[i] is None
        &&& forall|i: int| 0 <= i < N_IDS ==> self.unit_types@[i] is None
        &&& self.origin == (ox, oy)
        &&& self.tile_size == (tx, ty)
        &&& self.cam_wx == 0
        &&& self.cam_wy == 0
        &&& self.coff == (0i32, 0i32)
        &&& self.bgm_id == 0
        &&& !self.tilemap.show
        &&& self.tilemap.map_width == 0
        &&& self.tilemap.map_height == 0
    }

    /// An empty world with origin `(ox, oy)` and tiles of `tx` by `ty` pixels.
    pub fn blank_o(ox: i32, oy: i32, tx: i32, ty: i32) -> (r: World)
        requires
            tx > 0,
            ty > 0,
        ensures
            r.wf(),
            r.is_blank(ox, oy, tx, ty),
    {
        let mut units: Vec<Option<Unit>> = Vec::new();
        let mut unit_types: Vec<Option<UnitType>> = Vec::new();
        while units.len() < N_IDS
            invariant
                units@.len() == unit_types@.len(),
                units@.len() <= N_IDS,
                forall|i: int| 0 <= i < units@.len() ==> units@[i] is None,
                forall|i: int| 0 <= i < unit_types@.len() ==> unit_types@[i] is None,
            decreases N_IDS - units@.len(),
        {
            units.push(None);
            unit_types.push(None);
        }
        World {
            statics: Vec::new(),
            projectiles: Vec::new(),
            unit_types,
            units,
            origin: (ox, oy),
            tile_size: (tx, ty),
            tilemap: TileMap::empty(),
            cam_wx: 0,
            cam_wy: 0,
            coff: (0, 0),
            bgm_id: 0,
        }
    }

    /// Camera position on the screen, in whole pixels.
    pub fn get_cpos(&self) -> (r: (i64, i64))
        requires
            self.wf(),
        ensures
            r.0 == wots_sub_spec(self.origin.0 as int, self.origin.1 as int, self.tile_size.0 as int,
                self.tile_size.1 as int, self.cam_wx as int, self.cam_wy as int).0,
            r.1 == wots_sub_spec(self.origin.0 as int, self.origin.1 as int, self.tile_size.0 as int,
                self.tile_size.1 as int, self.cam_wx as int, self.cam_wy as int).1,
    {
        self.wots_sub(self.cam_wx, self.cam_wy)
    }

    /// Size of a tile as `(width, height)`.
    pub fn get_tile_size(&self) -> (r: (i32, i32))
        ensures
            r == self.tile_size,
    {
        self.tile_size
    }

    /// Place the camera at world position `(x, y)`, in sub-units, clamped to
    /// the world's range.
    pub fn set_cpos(&mut self, x: i64, y: i64)
        requires
            old(self).wf(),
        ensures
            final(self).wf(),
            final(self).cam_wx == clamp_pos(x as int),
            final(self).cam_wy == clamp_pos(y as int),
            final(self).origin == old(self).origin,
            final(self).tilemap == old(self).tilemap,
            final(self).tile_size == old(self).tile_size,
            final(self).coff == old(self).coff,
            final(self).bgm_id == old(self).bgm_id,
            final(self).units@ == old(self).units@,
            final(self).unit_types@ == old(self).unit_types@,
            final(self).projectiles@ == old(self).projectiles@,
            final(self).statics@ == old(self).statics@,
    {
        self.cam_wx = clamp_to_world(x as i128);
        self.cam_wy = clamp_to_world(y as i128);
    }

    /// Move the camera for a frame of `delta` microseconds at four tiles a
    /// second (four sub-units per microsecond) along each direction whose key
    /// is held.
    pub fn pan_camera(&mut self, left: bool, right: bool, up: bool, down: bool, delta: u64)
        requires
            old(self).wf(),
        ensures
            final(self).wf(),
            ({
                let d = delta * 4;
                let x1 = if left { clamp_pos(old(self).cam_wx - d) } else { old(self).cam_wx as int };
                let x2 = if right { clamp_pos(x1 + d) } else { x1 };
                let y1 = if up { clamp_pos(old(self).cam_wy - d) } else { old(self).cam_wy as int };
                let y2 = if down { clamp_pos(y1 + d) } else { y1 };
                final(self).cam_wx == x2 && final(self).cam_wy == y2
            }),
            final(self).units@ == old(self).units@,
            final(self).unit_types@ == old(self).unit_types@,
            final(self).projectiles@ == old(self).projectiles@,
            final(self).statics@ == old(self).statics@,
    {
        let d: i128 = delta as i128 * 4;
        if left {
            self.cam_wx = clamp_to_world(self.cam_wx as i128 - d);
        }
        if right {
            self.cam_wx = clamp_to_world(self.cam_wx as i128 + d);
        }
        if up {
            self.cam_wy = clamp_to_world(self.cam_wy as i128 - d);
        }
        if down {
            self.cam_wy = clamp_to_world(self.cam_wy as i128 + d);
        }
    }

    /// Size of the tile map as `(width, height)`.
    pub fn map_size(&self) -> (r: (usize, usize))
        ensures
            r == (self.tilemap.map_width, self.tilemap.map_height),
    {
        (self.tilemap.map_width, self.tilemap.map_height)
    }

    /// True once tile data has been loaded.
    pub fn show_map(&self) -> (r: bool)
        ensures
            r == self.tilemap.show,
    {
        self.tilemap.show
    }

    /// Set the id of the background music.
    pub fn set_bgm(&mut self, id: u8)
        ensures
            final(self).bgm_id == id,
            final(self).units@ == old(self).units@,
            final(self).unit_types@ == old(self).unit_types@,
            final(self).projectiles@ == old(self).projectiles@,
            final(self).statics@ == old(self).statics@,
            final(self).tile_size == old(self).tile_size,
            final(self).tilemap == old(self).tilemap,
            final(self).cam_wx == old(self).cam_wx,
            final(self).cam_wy == old(self).cam_wy,
    {
        self.bgm_id = id;
    }

    /// Text shown before the game starts.
    pub fn intro_text(&self) -> (r: &str)
        ensures
            r@ == self.tilemap.intro_text@,
    {
        self.tilemap.intro_text.as_str()
    }

    /// Title of the loaded map.
    pub fn map_title(&self) -> (r: &str)
        ensures
            r@ == self.tilemap.title@,
    {
        self.tilemap.title.as_str()
    }

    /// Text shown when the player wins.
    pub fn victory_text(&self) -> (r: &str)
        ensures
            r@ == self.tilemap.victory_text@,
    {
        self.tilemap.victory_text.as_str()
    }

    /// Text shown when the player loses.
    pub fn defeat_text(&self) -> (r: &str)
        ensures
            r@ == self.tilemap.defeat_text@,
    {
        self.tilemap.defeat_text.as_str()
    }

    /// Screen position, in whole pixels, of world position `(x, y)` given in
    /// sub-units.
    pub fn wots_sub(&self, x: i64, y: i64) -> (r: (i64, i64))
        requires
            self.wf(),
            -POS_LIMIT <= x <= POS_LIMIT,
            -POS_LIMIT <= y <= POS_LIMIT,
        ensures
            r.0 == wots_sub_spec(self.origin.0 as int, self.origin.1 as int, self.tile_size.0 as int,
                self.tile_size.1 as int, x as int, y as int).0,
            r.1 == wots_sub_spec(self.origin.0 as int, self.origin.1 as int, self.tile_size.0 as int,
                self.tile_size.1 as int, x as int, y as int).1,
            -6_000_000_000_000_000_000 <= r.0 <= 6_000_000_000_000_000_000,
            -6_000_000_000_000_000_000 <= r.1 <= 6_000_000_000_000_000_000,
    {
        let tw = self.tile_size.0 as i128;
        let th = self.tile_size.1 as i128;
        let dx: i128 = x as i128 - y as i128;
        let dy: i128 = x as i128 + y as i128;
        proof {
            assert(-0x8_0000_0000_0000_0000_0000 <= dx * tw <= 0x8_0000_0000_0000_0000_0000) by (nonlinear_arith)
                requires -0x10_0000_0000_0000int <= dx <= 0x10_0000_0000_0000int, 0 < tw <= 0x8000_0000int;
            assert(-0x8_0000_0000_0000_0000_0000 <= dy * th <= 0x8_0000_0000_0000_0000_0000) by (nonlinear_arith)
                requires -0x10_0000_0000_0000int <= dy <= 0x10_0000_0000_0000int, 0 < th <= 0x8000_0000int;
        }
        let qx = floor_div(dx * tw, 2 * SUB as i128);
        let qy = floor_div(dy * th, 2 * SUB as i128);
        proof {
            crate::fixed::lemma_div_bound(dx * tw, 2 * SUB, 5_000_000_000_000_000_000);
            crate::fixed::lemma_div_bound(dy * th, 2 * SUB, 5_000_000_000_000_000_000);
        }
        ((self.origin.0 as i128 + qx) as i64, (self.origin.1 as i128 + qy) as i64)
    }
}

/// Screen position of the top corner of tile `(xw, yw)`'s box.
pub fn wots(w: &World, xw: i32, yw: i32) -> (r: (i64, i64))
    ensures
        r.0 == wots_spec(w.origin.0 as int, w.origin.1 as int, w.tile_size.0 as int, w.tile_size.1 as int, xw as int, yw as int).0,
        r.1 == wots_spec(w.origin.0 as int, w.origin.1 as int, w.tile_size.0 as int, w.tile_size.1 as int, xw as int, yw as int).1,
        -0x4000_0001_0000_0000 <= r.0 <= 0x4000_0001_0000_0000,
        -0x4000_0001_0000_0000 <= r.1 <= 0x4000_0001_0000_0000,
{
    let dx: i128 = xw as i128 - yw as i128;
    let dy: i128 = xw as i128 + yw as i128;
    let tw = w.tile_size.0 as i128;
    let th = w.tile_size.1 as i128;
    proof {
        assert(-0x8000_0000_0000_0000 <= dx * tw <= 0x8000_0000_0000_0000) by (nonlinear_arith)
            requires -0x1_0000_0000int <= dx <= 0x1_0000_0000int, -0x8000_0000int <= tw <= 0x8000_0000int;
        assert(-0x8000_0000_0000_0000 <= dy * th <= 0x8000_0000_0000_0000) by (nonlinear_arith)
            requires -0x1_0000_0000int <= dy <= 0x1_0000_0000int, -0x8000_0000int <= th <= 0x8000_0000int;
    }
    let qx = trunc_div_exec(dx * tw, 2);
    let qy = trunc_div_exec(dy * th, 2);
    proof {
        crate::fixed::lemma_div_bound(abs(dx * tw), 2, 0x4000_0000_0000_0000);
        crate::fixed::lemma_div_bound(abs(dy * th), 2, 0x4000_0000_0000_0000);
    }
    ((w.origin.0 as i128 + qx) as i64, (w.origin.1 as i128 + qy) as i64)
}

/// The tile under screen point `(x, y)` of world `w`.
pub open spec fn tile_at_spec(w: World, x: i32, y: i32) -> (i32, i32) {
    let t = screen_to_tile(w.tile_size.0 as int, w.tile_size.1 as int, w.cam_wx as int, w.cam_wy as int, x as int, y as int);
    (sat_i32(t.0), sat_i32(t.1))
}

/// The tile under screen point `(x, y)`, given the camera's position.
pub fn tile_at(w: &World, x: i32, y: i32) -> (r: (i32, i32))
    requires
        w.wf(),
    ensures
        r == tile_at_spec(*w, x, y),
{
    let tw = w.tile_size.0 as i128;
    let th = w.tile_size.1 as i128;
    let cx = w.cam_wx as i128;
    let cy = w.cam_wy as i128;
    let k: i128 = 2 * SUB as i128;
    proof {
        assert(-0x10_0000_0000_0000_0000_0000 <= (cx - cy) * tw <= 0x10_0000_0000_0000_0000_0000) by (nonlinear_arith)
            requires -0x10_0000_0000_0000int <= cx - cy <= 0x10_0000_0000_0000int, 0 < tw <= 0x8000_0000int;
        assert(-0x10_0000_0000_0000_0000_0000 <= (cx + cy) * th <= 0x10_0000_0000_0000_0000_0000) by (nonlinear_arith)
            requires -0x10_0000_0000_0000int <= cx + cy <= 0x10_0000_0000_0000int, 0 < th <= 0x8000_0000int;
        assert(0 < k * tw <= 0x1_0000_0000_0000_0000) by (nonlinear_arith)
            requires k == 2_000_000, 0 < tw <= 0x8000_0000int;
        assert(0 < k * th <= 0x1_0000_0000_0000_0000) by (nonlinear_arith)
            requires k == 2_000_000, 0 < th <= 0x8000_0000int;
        assert(0 < SUB * tw * th <= 0x1_0000_0000_0000_0000_0000_0000) by (nonlinear_arith)
            requires SUB == 1_000_000, 0 < tw <= 0x8000_0000int, 0 < th <= 0x8000_0000int;
    }
    let px: i128 = k * x as i128 + (cx - cy) * tw;
    let py: i128 = k * y as i128 + (cx + cy) * th;
    let gx = floor_div(px, k * tw);
    let gy = floor_div(py, k * th);
    proof {
        lemma_floor_rem(px as int, (k * tw) as int);
        lemma_floor_rem(py as int, (k * th) as int);
        crate::fixed::lemma_div_shrinks(px as int, (k * tw) as int);
        crate::fixed::lemma_div_shrinks(py as int, (k * th) as int);
        assert((2 * gx + 1) * SUB * tw == gx * (k * tw) + SUB * tw) by (nonlinear_arith)
            requires k == 2 * SUB;
        assert((2 * gy + 1) * SUB * th == gy * (k * th) + SUB * th) by (nonlinear_arith)
            requires k == 2 * SUB;
    }
    let ix: i128 = (px - gx * (k * tw)) - SUB as i128 * tw;
    let iy: i128 = (py - gy * (k * th)) - SUB as i128 * th;
    let rx: i128 = gx + gy;
    let ry: i128 = gy - gx;
    let ax: i128 = if ix < 0 { -ix } else { ix };
    let ay: i128 = if iy < 0 { -iy } else { iy };
    proof {
        assert(0 <= ax * th <= 0x1_0000_0000_0000_0000_0000_0000) by (nonlinear_arith)
            requires 0 <= ax <= SUB * tw, SUB == 1_000_000, 0 < tw <= 0x8000_0000int, 0 < th <= 0x8000_0000int;
        assert(0 <= ay * tw <= 0x1_0000_0000_0000_0000_0000_0000) by (nonlinear_arith)
            requires 0 <= ay <= SUB * th, SUB == 1_000_000, 0 < tw <= 0x8000_0000int, 0 < th <= 0x8000_0000int;
    }
    let (rx, ry) = if ax * th + ay * tw <= SUB as i128 * tw * th {
        (rx, ry)
    } else if ix > 0 && iy > 0 {
        (rx + 1, ry)
    } else if ix < 0 && iy > 0 {
        (rx, ry + 1)
    } else if ix > 0 && iy < 0 {
        (rx, ry - 1)
    } else {
        (rx - 1, ry)
    };
    (sat_i32_exec(rx), sat_i32_exec(ry))
}

} // verus!

verus! {

/// A fresh standing unit at tile `(x, y)`.
pub open spec fn fresh_unit(tid: u8, x: i32, y: i32, tint: i32, plr: bool, health: i64) -> Unit {
    Unit {
        type_id: tid,
        health,
        state: UnitState::Stand,
        tint,
        wx: (x * SUB) as i64,
        wy: (y * SUB) as i64,
        ftime: 0,
        stime: 0,
        frame: 0,
        busy: false,
        player: plr,
    }
}

impl World {
    /// Everything but the units agrees.
    pub open spec fn same_but_units(&self, o: &World) -> bool {
        &&& self.statics@ == o.statics@
        &&& self.unit_types@ == o.unit_types@
        &&& self.projectiles@ == o.projectiles@
        &&& self.origin == o.origin
        &&& self.tilemap == o.tilemap
        &&& self.tile_size == o.tile_size
        &&& self.cam_wx == o.cam_wx
        &&& self.cam_wy == o.cam_wy
        &&& self.coff == o.coff
        &&& self.bgm_id == o.bgm_id
    }

    /// Every unit id is taken.
    pub open spec fn full(&self) -> bool {
        forall|i: int| 0 <= i < N_IDS ==> #[trigger] self.units@[i] is Some
    }
}

/// Add a static texture at tile `co_ords`; statics are drawn in the order
/// they were created.
pub fn create_static(w: &mut World, tex_id: u8, co_ords: (i32, i32))
    requires
        old(w).wf(),
    ensures
        final(w).wf(),
        final(w).statics@ == old(w).statics@.push(StaticTex { tex_id, wx: co_ords.0, wy: co_ords.1 }),
        final(w).units@ == old(w).units@,
        final(w).unit_types@ == old(w).unit_types@,
        final(w).projectiles@ == old(w).projectiles@,
        final(w).tilemap == old(w).tilemap,
{
    w.statics.push(StaticTex { tex_id, wx: co_ords.0, wy: co_ords.1 });
}

/// Register unit type `u` under `id`, replacing any type registered there.
/// Only registered types can have units; a type must have all its
/// animations to be registered.
pub fn register_unit_type(w: &mut World, u: UnitType, id: u8)
    requires
        old(w).wf(),
        u.complete(),
    ensures
        final(w).wf(),
        final(w).unit_types@ == old(w).unit_types@.update(id as int, Some(u)),
        final(w).units@ == old(w).units@,
        final(w).statics@ == old(w).statics@,
        final(w).projectiles@ == old(w).projectiles@,
        final(w).tilemap == old(w).tilemap,
{
    w.unit_types.set(id as usize, Some(u));
    assert forall|i: int| 0 <= i < N_IDS && #[trigger] w.units@[i] is Some implies
        w.unit_types@[w.units@[i]->0.type_id as int] is Some by {
        assert(old(w).units@[i] is Some);
    }
    assert forall|t: int| 0 <= t < N_IDS && #[trigger] w.unit_types@[t] is Some implies
        w.unit_types@[t]->0.complete() by {
        if t != id as int {
            assert(old(w).unit_types@[t] is Some);
        }
    }
}

/// Number of living units.
fn count_units(w: &World) -> (r: u64)
    requires
        w.wf(),
    ensures
        r <= N_IDS,
{
    let mut n: u64 = 0;
    let mut i: usize = 0;
    while i < N_IDS
        invariant
            w.units@.len() == N_IDS,
            i <= N_IDS,
            n <= i,
        decreases N_IDS - i,
    {
        if w.units[i].is_some() {
            n = n + 1;
        }
        i = i + 1;
    }
    n
}

/// One step of the xorshift sequence over which spawning probes for a free id.
fn xorshift(x: u64) -> u64 {
    let a = x ^ (x << 13u64);
    let b = a ^ (a >> 17u64);
    b ^ (b << 5u64)
}

/// The lowest free unit id, if any.
fn first_free(w: &World) -> (r: Option<u8>)
    requires
        w.wf(),
    ensures
        r matches Some(id) ==> w.units@[id as int] is None,
        r is None ==> w.full(),
{
    let mut i: usize = 0;
    while i < N_IDS
        invariant
            w.units@.len() == N_IDS,
            i <= N_IDS,
            forall|j: int| 0 <= j < i ==> #[trigger] w.units@[j] is Some,
        decreases N_IDS - i,
    {
        if w.units[i].is_none() {
            return Some(i as u8);
        }
        i = i + 1;
    }
    None
}

/// Spawn a unit of type `type_id` at tile `co_ords`, with full health.
/// The id is the first free one along a pseudo-random probe sequence
/// seeded with the number of living units; after 256 probes the lowest free
/// id is taken. Fails when the type is unknown or every id is taken.
pub fn spawn_unit(w: &mut World, type_id: u8, co_ords: (i32, i32), tint: i32, plr: bool) -> (r: Result<u8, SpawnError>)
    requires
        old(w).wf(),
    ensures
        final(w).wf(),
        final(w).same_but_units(old(w)),
        old(w).unit_types@[type_id as int] is None ==> r == Err::<u8, SpawnError>(SpawnError::UnknownUnitType),
        old(w).unit_types@[type_id as int] is Some && old(w).full() ==> r == Err::<u8, SpawnError>(SpawnError::NoFreeId),
        r is Err ==> final(w).units@ == old(w).units@,
        old(w).unit_types@[type_id as int] is Some && !old(w).full() ==> r is Ok,
        r matches Ok(id) ==> {
            &&& old(w).units@[id as int] is None
            &&& final(w).units@ == old(w).units@.update(id as int, Some(fresh_unit(type_id, co_ords.0, co_ords.1,
                tint, plr, old(w).unit_types@[type_id as int]->0.max_health)))
        },
{
    let health = match &w.unit_types[type_id as usize] {
        Some(ut) => ut.max_health,
        None => { return Err(SpawnError::UnknownUnitType); },
    };
    let mut id: u64 = count_units(w);
    let mut f: u8 = 0;
    let mut tries: u32 = 0;
    loop
        invariant
            w.wf(),
            tries <= 256,
        decreases 256 - tries,
    {
        if w.units[f as usize].is_none() || tries >= 256 {
            break;
        }
        id = xorshift(id);
        assert(id & 0xff < 256) by (bit_vector);
        f = (id & 0xff) as u8;
        tries = tries + 1;
    }
    if w.units[f as usize].is_some() {
        match first_free(w) {
            Some(g) => { f = g; },
            None => { return Err(SpawnError::NoFreeId); },
        }
    }
    let u = Unit::new(type_id, tint, co_ords.0 as i64 * SUB, co_ords.1 as i64 * SUB, plr, health);
    proof {
        crate::orders::lemma_scaled_in_world(co_ords.0);
        crate::orders::lemma_scaled_in_world(co_ords.1);
    }
    let ghost old_w = *w;
    w.units.set(f as usize, Some(u));
    assert forall|i: int| 0 <= i < N_IDS && #[trigger] w.units@[i] is Some implies {
        &&& w.units@[i]->0.wf()
        &&& w.unit_types@[w.units@[i]->0.type_id as int] is Some
    } by {
        if i != f as int {
            assert(old_w.units@[i] is Some);
        }
    }
    Ok(f)
}

/// True if a unit lives under `uid`.
pub fn is_uid_valid(w: &World, uid: u8) -> (r: bool)
    requires
        w.wf(),
    ensures
        r == (w.units@[uid as int] is Some),
{
    w.units[uid as usize].is_some()
}

/// Ids of all living units, in increasing order.
pub fn id_list(w: &World) -> (r: Vec<u8>)
    requires
        w.wf(),
    ensures
        forall|id: u8| r@.contains(id) <==> w.units@[id as int] is Some,
        forall|i: int, j: int| 0 <= i < j < r@.len() ==> r@[i] < r@[j],
{
    let mut v: Vec<u8> = Vec::new();
    let mut i: usize = 0;
    while i < N_IDS
        invariant
            w.units@.len() == N_IDS,
            i <= N_IDS,
            forall|id: u8| id < i ==> (v@.contains(id) <==> w.units@[id as int] is Some),
            forall|k: int| 0 <= k < v@.len() ==> v@[k] < i,
            forall|a: int, b: int| 0 <= a < b < v@.len() ==> v@[a] < v@[b],
        decreases N_IDS - i,
    {
        let ghost before = v@;
        if w.units[i].is_some() {
            v.push(i as u8);
            assert forall|id: u8| id < i + 1 implies (v@.contains(id) <==> w.units@[id as int] is Some) by {
                if id == i as u8 {
                    assert(v@[v@.len() - 1] == id);
                } else if v@.contains(id) {
                    let k = choose|k: int| 0 <= k < v@.len() && v@[k] == id;
                    assert(k < before.len());
                    assert(before.contains(id));
                } else {
                    assert(!before.contains(id)) by {
                        if before.contains(id) {
                            let k = choose|k: int| 0 <= k < before.len() && before[k] == id;
                            assert(v@[k] == id);
                        }
                    }
                }
            }
        } else {
            assert forall|id: u8| id < i + 1 implies (v@.contains(id) <==> w.units@[id as int] is Some) by {
                if id == i as u8 {
                    assert(!v@.contains(id)) by {
                        if v@.contains(id) {
                            let k = choose|k: int| 0 <= k < v@.len() && v@[k] == id;
                        }
                    }
                }
            }
        }
        i = i + 1;
    }
    v
}

/// Classification of the tile at `(x, y)`.
pub fn tile_type_at(w: &World, x: i32, y: i32) -> (r: TileType)
    requires
        w.wf(),
    ensures
        r == w.tilemap.type_at(x as int, y as int),
{
    w.tilemap.tile_type_at(x, y)
}

/// True if the unit `uid` lives and is the player's.
pub fn is_unit_player_controlled(w: &World, uid: u8) -> (r: bool)
    requires
        w.wf(),
    ensures
        r == (w.units@[uid as int] matches Some(u) && u.player),
{
    match &w.units[uid as usize] {
        Some(u) => u.player,
        None => false,
    }
}

/// Put the unit `uid` into state `us`; nothing happens if it does not live.
pub fn set_unit_state(w: &mut World, uid: u8, us: UnitState)
    requires
        old(w).wf(),
    ensures
        final(w).wf(),
        final(w).same_but_units(old(w)),
        final(w).units@ == (match old(w).units@[uid as int] {
            Some(u) => old(w).units@.update(uid as int, Some(with_state(u, us))),
            None => old(w).units@,
        }),
{
    let ghost old_w = *w;
    if let Some(u) = &w.units[uid as usize] {
        let mut u2 = *u;
        u2.set_state(us);
        w.units.set(uid as usize, Some(u2));
        assert forall|i: int| 0 <= i < N_IDS && #[trigger] w.units@[i] is Some implies {
            &&& w.units@[i]->0.wf()
            &&& w.unit_types@[w.units@[i]->0.type_id as int] is Some
        } by {
            assert(old_w.units@[i] is Some);
        }
    }
}

/// Movement points, range, display name and owner of the unit `uid`.
pub fn unit_summary(w: &World, uid: u8) -> (r: Option<(u8, u8, String, bool)>)
    requires
        w.wf(),
    ensures
        w.units@[uid as int] is None ==> r is None,
        w.units@[uid as int] matches Some(u) ==> r matches Some(t) && {
            let ut = w.unit_types@[u.type_id as int]->0;
            &&& t.0 == ut.movement
            &&& t.1 == ut.range
            &&& t.2@ == ut.name@
            &&& t.3 == u.player
        },
{
    match &w.units[uid as usize] {
        None => None,
        Some(u) => {
            assert(w.units@[uid as int] is Some);
            match &w.unit_types[u.type_id as usize] {
                Some(ut) => Some((ut.movement, ut.range, ut.name.clone(), u.player)),
                None => None,
            }
        },
    }
}

/// Health and maximum health of the unit `uid`.
pub fn unit_health(w: &World, uid: u8) -> (r: Option<(i64, i64)>)
    requires
        w.wf(),
    ensures
        w.units@[uid as int] is None ==> r is None,
        w.units@[uid as int] matches Some(u) ==> r == Some((u.health,
            w.unit_types@[u.type_id as int]->0.max_health)),
{
    match &w.units[uid as usize] {
        None => None,
        Some(u) => {
            assert(w.units@[uid as int] is Some);
            match &w.unit_types[u.type_id as usize] {
                Some(ut) => Some((u.health, ut.max_health)),
                None => None,
            }
        },
    }
}

/// Information text of the type of the unit `uid`.
pub fn unit_info(w: &World, uid: u8) -> (r: Option<String>)
    requires
        w.wf(),
    ensures
        w.units@[uid as int] is None ==> r is None,
        w.units@[uid as int] matches Some(u) ==> match w.unit_types@[u.type_id as int]->0.info {
            Some(s) => r matches Some(t) && t@ == s@,
            None => r is None,
        },
{
    match &w.units[uid as usize] {
        None => None,
        Some(u) => {
            assert(w.units@[uid as int] is Some);
            match &w.unit_types[u.type_id as usize] {
                Some(ut) => match &ut.info {
                    Some(s) => Some(s.clone()),
                    None => None,
                },
                None => None,
            }
        },
    }
}

/// Type id of the unit `uid`.
pub fn get_type_id(w: &World, uid: u8) -> (r: Option<u8>)
    requires
        w.wf(),
    ensures
        r == (match w.units@[uid as int] {
            Some(u) => Some(u.type_id),
            None => None::<u8>,
        }),
{
    match &w.units[uid as usize] {
        None => None,
        Some(u) => Some(u.type_id),
    }
}

impl StaticTex {
    /// Texture id and screen position of the static.
    pub fn prep_draw(&self, w: &World) -> (r: (u8, i64, i64))
        ensures
            r.0 == self.tex_id,
            r.1 == wots_spec(w.origin.0 as int, w.origin.1 as int, w.tile_size.0 as int, w.tile_size.1 as int,
                self.wx as int, self.wy as int).0,
            r.2 == wots_spec(w.origin.0 as int, w.origin.1 as int, w.tile_size.0 as int, w.tile_size.1 as int,
                self.wx as int, self.wy as int).1,
    {
        let (x, y) = wots(w, self.wx, self.wy);
        (self.tex_id, x, y)
    }
}

} // verus!
