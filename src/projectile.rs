//! Projectiles that fly along a quadratic Bezier arc from an attacker's tile
//! to its target.

use vstd::prelude::*;
use crate::fixed::{SUB, POS_LIMIT, MICROS, abs, floor_div, lemma_div_shrinks};

verus! {

/// Distance from the target, in sub-units, at which a projectile has arrived.
pub const EPS: i64 = 100_000;

/// Largest magnitude of a point on a projectile's path.
pub const PATH_LIMIT: i64 = 4 * POS_LIMIT;

/// Projectile speed, in sub-units per second.
pub const PROJ_SPEED: u64 = 4_000_000;

/// Length of the line drawn for a projectile, in sub-units.
pub const PROJ_LEN: i64 = 500_000;

/// A projectile in flight.
#[derive(Clone, Copy, Debug)]
pub struct Projectile {
    pub target: (i64, i64),
    /// Control point of the arc: one tile up and left of the source.
    pub ctrlpt: (i64, i64),
    /// Direction of travel (not normalised).
    pub velocity: (i64, i64),
    pub position: (i64, i64),
    pub source: (i64, i64),
    /// Length of the drawn line, in sub-units.
    pub length: i64,
    /// Microseconds since launch.
    pub lifetime: u64,
    /// Microseconds the flight takes.
    pub expected: u64,
    pub reached: bool,
}

pub open spec fn in_world(p: (i64, i64)) -> bool {
    -POS_LIMIT <= p.0 <= POS_LIMIT && -POS_LIMIT <= p.1 <= POS_LIMIT
}

pub open spec fn on_path(p: (i64, i64)) -> bool {
    -PATH_LIMIT <= p.0 <= PATH_LIMIT && -PATH_LIMIT <= p.1 <= PATH_LIMIT
}

pub open spec fn clamp_path(v: int) -> int {
    if v > PATH_LIMIT {
        PATH_LIMIT as int
    } else if v < -PATH_LIMIT {
        -PATH_LIMIT
    } else {
        v
    }
}

/// `a + b * l / e`, rounded down and kept on the path.
pub open spec fn lerp(a: int, b: int, l: int, e: int) -> int {
    clamp_path(a + (b - a) * l / e)
}

/// Point of the arc from `s` over `c` to `t` at parameter `l / e`.
pub open spec fn bezier(s: int, c: int, t: int, l: int, e: int) -> int {
    lerp(lerp(s, c, l, e), lerp(c, t, l, e), l, e)
}

/// Tangent of the arc at parameter `l / e` (its direction only).
pub open spec fn bezier_tangent(s: int, c: int, t: int, l: int, e: int) -> int {
    clamp_path(((c - s) * (e - l) + (t - c) * l) / e)
}

/// True when `p` is within `EPS` of `t` on both axes.
pub open spec fn arrived(p: (i64, i64), t: (i64, i64)) -> bool {
    abs(p.0 - t.0) < EPS && abs(p.1 - t.1) < EPS
}

/// What one frame of `delta` microseconds does to a projectile: one that
/// has arrived is marked so; any other runs its clock and moves along its
/// arc, never past the arc's end.
pub open spec fn proj_step(p: Projectile, delta: u64) -> Projectile {
    if arrived(p.position, p.target) {
        Projectile { reached: true, ..p }
    } else {
        let life = if p.lifetime + delta > u64::MAX { u64::MAX } else { (p.lifetime + delta) as u64 };
        let l: int = if life < p.expected { life as int } else { p.expected as int };
        let e: int = p.expected as int;
        if e == 0 {
            Projectile { lifetime: life, position: p.target, ..p }
        } else {
            Projectile {
                lifetime: life,
                position: (
                    bezier(p.source.0 as int, p.ctrlpt.0 as int, p.target.0 as int, l, e) as i64,
                    bezier(p.source.1 as int, p.ctrlpt.1 as int, p.target.1 as int, l, e) as i64,
                ),
                velocity: (
                    bezier_tangent(p.source.0 as int, p.ctrlpt.0 as int, p.target.0 as int, l, e) as i64,
                    bezier_tangent(p.source.1 as int, p.ctrlpt.1 as int, p.target.1 as int, l, e) as i64,
                ),
                ..p
            }
        }
    }
}

pub open spec fn min_int(a: int, b: int) -> int {
    if a < b {
        a
    } else {
        b
    }
}

/// The projectile after `k` frames of `delta` microseconds each.
pub open spec fn proj_run(p: Projectile, delta: u64, k: nat) -> Projectile
    decreases k,
{
    if k == 0 {
        p
    } else {
        proj_step(proj_run(p, delta, (k - 1) as nat), delta)
    }
}

/// A frame keeps a projectile well formed, aimed at the same target and due
/// at the same time.
proof fn lemma_step_keeps(p: Projectile, delta: u64)
    requires
        p.wf(),
    ensures
        proj_step(p, delta).wf(),
        proj_step(p, delta).target == p.target,
        proj_step(p, delta).expected == p.expected,
{
}

/// Over frames of `delta` microseconds, a launched projectile either has
/// arrived and been marked so, or its clock shows the time flown.
proof fn lemma_run_clock(p: Projectile, delta: u64, j: nat)
    requires
        p.wf(),
        p.lifetime == 0,
    ensures
        proj_run(p, delta, j).wf(),
        proj_run(p, delta, j).target == p.target,
        proj_run(p, delta, j).expected == p.expected,
        (proj_run(p, delta, j).reached && arrived(proj_run(p, delta, j).position, p.target))
            || proj_run(p, delta, j).lifetime == min_int(j * delta, u64::MAX as int),
    decreases j,
{
    if j > 0 {
        let jm = (j - 1) as nat;
        lemma_run_clock(p, delta, jm);
        let q = proj_run(p, delta, jm);
        lemma_step_keeps(q, delta);
        assert(jm * delta + delta == j * delta) by (nonlinear_arith)
            requires jm + 1 == j;
    }
}

/// A launched projectile, moved in frames of `delta` microseconds, stands
/// within `EPS` of its target after the first frame at which the flown time
/// reaches its expected flight time, and is marked as arrived one frame
/// later; it never flies past that.
pub proof fn lemma_projectile_flight(p: Projectile, delta: u64, k: nat)
    requires
        p.wf(),
        p.lifetime == 0,
        k >= 1,
        k * delta >= p.expected,
    ensures
        arrived(proj_run(p, delta, k).position, p.target),
        proj_run(p, delta, k + 1).reached,
{
    let km = (k - 1) as nat;
    lemma_run_clock(p, delta, km);
    let q = proj_run(p, delta, km);
    assert(proj_run(p, delta, k) == proj_step(q, delta));
    assert(proj_run(p, delta, k + 1) == proj_step(proj_step(q, delta), delta));
    if q.reached && arrived(q.position, p.target) {
        assert(proj_step(q, delta).position == q.position);
    } else {
        assert(km * delta + delta == k * delta) by (nonlinear_arith)
            requires km + 1 == k;
        lemma_projectile_arrives(q, delta, delta);
    }
}

/// `r` is the largest integer whose square is at most `n`.
pub open spec fn is_isqrt(n: int, r: int) -> bool {
    r >= 0 && r * r <= n && n < (r + 1) * (r + 1)
}

/// There is one integer square root.
pub proof fn lemma_isqrt_unique(n: int, a: int, b: int)
    requires
        is_isqrt(n, a),
        is_isqrt(n, b),
    ensures
        a == b,
{
    if a < b {
        assert((a + 1) * (a + 1) <= b * b) by (nonlinear_arith)
            requires 0 <= a + 1 <= b;
    } else if b < a {
        assert((b + 1) * (b + 1) <= a * a) by (nonlinear_arith)
            requires 0 <= b + 1 <= a;
    }
}

/// At the end of its parameter range a segment ends on its second point.
proof fn lemma_lerp_end(a: int, b: int, e: int)
    requires
        e > 0,
        -PATH_LIMIT <= b <= PATH_LIMIT,
    ensures
        lerp(a, b, e, e) == b,
{
    assert((b - a) * e == e * (b - a)) by (nonlinear_arith);
    vstd::arithmetic::div_mod::lemma_fundamental_div_mod_converse((b - a) * e, e, b - a, 0);
    assert((b - a) * e / e == b - a);
}

/// A projectile whose clock reaches its expected flight time within a frame
/// stands within `EPS` of its target after that frame, and is marked as
/// arrived by the frame after it.
pub proof fn lemma_projectile_arrives(p: Projectile, d1: u64, d2: u64)
    requires
        p.wf(),
        p.lifetime + d1 >= p.expected,
    ensures
        arrived(proj_step(p, d1).position, p.target),
        proj_step(p, d1).target == p.target,
        proj_step(proj_step(p, d1), d2).reached,
{
    if !arrived(p.position, p.target) {
        let e = p.expected as int;
        if e != 0 {
            lemma_lerp_end(p.source.0 as int, p.ctrlpt.0 as int, e);
            lemma_lerp_end(p.ctrlpt.0 as int, p.target.0 as int, e);
            lemma_lerp_end(p.ctrlpt.0 as int, p.target.0 as int, e);
            lemma_lerp_end(p.source.1 as int, p.ctrlpt.1 as int, e);
            lemma_lerp_end(p.ctrlpt.1 as int, p.target.1 as int, e);
            assert(bezier(p.source.0 as int, p.ctrlpt.0 as int, p.target.0 as int, e, e) == p.target.0);
            assert(bezier(p.source.1 as int, p.ctrlpt.1 as int, p.target.1 as int, e, e) == p.target.1);
        }
        assert(proj_step(p, d1).position == p.target);
    }
}

/// Length of vector `(vx, vy)`, rounded down.
pub open spec fn norm(vx: int, vy: int) -> int {
    choose|r: int| #[trigger] is_isqrt(vx * vx + vy * vy, r)
}

/// A coordinate never exceeds the rounded-down length of its vector.
proof fn lemma_component_le_norm(a: int, b: int, n: int)
    requires
        is_isqrt(a * a + b * b, n),
    ensures
        -n <= a <= n,
{
    assert(a * a <= a * a + b * b) by (nonlinear_arith);
    let m = abs(a);
    assert(m * m == a * a) by (nonlinear_arith)
        requires m == abs(a);
    if m > n {
        assert(m * m >= (n + 1) * (n + 1)) by (nonlinear_arith)
            requires m >= n + 1, n >= 0;
    }
}

/// The projectile `Projectile::new` launches: at the source, its clock at
/// zero, aimed at the target with a velocity of `speed` sub-units per second
/// (rounded down; none when source and target coincide), and due after the
/// distance over the speed, in microseconds.
pub open spec fn launched(target: (i64, i64), source: (i64, i64), speed: u64, len: i64) -> Projectile {
    let dx = target.0 - source.0;
    let dy = target.1 - source.1;
    let n = norm(dx, dy);
    Projectile {
        target,
        source,
        position: source,
        ctrlpt: ((source.0 - SUB) as i64, (source.1 - SUB) as i64),
        velocity: (
            (if n == 0 { 0 } else { dx * speed / n }) as i64,
            (if n == 0 { 0 } else { dy * speed / n }) as i64,
        ),
        length: len,
        lifetime: 0,
        expected: min_int(n * MICROS / speed as int, u64::MAX as int) as u64,
        reached: false,
    }
}

/// Largest `r` with `r * r <= n`.
pub fn isqrt(n: u128) -> (r: u64)
    ensures
        is_isqrt(n as int, r as int),
{
    let mut lo: u128 = 0;
    let mut hi: u128 = 0x1_0000_0000_0000_0000;
    assert(n < hi * hi) by (nonlinear_arith)
        requires hi == 0x1_0000_0000_0000_0000u128, n <= u128::MAX;
    while hi - lo > 1
        invariant
            lo < hi <= 0x1_0000_0000_0000_0000,
            lo * lo <= n,
            n < hi * hi,
        decreases hi - lo,
    {
        let mid = lo + (hi - lo) / 2;
        assert(mid * mid < 0x1_0000_0000_0000_0000 * 0x1_0000_0000_0000_0000) by (nonlinear_arith)
            requires mid < 0x1_0000_0000_0000_0000int, mid >= 0;
        if mid * mid <= n {
            lo = mid;
        } else {
            hi = mid;
        }
    }
    assert(hi == lo + 1);
    assert(lo < 0x1_0000_0000_0000_0000);
    lo as u64
}

/// `a + (b - a) * l / e` rounded down, on the path.
fn lerp_exec(a: i64, b: i64, l: u64, e: u64) -> (r: i64)
    requires
        -PATH_LIMIT <= a <= PATH_LIMIT,
        -PATH_LIMIT <= b <= PATH_LIMIT,
        0 <= l <= e,
        e > 0,
    ensures
        r == lerp(a as int, b as int, l as int, e as int),
        -PATH_LIMIT <= r <= PATH_LIMIT,
{
    let d: i128 = b as i128 - a as i128;
    proof {
        assert(-0x100_0000_0000_0000_0000_0000_0000_0000 <= d * l <= 0x100_0000_0000_0000_0000_0000_0000_0000) by (nonlinear_arith)
            requires -0x40_0000_0000_0000int <= d <= 0x40_0000_0000_0000int, 0 <= l <= u64::MAX;
    }
    let q = floor_div(d * (l as i128), e as i128);
    proof {
        lemma_div_shrinks(d * l, e as int);
    }
    let v: i128 = a as i128 + q;
    if v > PATH_LIMIT as i128 {
        PATH_LIMIT
    } else if v < -(PATH_LIMIT as i128) {
        -PATH_LIMIT
    } else {
        v as i64
    }
}

impl Projectile {
    /// A projectile from `source` to `target`, flying at `speed` sub-units
    /// per second; `len` is the length of its drawn line.
    pub fn new(target: (i64, i64), source: (i64, i64), speed: u64, len: i64) -> (r: Projectile)
        requires
            in_world(target),
            in_world(source),
            0 < speed <= PATH_LIMIT,
        ensures
            r.wf(),
            r == launched(target, source, speed, len),
            source == target ==> r.expected == 0,
    {
        let dx: i128 = target.0 as i128 - source.0 as i128;
        let dy: i128 = target.1 as i128 - source.1 as i128;
        proof {
            assert(0 <= dx * dx <= 0x100_0000_0000_0000_0000_0000_0000) by (nonlinear_arith)
                requires -0x10_0000_0000_0000int <= dx <= 0x10_0000_0000_0000int;
            assert(0 <= dy * dy <= 0x100_0000_0000_0000_0000_0000_0000) by (nonlinear_arith)
                requires -0x10_0000_0000_0000int <= dy <= 0x10_0000_0000_0000int;
        }
        let sq: u128 = (dx * dx + dy * dy) as u128;
        let dist = isqrt(sq);
        proof {
            if dist as int >= 0x20_0000_0000_0000 {
                assert(dist as int * dist as int >= 0x20_0000_0000_0000 * 0x20_0000_0000_0000) by (nonlinear_arith)
                    requires dist as int >= 0x20_0000_0000_0000int;
            }
            assert(dist < 0x20_0000_0000_0000);
            if sq == 0 {
                if dist > 0 {
                    assert(dist as int * dist as int >= 1) by (nonlinear_arith)
                        requires dist > 0;
                }
                assert(dist == 0);
            }
            if source == target {
                assert(dx * dx + dy * dy == 0) by (nonlinear_arith)
                    requires dx == 0, dy == 0;
                assert(sq == 0);
            }
            let dd = dx * dx + dy * dy;
            assert(is_isqrt(dd, dist as int));
            let c = choose|r: int| #[trigger] is_isqrt(dd, r);
            lemma_isqrt_unique(dd, c, dist as int);
            lemma_component_le_norm(dx as int, dy as int, dist as int);
            lemma_component_le_norm(dy as int, dx as int, dist as int);
            assert(dy * dy + dx * dx == dd);
        }
        let flight: u128 = (dist as u128) * (MICROS as u128) / (speed as u128);
        let expected: u64 = if flight > u64::MAX as u128 { u64::MAX } else { flight as u64 };
        let (vx, vy) = if dist == 0 {
            (0i64, 0i64)
        } else {
            let sp = speed as i128;
            let n = dist as i128;
            proof {
                assert(-(sp * n) <= dx * sp <= sp * n) by (nonlinear_arith)
                    requires -n <= dx <= n, sp > 0;
                assert(-(sp * n) <= dy * sp <= sp * n) by (nonlinear_arith)
                    requires -n <= dy <= n, sp > 0;
                assert(sp * n <= 0x20_0000_0000_0000 * 0x20_0000_0000_0000) by (nonlinear_arith)
                    requires 0 < sp <= 0x20_0000_0000_0000int, 0 <= n <= 0x20_0000_0000_0000int;
                crate::fixed::lemma_div_bound(dx * sp, n as int, sp as int);
                crate::fixed::lemma_div_bound(dy * sp, n as int, sp as int);
                assert(sp * n == n * sp) by (nonlinear_arith);
            }
            (floor_div(dx * sp, n) as i64, floor_div(dy * sp, n) as i64)
        };
        Projectile {
            target,
            velocity: (vx, vy),
            position: source,
            source,
            ctrlpt: (source.0 - SUB, source.1 - SUB),
            length: len,
            lifetime: 0,
            expected,
            reached: false,
        }
    }

    /// All points lie in their ranges.
    pub open spec fn wf(&self) -> bool {
        &&& in_world(self.target)
        &&& in_world(self.source)
        &&& self.ctrlpt.0 == self.source.0 - SUB && self.ctrlpt.1 == self.source.1 - SUB
        &&& on_path(self.position)
        &&& on_path(self.velocity)
    }

    /// Advance the projectile by one frame of `delta` microseconds.
    pub fn update(&mut self, delta: u64)
        requires
            old(self).wf(),
        ensures
            *final(self) == proj_step(*old(self), delta),
            final(self).wf(),
    {
        let ex: i128 = self.position.0 as i128 - self.target.0 as i128;
        let ey: i128 = self.position.1 as i128 - self.target.1 as i128;
        let ax: i128 = if ex < 0 { -ex } else { ex };
        let ay: i128 = if ey < 0 { -ey } else { ey };
        if ax < EPS as i128 && ay < EPS as i128 {
            self.reached = true;
            return;
        }
        self.lifetime = self.lifetime.saturating_add(delta);
        let e = self.expected;
        let l = if self.lifetime < e { self.lifetime } else { e };
        if e == 0 {
            self.position = self.target;
            return;
        }
        let px = self.bezier_pos(self.source.0, self.ctrlpt.0, self.target.0, l, e);
        let py = self.bezier_pos(self.source.1, self.ctrlpt.1, self.target.1, l, e);
        let vx = self.bezier_vel(self.source.0, self.ctrlpt.0, self.target.0, l, e);
        let vy = self.bezier_vel(self.source.1, self.ctrlpt.1, self.target.1, l, e);
        self.position = (px, py);
        self.velocity = (vx, vy);
    }

    fn bezier_pos(&self, s: i64, c: i64, t: i64, l: u64, e: u64) -> (r: i64)
        requires
            -PATH_LIMIT <= s <= PATH_LIMIT,
            -PATH_LIMIT <= c <= PATH_LIMIT,
            -PATH_LIMIT <= t <= PATH_LIMIT,
            0 <= l <= e,
            e > 0,
        ensures
            r == bezier(s as int, c as int, t as int, l as int, e as int),
            -PATH_LIMIT <= r <= PATH_LIMIT,
    {
        let p1 = lerp_exec(s, c, l, e);
        let p2 = lerp_exec(c, t, l, e);
        lerp_exec(p1, p2, l, e)
    }

    fn bezier_vel(&self, s: i64, c: i64, t: i64, l: u64, e: u64) -> (r: i64)
        requires
            -PATH_LIMIT <= s <= PATH_LIMIT,
            -PATH_LIMIT <= c <= PATH_LIMIT,
            -PATH_LIMIT <= t <= PATH_LIMIT,
            0 <= l <= e,
            e > 0,
        ensures
            r == bezier_tangent(s as int, c as int, t as int, l as int, e as int),
            -PATH_LIMIT <= r <= PATH_LIMIT,
    {
        let a: i128 = c as i128 - s as i128;
        let b: i128 = t as i128 - c as i128;
        let rest: i128 = (e - l) as i128;
        proof {
            assert(-0x100_0000_0000_0000_0000_0000_0000_0000 <= a * rest <= 0x100_0000_0000_0000_0000_0000_0000_0000) by (nonlinear_arith)
                requires -0x40_0000_0000_0000int <= a <= 0x40_0000_0000_0000int, 0 <= rest <= u64::MAX;
            assert(-0x100_0000_0000_0000_0000_0000_0000_0000 <= b * l <= 0x100_0000_0000_0000_0000_0000_0000_0000) by (nonlinear_arith)
                requires -0x40_0000_0000_0000int <= b <= 0x40_0000_0000_0000int, 0 <= l <= u64::MAX;
        }
        let q = floor_div(a * rest + b * (l as i128), e as i128);
        proof {
            lemma_div_shrinks(a * rest + b * l, e as int);
        }
        if q > PATH_LIMIT as i128 {
            PATH_LIMIT
        } else if q < -(PATH_LIMIT as i128) {
            -PATH_LIMIT
        } else {
            q as i64
        }
    }
}

} // verus!
