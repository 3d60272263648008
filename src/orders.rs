//! Orders and the predicate that drives each of them to completion, one
//! poll per frame.

use vstd::prelude::*;
use crate::fixed::{SUB, POS_LIMIT, abs, tile_of};
use crate::entity::{Unit, UnitState, with_state, walk_dir, attack_dir};
use crate::projectile::{Projectile, PROJ_SPEED, PROJ_LEN, launched};
use crate::world::{World, N_IDS};

verus! {

/// Distance from its target tile, in sub-units on each axis, at which a
/// walking unit has arrived (a twentieth of a tile).
pub const ARRIVE: i64 = 50_000;

/// Phase that a victory order asks for.
pub const PHASE_VICTORY: u8 = 5;

/// Phase that a defeat order asks for.
pub const PHASE_DEFEAT: u8 = 6;

/// Something a unit, or the game, is told to do.
#[derive(Clone, Copy, Debug, PartialEq, Eq, Structural)]
pub enum Order {
    /// Move the unit to an adjacent tile.
    MOVE(u8, i32, i32),
    /// Make the first unit attack the second from the given tile.
    ATTACK(u8, u8, i32, i32),
    /// Declare the player's victory.
    VICTORY,
    /// Change a unit's health relative to its maximum health; the fraction
    /// is in thousandths.
    MutHealthR(u8, i32),
    /// Change a unit's health by a number of thousandths of a hit point.
    MutHealthA(u8, i64),
    /// Declare the player's defeat.
    DEFEAT,
}

/// A tile coordinate scaled to sub-units lies on that tile.
pub proof fn lemma_tile_of_scaled(t: int)
    ensures
        tile_of(t * SUB) == t,
{
    if t >= 0 {
        vstd::arithmetic::div_mod::lemma_fundamental_div_mod_converse(t * SUB, SUB as int, t, 0);
    } else {
        vstd::arithmetic::div_mod::lemma_fundamental_div_mod_converse(-(t * SUB), SUB as int, -t, 0);
    }
}

/// A tile coordinate scaled to sub-units lies in the world's range.
pub proof fn lemma_scaled_in_world(t: i32)
    ensures
        -POS_LIMIT <= t * SUB <= POS_LIMIT,
{
    assert(-POS_LIMIT <= t * SUB <= POS_LIMIT) by (nonlinear_arith)
        requires -0x8000_0000int <= t < 0x8000_0000int, SUB == 1_000_000, POS_LIMIT == 2_147_483_648_000_000int;
}

/// Polling a move order again after it has completed leaves its unit on the
/// target: the first poll finds no step to take and only stands the unit,
/// a frame of any length leaves a standing unit in place, and the next poll
/// completes the order once more on the same spot.
pub proof fn lemma_completed_move_stays(u: Unit, ut: crate::entity::UnitType, delta: u64, tx: i32, ty: i32)
    requires
        !u.busy,
        u.wx == tx * SUB,
        u.wy == ty * SUB,
    ensures
        ({
            let p1 = poll_move(u, tx, ty);
            let s = crate::entity::unit_step(p1.0, ut, delta);
            let p2 = poll_move(s, tx, ty);
            &&& p1.1
            &&& p1.0.state == UnitState::Stand
            &&& p1.0.wx == u.wx && p1.0.wy == u.wy
            &&& s.wx == u.wx && s.wy == u.wy
            &&& !p2.1
            &&& !p2.0.busy
            &&& p2.0.state == UnitState::Stand
            &&& p2.0.wx == u.wx && p2.0.wy == u.wy
        }),
{
    lemma_tile_of_scaled(tx as int);
    lemma_tile_of_scaled(ty as int);
}

/// `v` saturated into the range of `i64`.
pub open spec fn sat_i64(v: int) -> i64 {
    if v > i64::MAX {
        i64::MAX
    } else if v < i64::MIN {
        i64::MIN
    } else {
        v as i64
    }
}

fn sat_i64_exec(v: i128) -> (r: i64)
    ensures
        r == sat_i64(v as int),
{
    if v > i64::MAX as i128 {
        i64::MAX
    } else if v < i64::MIN as i128 {
        i64::MIN
    } else {
        v as i64
    }
}

/// What one poll of a move order to `(tx, ty)` does to its unit, and
/// whether the order is still pending. An idle unit starts walking (or
/// stands, when the target is not one step away); a walking unit that has
/// come within `ARRIVE` of the target on both axes is put on it exactly and
/// stands again, which completes the order.
pub open spec fn poll_move(u: Unit, tx: i32, ty: i32) -> (Unit, bool) {
    if u.busy {
        if abs(u.wx - tx * SUB) <= ARRIVE && abs(u.wy - ty * SUB) <= ARRIVE {
            (Unit { wx: (tx * SUB) as i64, wy: (ty * SUB) as i64, busy: false, ..with_state(u, UnitState::Stand) }, false)
        } else {
            (u, true)
        }
    } else {
        (Unit { busy: true, ..with_state(u, walk_dir(tile_of(u.wx as int), tile_of(u.wy as int), tx as int, ty as int)) },
            true)
    }
}

/// An attacker at rest facing its target and starting the attack.
pub open spec fn attack_start(u: Unit, t: Unit) -> Unit {
    Unit { busy: true, ..with_state(u, attack_dir(tile_of(u.wx - t.wx), tile_of(u.wy - t.wy))) }
}

/// The attack has run its course: the attacker stands exactly on the tile
/// it attacks from, and has been attacking for the type's attack duration.
pub open spec fn attack_done(u: Unit, attack_dur: u64, ox: i32, oy: i32) -> bool {
    u.wx == ox * SUB && u.wy == oy * SUB && u.stime >= attack_dur
}

/// A target more than one tile from the attacking tile is shot at.
pub open spec fn needs_projectile(t: Unit, ox: i32, oy: i32) -> bool {
    abs(tile_of(t.wx as int) - ox) + abs(tile_of(t.wy as int) - oy) > 1
}

/// Health change of a relative health order: the fraction times the maximum
/// times the fraction again, fractions in thousandths, rounded towards zero.
pub open spec fn relative_delta(frac: i32, max_health: i64) -> int {
    crate::fixed::trunc_div(frac * max_health * frac, 1_000_000)
}

/// The worlds agree but on units and projectiles.
pub open spec fn same_frame(a: World, b: World) -> bool {
    &&& a.statics@ == b.statics@
    &&& a.unit_types@ == b.unit_types@
    &&& a.origin == b.origin
    &&& a.tilemap == b.tilemap
    &&& a.tile_size == b.tile_size
    &&& a.cam_wx == b.cam_wx
    &&& a.cam_wy == b.cam_wy
    &&& a.coff == b.coff
    &&& a.bgm_id == b.bgm_id
}

/// One poll of an attack order by `id` on `tid` from tile `(ox, oy)`, from
/// world `w` to world `w2`, with result `r`. Orders naming a unit that does
/// not live complete at once and change nothing. An attacker at rest faces
/// its target and starts the attack, launching a projectile when the target
/// stands more than one tile from the attacking tile. An attacker whose
/// attack has run its course stands again, and the defender loses what
/// `dmg` gives for the two types; otherwise nothing changes.
pub open spec fn attack_step<D: Fn(u8, u8) -> i64>(dmg: D, w: World, w2: World, id: u8, tid: u8, ox: i32, oy: i32, r: bool) -> bool {
    if w.units@[id as int] is None || w.units@[tid as int] is None {
        !r && w2.units@ == w.units@ && w2.projectiles@ == w.projectiles@
    } else {
        let u = w.units@[id as int]->0;
        let t = w.units@[tid as int]->0;
        let dur = w.unit_types@[u.type_id as int]->0.attack_dur;
        if !u.busy {
            &&& r
            &&& w2.units@ == w.units@.update(id as int, Some(attack_start(u, t)))
            &&& w2.projectiles@ == if needs_projectile(t, ox, oy) {
                w.projectiles@.push(launched((t.wx, t.wy), ((ox * SUB) as i64, (oy * SUB) as i64), PROJ_SPEED, PROJ_LEN))
            } else {
                w.projectiles@
            }
        } else if attack_done(u, dur, ox, oy) {
            let mid = w.units@.update(id as int, Some(Unit { busy: false, ..with_state(u, UnitState::Stand) }));
            let d = mid[tid as int]->0;
            &&& !r
            &&& w2.projectiles@ == w.projectiles@
            &&& exists|dm: i64| #[trigger] dmg.ensures((u.type_id, d.type_id), dm)
                && w2.units@ == mid.update(tid as int, Some(Unit { health: sat_i64(d.health - dm), ..d }))
        } else {
            r && w2.units@ == w.units@ && w2.projectiles@ == w.projectiles@
        }
    }
}

/// One poll of order `o`, from world `w` and requested phase `ns` to world
/// `w2` and requested phase `ns2`, with result `r` (the order is still
/// pending). Victory and defeat orders request their phase; health orders
/// apply at once; moves follow `poll_move`; attacks follow `attack_step`.
/// Only units and projectiles change, and no unit is born or removed.
pub open spec fn order_step<D: Fn(u8, u8) -> i64>(dmg: D, o: Order, w: World, w2: World, ns: Option<u8>, ns2: Option<u8>, r: bool) -> bool {
    &&& same_frame(w2, w)
    &&& forall|i: int| 0 <= i < N_IDS ==> (#[trigger] w2.units@[i] is Some <==> w.units@[i] is Some)
    &&& ns2 == match o {
        Order::VICTORY => Some(PHASE_VICTORY),
        Order::DEFEAT => Some(PHASE_DEFEAT),
        _ => ns,
    }
    &&& !(o is ATTACK) ==> w2.projectiles@ == w.projectiles@
    &&& match o {
        Order::MOVE(id, tx, ty) => match w.units@[id as int] {
            None => !r && w2.units@ == w.units@,
            Some(u) => r == poll_move(u, tx, ty).1 && w2.units@ == w.units@.update(id as int, Some(poll_move(u, tx, ty).0)),
        },
        Order::ATTACK(id, tid, ox, oy) => attack_step(dmg, w, w2, id, tid, ox, oy, r),
        Order::MutHealthA(id, delta) => !r && w2.units@ == match w.units@[id as int] {
            None => w.units@,
            Some(u) => w.units@.update(id as int, Some(Unit { health: sat_i64(u.health + delta), ..u })),
        },
        Order::MutHealthR(id, frac) => !r && w2.units@ == match w.units@[id as int] {
            None => w.units@,
            Some(u) => w.units@.update(id as int, Some(Unit {
                health: sat_i64(u.health + relative_delta(frac, w.unit_types@[u.type_id as int]->0.max_health)),
                ..u
            })),
        },
        _ => !r && w2.units@ == w.units@,
    }
}

/// Returns true while the order `o` has not been completed; polled once a
/// frame, it carries the order out step by step. Orders that name a unit
/// that does not live are complete at once and change nothing. Victory and
/// defeat orders ask for their phase in `next_state`. The damage of an
/// attack is what `dmg` gives for the attacker's and the defender's type.
pub fn order_pending<D: Fn(u8, u8) -> i64>(o: &Order, w: &mut World, next_state: &mut Option<u8>, dmg: &D) -> (r: bool)
    requires
        old(w).wf(),
        forall|a: u8, b: u8| dmg.requires((a, b)),
    ensures
        final(w).wf(),
        order_step(*dmg, *o, *old(w), *final(w), *old(next_state), *final(next_state), r),
{
    match o {
        Order::MOVE(id, tx, ty) => has_unit_moved(w, *id, (*tx, *ty)),
        Order::ATTACK(id, target, tx, ty) => has_unit_attacked(w, *id, *target, (*tx, *ty), dmg),
        Order::VICTORY => {
            *next_state = Some(PHASE_VICTORY);
            false
        },
        Order::DEFEAT => {
            *next_state = Some(PHASE_DEFEAT);
            false
        },
        Order::MutHealthA(id, delta) => {
            if let Some(u) = &w.units[*id as usize] {
                let mut u2 = *u;
                u2.health = sat_i64_exec(u.health as i128 + *delta as i128);
                replace_unit(w, *id, u2);
            }
            false
        },
        Order::MutHealthR(id, frac) => {
            if let Some(u) = &w.units[*id as usize] {
                let mut u2 = *u;
                assert(w.units@[*id as int] is Some);
                let max = match &w.unit_types[u.type_id as usize] {
                    Some(ut) => ut.max_health,
                    None => 0,
                };
                let f = *frac as i128;
                proof {
                    assert(-0x4000_0000_0000_0000_0000_0000 <= f * max <= 0x4000_0000_0000_0000_0000_0000)
                        by (nonlinear_arith)
                        requires -0x8000_0000int <= f <= 0x8000_0000int, -0x8000_0000_0000_0000int <= max <= 0x8000_0000_0000_0000int;
                    assert(-0x2000_0000_0000_0000_0000_0000_0000_0000 <= f * max * f <= 0x2000_0000_0000_0000_0000_0000_0000_0000)
                        by (nonlinear_arith)
                        requires -0x8000_0000int <= f <= 0x8000_0000int,
                            -0x4000_0000_0000_0000_0000_0000int <= f * max <= 0x4000_0000_0000_0000_0000_0000int;
                }
                let delta = crate::fixed::trunc_div_exec(f * (max as i128) * f, 1_000_000);
                proof {
                    crate::fixed::lemma_div_bound(abs(f * max * f), 1_000_000, 0x400_0000_0000_0000_0000_0000_0000);
                }
                u2.health = sat_i64_exec(u.health as i128 + delta);
                replace_unit(w, *id, u2);
            }
            false
        },
    }
}

/// Put `u` in the slot of the living unit `id`, whose type and position it
/// keeps or moves within the world's range.
fn replace_unit(w: &mut World, id: u8, u: Unit)
    requires
        old(w).wf(),
        old(w).units@[id as int] is Some,
        u.wf(),
        u.type_id == old(w).units@[id as int]->0.type_id,
    ensures
        final(w).wf(),
        same_frame(*final(w), *old(w)),
        final(w).projectiles@ == old(w).projectiles@,
        final(w).units@ == old(w).units@.update(id as int, Some(u)),
{
    let ghost old_w = *w;
    w.units.set(id as usize, Some(u));
    assert forall|i: int| 0 <= i < N_IDS && #[trigger] w.units@[i] is Some implies {
        &&& w.units@[i]->0.wf()
        &&& w.unit_types@[w.units@[i]->0.type_id as int] is Some
    } by {
        assert(old_w.units@[i] is Some);
    }
}

/// One poll of a move order: see `poll_move`.
fn has_unit_moved(w: &mut World, uid: u8, co_ords: (i32, i32)) -> (r: bool)
    requires
        old(w).wf(),
    ensures
        final(w).wf(),
        same_frame(*final(w), *old(w)),
        final(w).projectiles@ == old(w).projectiles@,
        match old(w).units@[uid as int] {
            None => !r && final(w).units@ == old(w).units@,
            Some(u) => r == poll_move(u, co_ords.0, co_ords.1).1
                && final(w).units@ == old(w).units@.update(uid as int, Some(poll_move(u, co_ords.0, co_ords.1).0)),
        },
{
    let u = match &w.units[uid as usize] {
        Some(u) => *u,
        None => { return false; },
    };
    assert(w.units@[uid as int] is Some);
    let tx: i64 = co_ords.0 as i64 * SUB;
    let ty: i64 = co_ords.1 as i64 * SUB;
    proof {
        lemma_scaled_in_world(co_ords.0);
        lemma_scaled_in_world(co_ords.1);
    }
    let mut u2 = u;
    if u.busy {
        let ex: i64 = u.wx - tx;
        let ey: i64 = u.wy - ty;
        let ax: i64 = if ex < 0 { -ex } else { ex };
        let ay: i64 = if ey < 0 { -ey } else { ey };
        if ax <= ARRIVE && ay <= ARRIVE {
            u2.set_state(UnitState::Stand);
            u2.wx = tx;
            u2.wy = ty;
            u2.busy = false;
            replace_unit(w, uid, u2);
            false
        } else {
            true
        }
    } else {
        let s = u.walk_dir_to(co_ords.0 as i64, co_ords.1 as i64);
        u2.set_state(s);
        u2.busy = true;
        replace_unit(w, uid, u2);
        true
    }
}

/// One poll of an attack order from tile `co_ords`.
fn has_unit_attacked<D: Fn(u8, u8) -> i64>(w: &mut World, uid: u8, trg: u8, co_ords: (i32, i32), dmg: &D) -> (r: bool)
    requires
        old(w).wf(),
        forall|a: u8, b: u8| dmg.requires((a, b)),
    ensures
        final(w).wf(),
        same_frame(*final(w), *old(w)),
        forall|i: int| 0 <= i < N_IDS ==> (#[trigger] final(w).units@[i] is Some <==> old(w).units@[i] is Some),
        attack_step(*dmg, *old(w), *final(w), uid, trg, co_ords.0, co_ords.1, r),
{
    let t = match &w.units[trg as usize] {
        Some(t) => *t,
        None => { return false; },
    };
    let u = match &w.units[uid as usize] {
        Some(u) => *u,
        None => { return false; },
    };
    assert(w.units@[uid as int] is Some && w.units@[trg as int] is Some);
    let dur = match &w.unit_types[u.type_id as usize] {
        Some(ut) => ut.attack_dur,
        None => { return false; },
    };
    let ox: i64 = co_ords.0 as i64 * SUB;
    let oy: i64 = co_ords.1 as i64 * SUB;
    proof {
        lemma_scaled_in_world(co_ords.0);
        lemma_scaled_in_world(co_ords.1);
    }
    let mut u2 = u;
    if u.busy {
        if u.wx == ox && u.wy == oy && u.stime >= dur {
            u2.set_state(UnitState::Stand);
            u2.busy = false;
            replace_unit(w, uid, u2);
            let d = match &w.units[trg as usize] {
                Some(d) => *d,
                None => { return false; },
            };
            assert(w.units@[trg as int] is Some);
            let dm = dmg(u.type_id, d.type_id);
            let mut d2 = d;
            d2.health = sat_i64_exec(d.health as i128 - dm as i128);
            replace_unit(w, trg, d2);
            false
        } else {
            true
        }
    } else {
        let s = u.attack_dir_to(t.wx, t.wy);
        u2.set_state(s);
        u2.busy = true;
        replace_unit(w, uid, u2);
        let (gx, gy) = t.tile();
        let dx: i64 = gx - co_ords.0 as i64;
        let dy: i64 = gy - co_ords.1 as i64;
        let ax: i64 = if dx < 0 { -dx } else { dx };
        let ay: i64 = if dy < 0 { -dy } else { dy };
        if ax + ay > 1 {
            let p = Projectile::new((t.wx, t.wy), (ox, oy), PROJ_SPEED, PROJ_LEN);
            w.projectiles.push(p);
            assert(w.projectiles@.drop_last() == old(w).projectiles@);
        }
        true
    }
}

} // verus!
