//! One frame of order resolution: poll the queued orders, advance the
//! units, remove the dead, advance the projectiles and drop those that
//! arrived.

use vstd::prelude::*;
use crate::entity::{Unit, UnitType, unit_step};
use crate::projectile::{Projectile, proj_step};
use crate::orders::{Order, order_pending, order_step, same_frame, PHASE_VICTORY, PHASE_DEFEAT};
use crate::world::{World, N_IDS};

verus! {

/// The elements of `s` whose flag is set, in order.
pub open spec fn select(s: Seq<Order>, flags: Seq<bool>) -> Seq<Order>
    decreases s.len(),
{
    if s.len() == 0 || flags.len() == 0 {
        Seq::empty()
    } else {
        let rest = select(s.drop_last(), flags.drop_last());
        if flags.last() {
            rest.push(s.last())
        } else {
            rest
        }
    }
}

/// Polling the orders `os` once each, in order, passes through the worlds
/// `ws` and requested phases `nss`: poll `k` takes `ws[k]` and `nss[k]` to
/// `ws[k + 1]` and `nss[k + 1]` and reports `flags[k]`.
pub open spec fn poll_chain<D: Fn(u8, u8) -> i64>(dmg: D, os: Seq<Order>, ws: Seq<World>, nss: Seq<Option<u8>>, flags: Seq<bool>) -> bool {
    &&& ws.len() == os.len() + 1
    &&& nss.len() == os.len() + 1
    &&& flags.len() == os.len()
    &&& forall|k: int| 0 <= k < os.len() ==> order_step(dmg, #[trigger] os[k], ws[k], ws[k + 1], nss[k], nss[k + 1], flags[k])
}

/// The phase asked for by the last victory or defeat order of `s`.
pub open spec fn last_phase(s: Seq<Order>) -> Option<u8>
    decreases s.len(),
{
    if s.len() == 0 {
        None
    } else {
        match s.last() {
            Order::VICTORY => Some(PHASE_VICTORY),
            Order::DEFEAT => Some(PHASE_DEFEAT),
            _ => last_phase(s.drop_last()),
        }
    }
}

/// A unit after one frame: dead units (health at zero or below) are gone,
/// the others advance by `delta` microseconds.
pub open spec fn unit_after_frame(slot: Option<Unit>, types: Seq<Option<UnitType>>, delta: u64) -> Option<Unit> {
    match slot {
        None => None,
        Some(u) => if u.health <= 0 {
            None
        } else {
            Some(unit_step(u, types[u.type_id as int]->0, delta))
        },
    }
}

/// The projectiles after one frame: each advances by `delta` microseconds,
/// and those that have arrived are dropped.
pub open spec fn projectiles_after(ps: Seq<Projectile>, delta: u64) -> Seq<Projectile>
    decreases ps.len(),
{
    if ps.len() == 0 {
        Seq::empty()
    } else {
        let rest = projectiles_after(ps.drop_last(), delta);
        let q = proj_step(ps.last(), delta);
        if q.reached {
            rest
        } else {
            rest.push(q)
        }
    }
}

/// Poll every order once, in queue order, and keep exactly those whose
/// poll reports them pending. The result is the phase asked for by the last
/// victory or defeat order. Orders other than moves and attacks always
/// complete at their first poll, and no order brings a unit to life.
pub fn poll_orders<D: Fn(u8, u8) -> i64>(orders: &mut Vec<Order>, w: &mut World, dmg: &D) -> (r: Option<u8>)
    requires
        old(w).wf(),
        forall|a: u8, b: u8| dmg.requires((a, b)),
    ensures
        final(w).wf(),
        same_frame(*final(w), *old(w)),
        r == last_phase(old(orders)@),
        exists|ws: Seq<World>, nss: Seq<Option<u8>>, flags: Seq<bool>| {
            &&& #[trigger] poll_chain(*dmg, old(orders)@, ws, nss, flags)
            &&& ws[0] == *old(w) && ws.last() == *final(w)
            &&& nss[0] == None::<u8> && nss.last() == r
            &&& final(orders)@ == select(old(orders)@, flags)
            &&& forall|i: int| 0 <= i < flags.len() && #[trigger] flags[i] ==> (old(orders)@[i] is MOVE || old(orders)@[i] is ATTACK)
        },
        forall|i: int| 0 <= i < N_IDS && #[trigger] final(w).units@[i] is Some ==> old(w).units@[i] is Some,
{
    let ghost orig = orders@;
    let ghost w0 = *w;
    let mut next_state: Option<u8> = None;
    let mut kept: Vec<Order> = Vec::new();
    let ghost mut flags: Seq<bool> = Seq::empty();
    let ghost mut ws: Seq<World> = seq![*w];
    let ghost mut nss: Seq<Option<u8>> = seq![None];
    let mut i: usize = 0;
    assert(orig.take(0).len() == 0);
    while i < orders.len()
        invariant
            orders@ == orig,
            0 <= i <= orig.len(),
            w.wf(),
            same_frame(*w, w0),
            forall|a: u8, b: u8| dmg.requires((a, b)),
            flags.len() == i,
            kept@ == select(orig.take(i as int), flags),
            forall|j: int| 0 <= j < flags.len() && #[trigger] flags[j] ==> (orig[j] is MOVE || orig[j] is ATTACK),
            next_state == last_phase(orig.take(i as int)),
            poll_chain(*dmg, orig.take(i as int), ws, nss, flags),
            ws[0] == w0,
            ws.last() == *w,
            nss[0] == None::<u8>,
            nss.last() == next_state,
            forall|j: int| 0 <= j < N_IDS && #[trigger] w.units@[j] is Some ==> w0.units@[j] is Some,
        decreases orig.len() - i,
    {
        let o = orders[i];
        let ghost w1 = *w;
        let ghost ns1 = next_state;
        let p = order_pending(&o, w, &mut next_state, dmg);
        if p {
            kept.push(o);
        }
        proof {
            assert(orig.take(i + 1).drop_last() == orig.take(i as int));
            assert(orig.take(i + 1).last() == o);
            let f2 = flags.push(p);
            assert(f2.drop_last() == flags);
            assert(f2.last() == p);
            let ws2 = ws.push(*w);
            let nss2 = nss.push(next_state);
            let os2 = orig.take(i + 1);
            assert forall|k: int| 0 <= k < os2.len() implies
                order_step(*dmg, #[trigger] os2[k], ws2[k], ws2[k + 1], nss2[k], nss2[k + 1], f2[k]) by {
                if k < i {
                    assert(os2[k] == orig.take(i as int)[k]);
                    assert(order_step(*dmg, orig.take(i as int)[k], ws[k], ws[k + 1], nss[k], nss[k + 1], flags[k]));
                } else {
                    assert(os2[k] == o);
                }
            }
            ws = ws2;
            nss = nss2;
            flags = f2;
            assert forall|j: int| 0 <= j < N_IDS && #[trigger] w.units@[j] is Some implies w0.units@[j] is Some by {
                assert(w1.units@[j] is Some);
            }
        }
        i = i + 1;
    }
    proof {
        assert(orig.take(orig.len() as int) == orig);
    }
    *orders = kept;
    next_state
}

/// Advance every living unit by `delta` microseconds and remove those whose
/// health is at zero or below.
pub fn advance_units(w: &mut World, delta: u64)
    requires
        old(w).wf(),
    ensures
        final(w).wf(),
        same_frame(*final(w), *old(w)),
        final(w).projectiles@ == old(w).projectiles@,
        forall|i: int| 0 <= i < N_IDS ==> #[trigger] final(w).units@[i]
            == unit_after_frame(old(w).units@[i], old(w).unit_types@, delta),
{
    let ghost w0 = *w;
    let mut i: usize = 0;
    while i < N_IDS
        invariant
            w.wf(),
            same_frame(*w, w0),
            w.projectiles@ == w0.projectiles@,
            i <= N_IDS,
            forall|j: int| 0 <= j < i ==> #[trigger] w.units@[j] == unit_after_frame(w0.units@[j], w0.unit_types@, delta),
            forall|j: int| i <= j < N_IDS ==> #[trigger] w.units@[j] == w0.units@[j],
        decreases N_IDS - i,
    {
        let ghost w1 = *w;
        if let Some(u) = &w.units[i] {
            assert(w.units@[i as int] is Some);
            let mut u2 = *u;
            if u2.health <= 0 {
                w.units.set(i, None);
            } else {
                match &w.unit_types[u2.type_id as usize] {
                    Some(ut) => {
                        u2.update(ut, delta);
                    },
                    None => {},
                }
                w.units.set(i, Some(u2));
            }
            assert forall|j: int| 0 <= j < N_IDS && #[trigger] w.units@[j] is Some implies {
                &&& w.units@[j]->0.wf()
                &&& w.unit_types@[w.units@[j]->0.type_id as int] is Some
            } by {
                if j != i as int {
                    assert(w1.units@[j] is Some);
                }
            }
        }
        i = i + 1;
    }
}

/// Advance every projectile by `delta` microseconds and drop those that
/// have arrived.
pub fn advance_projectiles(w: &mut World, delta: u64)
    requires
        old(w).wf(),
    ensures
        final(w).wf(),
        same_frame(*final(w), *old(w)),
        final(w).units@ == old(w).units@,
        final(w).projectiles@ == projectiles_after(old(w).projectiles@, delta),
{
    let ghost ps = w.projectiles@;
    let mut kept: Vec<Projectile> = Vec::new();
    let mut i: usize = 0;
    while i < w.projectiles.len()
        invariant
            w.projectiles@ == ps,
            0 <= i <= ps.len(),
            forall|j: int| 0 <= j < ps.len() ==> #[trigger] ps[j].wf(),
            kept@ == projectiles_after(ps.take(i as int), delta),
            forall|j: int| 0 <= j < kept@.len() ==> #[trigger] kept@[j].wf(),
        decreases ps.len() - i,
    {
        let mut p = w.projectiles[i];
        assert(ps[i as int].wf());
        p.update(delta);
        proof {
            assert(ps.take(i + 1).drop_last() == ps.take(i as int));
            assert(ps.take(i + 1).last() == ps[i as int]);
        }
        if !p.reached {
            kept.push(p);
        }
        i = i + 1;
    }
    proof {
        assert(ps.take(ps.len() as int) == ps);
    }
    w.projectiles = kept;
}

/// A unit whose health is at zero or below is gone after the frame.
pub proof fn lemma_dead_unit_removed(slot: Option<Unit>, types: Seq<Option<UnitType>>, delta: u64)
    requires
        slot matches Some(u) && u.health <= 0,
    ensures
        unit_after_frame(slot, types, delta) is None,
{
}

/// After a frame every unit left alive has positive health, and no
/// projectile left in flight has arrived.
pub proof fn lemma_frame_leaves_living(units: Seq<Option<Unit>>, types: Seq<Option<UnitType>>, ps: Seq<Projectile>, delta: u64)
    ensures
        forall|i: int| 0 <= i < units.len() ==>
            (#[trigger] unit_after_frame(units[i], types, delta) matches Some(u) ==> u.health > 0),
        forall|j: int| 0 <= j < projectiles_after(ps, delta).len() ==> !(#[trigger] projectiles_after(ps, delta)[j]).reached,
    decreases ps.len(),
{
    if ps.len() > 0 {
        lemma_frame_leaves_living(units, types, ps.drop_last(), delta);
        let rest = projectiles_after(ps.drop_last(), delta);
        let q = proj_step(ps.last(), delta);
        assert forall|j: int| 0 <= j < projectiles_after(ps, delta).len() implies
            !(#[trigger] projectiles_after(ps, delta)[j]).reached by {
            if !q.reached && j == rest.len() {
            } else {
                assert(projectiles_after(ps, delta)[j] == rest[j]);
            }
        }
    }
}

} // verus!
