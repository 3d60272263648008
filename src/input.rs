//! Selection state machine: turns pointer and key events into unit
//! selection, move and attack orders, and turn submission.

use vstd::prelude::*;
use crate::fixed::{abs, tile_of};
use crate::tiles::TileType;
use crate::orders::Order;
use crate::world::{World, N_IDS, tile_at, tile_at_spec, tile_type_at, is_tile_atrange, at_range, unit_summary, sat_i32};
use crate::turn::{poll_orders, advance_units, advance_projectiles, poll_chain, select, unit_after_frame, projectiles_after};
use crate::orders::same_frame;

verus! {

/// The player picks a unit.
pub const PHASE_SELECT: u8 = 0;
/// A unit is selected; the player picks tiles to walk to.
pub const PHASE_DESTINATION: u8 = 1;
/// The player's orders are carried out.
pub const PHASE_PLAYER_RESOLVE: u8 = 2;
/// The enemy's orders are carried out.
pub const PHASE_ENEMY_RESOLVE: u8 = 3;
/// The player picks a tile to attack.
pub const PHASE_ATTACK: u8 = 4;
/// The introduction is shown.
pub const PHASE_INTRO: u8 = 7;

/// Relative health change of a unit on a healing tile, in thousandths.
pub const HEAL_FRACTION: i32 = 250;
/// Relative health change of a unit on a damaging tile, in thousandths.
pub const DAMAGE_FRACTION: i32 = -350;

/// Selection state.
pub struct InputHandler {
    /// Id of the selected unit.
    pub cur_id: u8,
    /// Movement points left to the selected unit.
    pub movn: u8,
    /// Movement points the selected unit started with.
    pub movn_i: u8,
    /// Attack range of the selected unit.
    pub range: u8,
    /// The last tile the selected unit was ordered to.
    pub last_tile: (i32, i32),
    /// Tile of the selected unit when it was selected.
    pub cur_upos: (i32, i32),
    /// Display name of the selected unit.
    pub uname: String,
    /// Current phase.
    pub state: u8,
    /// Queued orders.
    pub ovec: Vec<Order>,
    /// Units that have finished their turn, indexed by unit id.
    pub frozen: Vec<bool>,
    /// The selected unit is the player's.
    pub isplrsel: bool,
    /// Show the selection interface.
    pub show: bool,
    /// Show the unit type's information.
    pub show_info: bool,
}

/// Manhattan distance between two tiles.
pub open spec fn manhattan(a: (i32, i32), b: (i32, i32)) -> int {
    abs(a.0 - b.0) + abs(a.1 - b.1)
}

/// The unit `id` lives and stands on tile `t`.
pub open spec fn unit_on(w: World, id: int, t: (i32, i32)) -> bool {
    w.units@[id] matches Some(u) && tile_of(u.wx as int) == t.0 && tile_of(u.wy as int) == t.1
}

/// `id` is the lowest id of a unit on tile `t`.
pub open spec fn first_unit_on(w: World, id: int, t: (i32, i32)) -> bool {
    0 <= id < N_IDS && unit_on(w, id, t) && forall|j: int| 0 <= j < id ==> !#[trigger] unit_on(w, j, t)
}

/// No unit stands on tile `t`.
pub open spec fn no_unit_on(w: World, t: (i32, i32)) -> bool {
    forall|j: int| 0 <= j < N_IDS ==> !#[trigger] unit_on(w, j, t)
}

/// The lowest id of a unit standing on tile `t`.
pub fn find_unit_at(w: &World, t: (i32, i32)) -> (r: Option<u8>)
    requires
        w.wf(),
    ensures
        r matches Some(id) ==> first_unit_on(*w, id as int, t),
        r is None ==> no_unit_on(*w, t),
{
    let mut i: usize = 0;
    while i < N_IDS
        invariant
            w.wf(),
            i <= N_IDS,
            forall|j: int| 0 <= j < i ==> !#[trigger] unit_on(*w, j, t),
        decreases N_IDS - i,
    {
        if let Some(u) = &w.units[i] {
            assert(w.units@[i as int] is Some);
            let (x, y) = u.tile();
            if x == t.0 as i64 && y == t.1 as i64 {
                return Some(i as u8);
            }
        }
        i = i + 1;
    }
    None
}

/// Orders for the units standing on healing and damaging tiles, among the
/// units with ids below `n`, in id order.
pub open spec fn tile_orders(w: World, n: nat) -> Seq<Order>
    decreases n,
{
    if n == 0 {
        Seq::empty()
    } else {
        let rest = tile_orders(w, (n - 1) as nat);
        let id = (n - 1) as int;
        match w.units@[id] {
            None => rest,
            Some(u) => {
                let tt = w.tilemap.type_at(sat_i32(tile_of(u.wx as int)) as int, sat_i32(tile_of(u.wy as int)) as int);
                if tt == TileType::Heal {
                    rest.push(Order::MutHealthR(id as u8, HEAL_FRACTION))
                } else if tt == TileType::Damage {
                    rest.push(Order::MutHealthR(id as u8, DAMAGE_FRACTION))
                } else {
                    rest
                }
            },
        }
    }
}

/// Every field of the handler is the same in `a` and `b`.
pub open spec fn same_handler(a: InputHandler, b: InputHandler) -> bool {
    &&& same_selection(a, b)
    &&& b.state == a.state
    &&& b.ovec@ == a.ovec@
    &&& b.frozen@ == a.frozen@
    &&& b.movn == a.movn
    &&& b.last_tile == a.last_tile
}

/// The fields that a destination click never changes are the same in `a`
/// and `b`.
pub open spec fn same_selection(a: InputHandler, b: InputHandler) -> bool {
    &&& b.cur_id == a.cur_id
    &&& b.movn_i == a.movn_i
    &&& b.range == a.range
    &&& b.cur_upos == a.cur_upos
    &&& b.uname@ == a.uname@
    &&& b.isplrsel == a.isplrsel
    &&& b.show == a.show
    &&& b.show_info == a.show_info
}

/// What a click at `(mx, my)` in `PHASE_SELECT` does, from state `a` to
/// state `b`: the unit with the lowest id on the tile under the pointer is
/// selected, with its type's movement points and range, and the phase
/// becomes `PHASE_DESTINATION`; with no unit there nothing changes.
pub open spec fn select_unit_post(a: InputHandler, b: InputHandler, w: World, mx: i32, my: i32) -> bool {
    let t = tile_at_spec(w, mx, my);
    &&& b.ovec@ == a.ovec@
    &&& b.frozen@ == a.frozen@
    &&& if no_unit_on(w, t) {
        same_handler(a, b)
    } else {
        exists|id: int| #[trigger] first_unit_on(w, id, t) && {
            let u = w.units@[id]->0;
            let ut = w.unit_types@[u.type_id as int]->0;
            &&& b.cur_id == id
            &&& b.last_tile == t
            &&& b.cur_upos == t
            &&& b.movn == ut.movement
            &&& b.movn_i == ut.movement
            &&& b.range == ut.range
            &&& b.uname@ == ut.name@
            &&& b.isplrsel == u.player
            &&& b.show
            &&& b.state == PHASE_DESTINATION
        }
    }
}

/// What a click at `(mx, my)` in `PHASE_DESTINATION` does, from state `a`
/// to state `b`. A unit that is not the player's, or that is frozen, loses
/// the selection. Otherwise, for the tile under the pointer: a prohibited
/// tile is ignored; the tile the selected unit stands on moves on to
/// `PHASE_ATTACK`; a tile where another unit stands is ignored; a tile exactly one step
/// from the last tile gets a move order while movement points remain, and
/// costs one. With no movement points left the phase becomes
/// `PHASE_ATTACK`.
pub open spec fn move_tile_post(a: InputHandler, b: InputHandler, w: World, mx: i32, my: i32) -> bool {
    let t = tile_at_spec(w, mx, my);
    &&& same_selection(a, b)
    &&& b.frozen@ == a.frozen@
    &&& if !a.isplrsel || a.frozen@[a.cur_id as int] {
        b.state == PHASE_SELECT && b.ovec@ == a.ovec@ && b.movn == a.movn && b.last_tile == a.last_tile
    } else if w.tilemap.type_at(t.0 as int, t.1 as int) == TileType::Prohibited {
        same_handler(a, b)
    } else if unit_on(w, a.cur_id as int, t) {
        b.state == PHASE_ATTACK && b.ovec@ == a.ovec@ && b.movn == a.movn && b.last_tile == a.last_tile
    } else if !no_unit_on(w, t) {
        same_handler(a, b)
    } else {
        let step = a.movn >= 1 && at_range(t, a.last_tile, 1);
        &&& b.ovec@ == if step { a.ovec@.push(Order::MOVE(a.cur_id, t.0, t.1)) } else { a.ovec@ }
        &&& b.movn == if step { (a.movn - 1) as u8 } else { a.movn }
        &&& b.last_tile == if step { t } else { a.last_tile }
        &&& b.state == if b.movn == 0 { PHASE_ATTACK } else { a.state }
    }
}

/// What a click at `(mx, my)` in `PHASE_ATTACK` does, from state `a` to
/// state `b`: a tile at exactly the unit's range from the last tile, on
/// which an enemy of the selected unit stands (the one with the lowest id),
/// gets an attack order; then, in every case, the selected unit is frozen
/// and the queued orders play out.
pub open spec fn attack_tile_post(a: InputHandler, b: InputHandler, w: World, mx: i32, my: i32) -> bool {
    let t = tile_at_spec(w, mx, my);
    &&& b.frozen@ == a.frozen@.update(a.cur_id as int, true)
    &&& b.state == PHASE_PLAYER_RESOLVE
    &&& !b.show
    &&& if at_range(t, a.last_tile, a.range as int) && !no_unit_on(w, t) {
        exists|id: int| #[trigger] first_unit_on(w, id, t) && {
            let u = w.units@[id]->0;
            if id != a.cur_id && u.player != a.isplrsel {
                b.ovec@ == a.ovec@.push(Order::ATTACK(a.cur_id, id as u8, a.last_tile.0, a.last_tile.1))
            } else {
                b.ovec@ == a.ovec@
            }
        }
    } else {
        b.ovec@ == a.ovec@
    }
}

impl InputHandler {
    /// The frozen set covers every unit id.
    pub open spec fn wf(&self) -> bool {
        self.frozen@.len() == N_IDS
    }

    /// The selection fields are cleared and the phase is `PHASE_SELECT`.
    pub open spec fn cleared(&self) -> bool {
        &&& self.state == PHASE_SELECT
        &&& !self.show
        &&& self.cur_id == 0
        &&& self.movn == 0
        &&& self.range == 0
        &&& self.uname@.len() == 0
        &&& !self.isplrsel
    }

    /// A handler showing the introduction, with nothing selected.
    pub fn new() -> (r: InputHandler)
        ensures
            r.wf(),
            r.state == PHASE_INTRO,
            r.ovec@.len() == 0,
            forall|i: int| 0 <= i < N_IDS ==> !r.frozen@[i],
            !r.show,
            !r.show_info,
            !r.isplrsel,
    {
        let mut frozen: Vec<bool> = Vec::new();
        while frozen.len() < N_IDS
            invariant
                frozen@.len() <= N_IDS,
                forall|i: int| 0 <= i < frozen@.len() ==> !frozen@[i],
            decreases N_IDS - frozen@.len(),
        {
            frozen.push(false);
        }
        InputHandler {
            cur_id: 0,
            movn: 0,
            movn_i: 0,
            range: 0,
            uname: String::new(),
            last_tile: (0, 0),
            cur_upos: (0, 0),
            state: PHASE_INTRO,
            ovec: Vec::new(),
            frozen,
            isplrsel: false,
            show: false,
            show_info: false,
        }
    }

    /// Drop the selection and return to `PHASE_SELECT`.
    pub fn reset(&mut self)
        ensures
            final(self).cleared(),
            final(self).ovec@ == old(self).ovec@,
            final(self).frozen@ == old(self).frozen@,
            final(self).last_tile == old(self).last_tile,
            final(self).cur_upos == old(self).cur_upos,
            final(self).movn_i == old(self).movn_i,
            final(self).show_info == old(self).show_info,
    {
        self.state = PHASE_SELECT;
        self.show = false;
        self.cur_id = 0;
        self.movn = 0;
        self.range = 0;
        self.uname = String::new();
        self.isplrsel = false;
    }

    /// A click in `PHASE_SELECT`: see `select_unit_post`.
    pub fn select_unit(&mut self, w: &World, mx: i32, my: i32)
        requires
            old(self).wf(),
            w.wf(),
        ensures
            final(self).wf(),
            select_unit_post(*old(self), *final(self), *w, mx, my),
    {
        let t = tile_at(w, mx, my);
        if let Some(id) = find_unit_at(w, t) {
            if let Some((movn, range, name, plr)) = unit_summary(w, id) {
                self.last_tile = t;
                self.cur_id = id;
                self.movn = movn;
                self.movn_i = movn;
                self.range = range;
                self.uname = name;
                self.isplrsel = plr;
                self.show = true;
                self.cur_upos = t;
                self.state = PHASE_DESTINATION;
                assert(first_unit_on(*w, id as int, t));
            }
        }
    }

    /// Freeze the selected unit for the rest of the turn, drop the
    /// selection and let the queued orders play out.
    pub fn confirm_move(&mut self)
        requires
            old(self).wf(),
        ensures
            final(self).wf(),
            final(self).frozen@ == old(self).frozen@.update(old(self).cur_id as int, true),
            final(self).ovec@ == old(self).ovec@,
            final(self).state == PHASE_PLAYER_RESOLVE,
            !final(self).show,
            final(self).cur_id == 0,
    {
        self.frozen.set(self.cur_id as usize, true);
        self.reset();
        self.state = PHASE_PLAYER_RESOLVE;
    }

    /// A click in `PHASE_DESTINATION`: see `move_tile_post`. In particular a
    /// move is queued only to a tile one step from the last tile, and only
    /// while movement points remain.
    pub fn select_move_tile(&mut self, w: &World, mx: i32, my: i32)
        requires
            old(self).wf(),
            w.wf(),
        ensures
            final(self).wf(),
            move_tile_post(*old(self), *final(self), *w, mx, my),
    {
        if self.isplrsel && !self.frozen[self.cur_id as usize] {
            let t = tile_at(w, mx, my);
            if !tile_type_at(w, t.0, t.1).allowed() {
                return;
            }
            if let Some(u) = &w.units[self.cur_id as usize] {
                assert(w.units@[self.cur_id as int] is Some);
                let (x, y) = u.tile();
                if x == t.0 as i64 && y == t.1 as i64 {
                    self.state = PHASE_ATTACK;
                    return;
                }
            }
            if find_unit_at(w, t).is_some() {
                return;
            }
            if self.movn >= 1 && is_tile_atrange(t, self.last_tile, 1) {
                self.ovec.push(Order::MOVE(self.cur_id, t.0, t.1));
                self.last_tile = t;
                self.movn = self.movn - 1;
            }
            if self.movn == 0 {
                self.state = PHASE_ATTACK;
            }
        } else {
            self.state = PHASE_SELECT;
        }
    }

    /// A click in `PHASE_ATTACK`: see `attack_tile_post`.
    pub fn select_attack_tile(&mut self, w: &World, mx: i32, my: i32)
        requires
            old(self).wf(),
            w.wf(),
        ensures
            final(self).wf(),
            attack_tile_post(*old(self), *final(self), *w, mx, my),
    {
        let t = tile_at(w, mx, my);
        if !is_tile_atrange(t, self.last_tile, self.range) {
            self.confirm_move();
            return;
        }
        if let Some(i) = find_unit_at(w, t) {
            assert(first_unit_on(*w, i as int, t));
            let enemy = match &w.units[i as usize] {
                Some(u) => u.player != self.isplrsel,
                None => false,
            };
            if i != self.cur_id && enemy {
                self.ovec.push(Order::ATTACK(self.cur_id, i, self.last_tile.0, self.last_tile.1));
            }
        }
        self.confirm_move();
    }

    /// Dispatch a primary-button press at `(mx, my)` by phase: select a
    /// unit, pick a destination, pick an attack target, or leave the
    /// introduction. Other phases ignore it.
    pub fn on_primary(&mut self, w: &World, mx: i32, my: i32)
        requires
            old(self).wf(),
            w.wf(),
        ensures
            final(self).wf(),
            old(self).state == PHASE_SELECT ==> select_unit_post(*old(self), *final(self), *w, mx, my),
            old(self).state == PHASE_DESTINATION ==> move_tile_post(*old(self), *final(self), *w, mx, my),
            old(self).state == PHASE_ATTACK ==> attack_tile_post(*old(self), *final(self), *w, mx, my),
            old(self).state == PHASE_INTRO ==> final(self).state == PHASE_SELECT
                && final(self).ovec@ == old(self).ovec@ && final(self).frozen@ == old(self).frozen@,
            old(self).state != PHASE_SELECT && old(self).state != PHASE_DESTINATION
                && old(self).state != PHASE_ATTACK && old(self).state != PHASE_INTRO
                ==> final(self).state == old(self).state && final(self).ovec@ == old(self).ovec@
                && final(self).frozen@ == old(self).frozen@,
    {
        if self.state == PHASE_SELECT {
            self.select_unit(w, mx, my);
        } else if self.state == PHASE_DESTINATION {
            self.select_move_tile(w, mx, my);
        } else if self.state == PHASE_ATTACK {
            self.select_attack_tile(w, mx, my);
        } else if self.state == PHASE_INTRO {
            self.state = PHASE_SELECT;
        }
    }

    /// Show or hide the unit type's information.
    pub fn toggle_info(&mut self)
        ensures
            final(self).show_info == !old(self).show_info,
            final(self).state == old(self).state,
            final(self).ovec@ == old(self).ovec@,
            final(self).frozen@ == old(self).frozen@,
    {
        self.show_info = !self.show_info;
    }

    /// Cancel the current selection: orders queued since the turn began are
    /// dropped and the selected unit is unfrozen, when there are any; the
    /// selection is cleared.
    pub fn cancel(&mut self)
        requires
            old(self).wf(),
        ensures
            final(self).wf(),
            final(self).cleared(),
            final(self).ovec@.len() == 0,
            old(self).ovec@.len() != 0 ==> final(self).frozen@ == old(self).frozen@.update(old(self).cur_id as int, false),
            old(self).ovec@.len() == 0 ==> final(self).frozen@ == old(self).frozen@,
    {
        if self.ovec.len() != 0 {
            self.frozen.set(self.cur_id as usize, false);
            self.ovec.clear();
        }
        self.reset();
    }

    /// Submit the player's turn: only in `PHASE_SELECT`, the phase becomes
    /// `PHASE_ENEMY_RESOLVE` and the frozen set and the order queue are
    /// emptied, ready for the turn's own orders. Returns whether the turn was
    /// submitted.
    pub fn begin_turn(&mut self) -> (r: bool)
        requires
            old(self).wf(),
        ensures
            final(self).wf(),
            r == (old(self).state == PHASE_SELECT),
            r ==> final(self).state == PHASE_ENEMY_RESOLVE && final(self).ovec@.len() == 0
                && forall|i: int| 0 <= i < N_IDS ==> !#[trigger] final(self).frozen@[i],
            !r ==> final(self).state == old(self).state && final(self).ovec@ == old(self).ovec@
                && final(self).frozen@ == old(self).frozen@,
    {
        if self.state != PHASE_SELECT {
            return false;
        }
        self.state = PHASE_ENEMY_RESOLVE;
        let mut i: usize = 0;
        while i < N_IDS
            invariant
                self.frozen@.len() == N_IDS,
                i <= N_IDS,
                forall|j: int| 0 <= j < i ==> !#[trigger] self.frozen@[j],
                self.state == PHASE_ENEMY_RESOLVE,
            decreases N_IDS - i,
        {
            self.frozen.set(i, false);
            i = i + 1;
        }
        self.ovec.clear();
        true
    }

    /// Finish submitting the turn: queue the turn's own orders `extra`, then
    /// a relative health order for every unit on a healing tile (a quarter)
    /// or on a damaging tile (minus seven twentieths), in id order.
    pub fn finish_turn(&mut self, w: &World, extra: Vec<Order>)
        requires
            old(self).wf(),
            w.wf(),
        ensures
            final(self).wf(),
            final(self).state == old(self).state,
            final(self).frozen@ == old(self).frozen@,
            final(self).ovec@ == old(self).ovec@ + extra@ + tile_orders(*w, N_IDS as nat),
    {
        let mut extra = extra;
        let ghost base = self.ovec@ + extra@;
        self.ovec.append(&mut extra);
        let mut i: usize = 0;
        while i < N_IDS
            invariant
                w.wf(),
                self.wf(),
                self.state == old(self).state,
                self.frozen@ == old(self).frozen@,
                i <= N_IDS,
                self.ovec@ == base + tile_orders(*w, i as nat),
            decreases N_IDS - i,
        {
            if let Some(u) = &w.units[i] {
                assert(w.units@[i as int] is Some);
                let x = sat_i32_of(u.wx);
                let y = sat_i32_of(u.wy);
                let tt = tile_type_at(w, x, y);
                if tt == TileType::Heal {
                    self.ovec.push(Order::MutHealthR(i as u8, HEAL_FRACTION));
                } else if tt == TileType::Damage {
                    self.ovec.push(Order::MutHealthR(i as u8, DAMAGE_FRACTION));
                }
            }
            proof {
                assert(base + tile_orders(*w, (i + 1) as nat) == (base + tile_orders(*w, i as nat)) + (tile_orders(*w, (i + 1) as nat).skip(tile_orders(*w, i as nat).len() as int)));
            }
            i = i + 1;
        }
    }

    /// One frame of the resolving phases: poll each order once, in queue
    /// order, and keep exactly those whose poll reports them pending; then
    /// advance the units and remove the dead, and advance the projectiles
    /// and drop those that arrived. With no order and no
    /// projectile left the phase returns to `PHASE_SELECT`; a victory or
    /// defeat order sets its own phase instead.
    pub fn resolve_frame<D: Fn(u8, u8) -> i64>(&mut self, w: &mut World, delta: u64, dmg: &D)
        requires
            old(self).wf(),
            old(w).wf(),
            forall|a: u8, b: u8| dmg.requires((a, b)),
        ensures
            final(self).wf(),
            final(w).wf(),
            final(self).frozen@ == old(self).frozen@,
            final(self).ovec@.len() <= old(self).ovec@.len(),
            exists|ws: Seq<World>, nss: Seq<Option<u8>>, flags: Seq<bool>| {
                &&& #[trigger] poll_chain(*dmg, old(self).ovec@, ws, nss, flags)
                &&& ws[0] == *old(w)
                &&& nss[0] == None::<u8>
                &&& final(self).ovec@ == select(old(self).ovec@, flags)
                &&& same_frame(*final(w), ws.last())
                &&& forall|i: int| 0 <= i < N_IDS ==> #[trigger] final(w).units@[i]
                    == unit_after_frame(ws.last().units@[i], ws.last().unit_types@, delta)
                &&& final(w).projectiles@ == projectiles_after(ws.last().projectiles@, delta)
            },
            forall|i: int| 0 <= i < N_IDS && #[trigger] final(w).units@[i] is Some ==> old(w).units@[i] is Some,
            forall|i: int| 0 <= i < N_IDS ==> (#[trigger] final(w).units@[i] matches Some(u) ==> u.health > 0),
            forall|j: int| 0 <= j < final(w).projectiles@.len() ==> !(#[trigger] final(w).projectiles@[j]).reached,
            final(self).state == match crate::turn::last_phase(old(self).ovec@) {
                Some(p) => p,
                None => if final(self).ovec@.len() == 0 && final(w).projectiles@.len() == 0 {
                    PHASE_SELECT
                } else {
                    old(self).state
                },
            },
    {
        let next_state = poll_orders(&mut self.ovec, w, dmg);
        let ghost (ws, nss, flags) = choose|ws: Seq<World>, nss: Seq<Option<u8>>, flags: Seq<bool>| {
            &&& #[trigger] poll_chain(*dmg, old(self).ovec@, ws, nss, flags)
            &&& ws[0] == *old(w) && ws.last() == *w
            &&& nss[0] == None::<u8> && nss.last() == next_state
            &&& self.ovec@ == select(old(self).ovec@, flags)
            &&& forall|i: int| 0 <= i < flags.len() && #[trigger] flags[i] ==> (old(self).ovec@[i] is MOVE || old(self).ovec@[i] is ATTACK)
        };
        proof {
            lemma_select_len(old(self).ovec@, flags);
        }
        let ghost w1 = *w;
        advance_units(w, delta);
        advance_projectiles(w, delta);
        proof {
            assert(poll_chain(*dmg, old(self).ovec@, ws, nss, flags));
            crate::turn::lemma_frame_leaves_living(w1.units@, w1.unit_types@, w1.projectiles@, delta);
            assert forall|i: int| 0 <= i < N_IDS && #[trigger] w.units@[i] is Some implies old(w).units@[i] is Some by {
                assert(w1.units@[i] is Some);
            }
            assert forall|i: int| 0 <= i < N_IDS implies (#[trigger] w.units@[i] matches Some(u) ==> u.health > 0) by {
                assert(w.units@[i] == crate::turn::unit_after_frame(w1.units@[i], w1.unit_types@, delta));
            }
        }
        if self.ovec.len() == 0 && w.projectiles.len() == 0 {
            self.state = PHASE_SELECT;
        }
        if let Some(i) = next_state {
            self.state = i;
        }
    }

    /// Shade of tile `(tx, ty)` around the selected unit's tile: 1 within
    /// its movement, 2 beyond that but within movement plus range, 0 on the
    /// unit's own tile and everywhere else.
    pub fn tile_shade(&self, tx: i32, ty: i32) -> (r: u8)
        ensures
            r == ({
                let d = manhattan((tx, ty), self.cur_upos);
                if d == 0 {
                    0u8
                } else if d <= self.movn_i {
                    1u8
                } else if d <= self.movn_i + self.range {
                    2u8
                } else {
                    0u8
                }
            }),
    {
        let d = manhattan_exec((tx, ty), self.cur_upos);
        if d == 0 {
            0
        } else if d <= self.movn_i as i64 {
            1
        } else if d <= self.movn_i as i64 + self.range as i64 {
            2
        } else {
            0
        }
    }

    /// Current phase.
    pub fn get_state(&self) -> (r: u8)
        ensures
            r == self.state,
    {
        self.state
    }

    /// Bounds `(xmin, xmax, ymin, ymax)` of the tiles within movement plus
    /// range of the selected unit's tile.
    pub fn boxrange(&self) -> (r: (i64, i64, i64, i64))
        ensures
            r.0 == self.cur_upos.0 - (self.movn_i + self.range),
            r.1 == self.cur_upos.0 + (self.movn_i + self.range),
            r.2 == self.cur_upos.1 - (self.movn_i + self.range),
            r.3 == self.cur_upos.1 + (self.movn_i + self.range),
    {
        let s: i64 = self.movn_i as i64 + self.range as i64;
        (self.cur_upos.0 as i64 - s, self.cur_upos.0 as i64 + s, self.cur_upos.1 as i64 - s, self.cur_upos.1 as i64 + s)
    }

    /// Bounds `(xmin, xmax, ymin, ymax)` of the tiles within range of the
    /// last tile.
    pub fn atkrange(&self) -> (r: (i64, i64, i64, i64))
        ensures
            r.0 == self.last_tile.0 - self.range,
            r.1 == self.last_tile.0 + self.range,
            r.2 == self.last_tile.1 - self.range,
            r.3 == self.last_tile.1 + self.range,
    {
        let s: i64 = self.range as i64;
        (self.last_tile.0 as i64 - s, self.last_tile.0 as i64 + s, self.last_tile.1 as i64 - s, self.last_tile.1 as i64 + s)
    }

    /// 1 on the ring at exactly the unit's range from the last tile, -1 on
    /// the last tile itself (at a range other than zero), 0 elsewhere.
    pub fn inrange(&self, x: i32, y: i32) -> (r: i32)
        ensures
            r == (if manhattan((x, y), self.last_tile) == self.range {
                1i32
            } else if manhattan((x, y), self.last_tile) == 0 {
                -1i32
            } else {
                0i32
            }),
    {
        let d = manhattan_exec((x, y), self.last_tile);
        if d == self.range as i64 {
            1
        } else if d == 0 {
            -1
        } else {
            0
        }
    }

    /// True if unit `u` has finished its turn.
    pub fn is_frozen(&self, u: u8) -> (r: bool)
        requires
            self.wf(),
        ensures
            r == self.frozen@[u as int],
    {
        self.frozen[u as usize]
    }
}

/// Manhattan distance between two tiles.
fn manhattan_exec(a: (i32, i32), b: (i32, i32)) -> (r: i64)
    ensures
        r == manhattan(a, b),
{
    let x: i64 = a.0 as i64 - b.0 as i64;
    let y: i64 = a.1 as i64 - b.1 as i64;
    (if x < 0 { -x } else { x }) + (if y < 0 { -y } else { y })
}

/// The tile coordinate of a world position, saturated into `i32`.
fn sat_i32_of(p: i64) -> (r: i32)
    requires
        -crate::fixed::POS_LIMIT <= p <= crate::fixed::POS_LIMIT,
    ensures
        r == sat_i32(tile_of(p as int)),
{
    let t = crate::fixed::trunc_div_exec(p as i128, crate::fixed::SUB as i128);
    if t > i32::MAX as i128 {
        i32::MAX
    } else if t < i32::MIN as i128 {
        i32::MIN
    } else {
        t as i32
    }
}

/// Selecting never lengthens a sequence.
proof fn lemma_select_len(s: Seq<Order>, flags: Seq<bool>)
    ensures
        select(s, flags).len() <= s.len(),
    decreases s.len(),
{
    if s.len() > 0 && flags.len() > 0 {
        lemma_select_len(s.drop_last(), flags.drop_last());
    }
}

} // verus!
