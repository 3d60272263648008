//! Unit types, units and their per-frame animation and movement.

use vstd::prelude::*;
use crate::fixed::{SUB, POS_LIMIT, MICROS, tile_of, clamp_pos, abs, clamp_to_world, trunc_div_exec};

verus! {

/// Every state a unit can be in. Each state has its own animation, and the
/// animations of a unit type are listed in this order.
#[derive(Clone, Copy, Debug, PartialEq, Eq, Structural)]
pub enum UnitState {
    /// The unit's y coordinate grows.
    WalkDown,
    /// The unit's x coordinate shrinks.
    WalkLeft,
    /// The unit's y coordinate shrinks.
    WalkUp,
    /// The unit's x coordinate grows.
    WalkRight,
    /// The unit attacks the tile below it.
    AttackDown,
    /// The unit attacks the tile west of it.
    AttackLeft,
    /// The unit attacks the tile above it.
    AttackUp,
    /// The unit attacks the tile east of it.
    AttackRight,
    /// The unit stays where it is.
    Stand,
}

/// Position of a state in the animation list of a unit type.
pub open spec fn state_index(s: UnitState) -> nat {
    match s {
        UnitState::WalkDown => 0,
        UnitState::WalkLeft => 1,
        UnitState::WalkUp => 2,
        UnitState::WalkRight => 3,
        UnitState::AttackDown => 4,
        UnitState::AttackLeft => 5,
        UnitState::AttackUp => 6,
        UnitState::AttackRight => 7,
        UnitState::Stand => 8,
    }
}

/// Number of states, and so of the animations of a complete unit type.
pub const N_STATES: usize = 9;

impl UnitState {
    /// True for the standing state only.
    pub fn is_idle(&self) -> (r: bool)
        ensures
            r == (*self == UnitState::Stand),
    {
        match self {
            UnitState::Stand => true,
            _ => false,
        }
    }
}

/// Index of the animation of a state.
pub fn state_as_usize(u: &UnitState) -> (r: usize)
    ensures
        r == state_index(*u),
        r < N_STATES,
{
    match u {
        UnitState::WalkDown => 0,
        UnitState::WalkLeft => 1,
        UnitState::WalkUp => 2,
        UnitState::WalkRight => 3,
        UnitState::AttackDown => 4,
        UnitState::AttackLeft => 5,
        UnitState::AttackUp => 6,
        UnitState::AttackRight => 7,
        UnitState::Stand => 8,
    }
}

/// One animation of a unit type: where its frames lie in the texture and
/// how fast they run.
#[derive(Clone, Copy, Debug)]
pub struct AnimInfo {
    pub frame_width: u32,
    pub frame_height: u32,
    /// Frames per thousand seconds.
    pub frame_rate: u32,
    /// Left edge of the first frame, in texture pixels.
    pub sfr_x: u32,
    /// Top edge of the frames, in texture pixels.
    pub sfr_y: u32,
    pub nframes: u8,
    /// The sound played with the animation, and whether it loops.
    pub snd_info: Option<(u8, bool)>,
    /// Draw the frames mirrored.
    pub flip: bool,
}

/// What all units of one type share.
pub struct UnitType {
    pub tex_id: u8,
    /// Health of a fresh unit, in thousandths of a hit point.
    pub max_health: i64,
    /// Length of the attack animation, in microseconds.
    pub attack_dur: u64,
    /// Walking speed in millionths of a tile per second.
    pub mov_rate: u32,
    /// The display name of units of this type.
    pub name: String,
    /// Text shown in the information panel.
    pub info: Option<String>,
    /// Tiles that a unit of this type may walk in one turn.
    pub movement: u8,
    /// Distance at which a unit of this type attacks.
    pub range: u8,
    /// One animation per state, in the order of `UnitState`.
    pub anim: Vec<AnimInfo>,
}

impl UnitType {
    /// A unit type with the given texture, name and statistics, and no
    /// animation yet.
    pub fn new(tex_id: u8, name: String, max_health: i64, mov_rate: u32, movement: u8, range: u8, attack_dur: u64) -> (r: UnitType)
        ensures
            r.tex_id == tex_id,
            r.name@ == name@,
            r.info is None,
            r.anim@.len() == 0,
            r.max_health == max_health,
            r.mov_rate == mov_rate,
            r.movement == movement,
            r.range == range,
            r.attack_dur == attack_dur,
    {
        UnitType {
            tex_id,
            name,
            info: None,
            anim: Vec::new(),
            max_health,
            mov_rate,
            movement,
            range,
            attack_dur,
        }
    }

    /// True once there is one animation for each state.
    pub open spec fn complete(&self) -> bool {
        self.anim@.len() == N_STATES
    }

    /// True once there is one animation for each state.
    pub fn is_complete(&self) -> (r: bool)
        ensures
            r == self.complete(),
    {
        self.anim.len() == N_STATES
    }

    /// Append a silent animation: `fs` is the frame size, `frn` the number
    /// of frames, `cf` the first frame's corner, `fr` the rate in frames per
    /// thousand seconds.
    pub fn def_anim_muted(&mut self, fs: (u32, u32), frn: u8, cf: (u32, u32), fr: u32, flip: bool)
        ensures
            final(self).anim@ == old(self).anim@.push(
                AnimInfo {
                    frame_width: fs.0,
                    frame_height: fs.1,
                    frame_rate: fr,
                    sfr_x: cf.0,
                    sfr_y: cf.1,
                    nframes: frn,
                    snd_info: None,
                    flip,
                },
            ),
            final(self).same_stats(old(self)),
    {
        self.anim.push(AnimInfo {
            frame_width: fs.0,
            frame_height: fs.1,
            frame_rate: fr,
            sfr_x: cf.0,
            sfr_y: cf.1,
            nframes: frn,
            snd_info: None,
            flip,
        });
    }

    /// Append an animation with the sound `snd`, looped while the animation
    /// runs when `lp` holds.
    pub fn def_anim(&mut self, fs: (u32, u32), frn: u8, cf: (u32, u32), fr: u32, flip: bool, snd: u8, lp: bool)
        ensures
            final(self).anim@ == old(self).anim@.push(
                AnimInfo {
                    frame_width: fs.0,
                    frame_height: fs.1,
                    frame_rate: fr,
                    sfr_x: cf.0,
                    sfr_y: cf.1,
                    nframes: frn,
                    snd_info: Some((snd, lp)),
                    flip,
                },
            ),
            final(self).same_stats(old(self)),
    {
        self.anim.push(AnimInfo {
            frame_width: fs.0,
            frame_height: fs.1,
            frame_rate: fr,
            sfr_x: cf.0,
            sfr_y: cf.1,
            nframes: frn,
            snd_info: Some((snd, lp)),
            flip,
        });
    }

    /// Set the information text of this unit type.
    pub fn set_info(&mut self, text: String)
        ensures
            final(self).info matches Some(s) && s@ == text@,
            final(self).anim@ == old(self).anim@,
            final(self).same_stats(old(self)),
    {
        self.info = Some(text);
    }

    /// Every field but the animations and the information text agree.
    pub open spec fn same_stats(&self, o: &UnitType) -> bool {
        &&& self.tex_id == o.tex_id
        &&& self.name@ == o.name@
        &&& self.max_health == o.max_health
        &&& self.attack_dur == o.attack_dur
        &&& self.mov_rate == o.mov_rate
        &&& self.movement == o.movement
        &&& self.range == o.range
    }
}

/// A unit standing or moving in the world.
#[derive(Clone, Copy, Debug, PartialEq, Eq, Structural)]
pub struct Unit {
    /// Key of the unit's type.
    pub type_id: u8,
    /// Health in thousandths of a hit point; the unit dies at zero or below.
    pub health: i64,
    pub state: UnitState,
    /// Tint as a hex colour.
    pub tint: i32,
    /// World x position, in millionths of a tile.
    pub wx: i64,
    /// World y position, in millionths of a tile.
    pub wy: i64,
    /// Microseconds into the current animation loop.
    pub ftime: u64,
    /// Microseconds spent in the current non-standing state.
    pub stime: u64,
    /// Current animation frame.
    pub frame: u8,
    /// Between two tiles, or in the middle of an attack.
    pub busy: bool,
    /// Controlled by the player rather than the enemy.
    pub player: bool,
}

/// One clamped step of a coordinate.
pub open spec fn step_pos(p: int, ds: int) -> int {
    clamp_pos(p + ds)
}

/// What one frame of `delta` microseconds does to a unit of type `ut`.
pub open spec fn unit_step(u: Unit, ut: UnitType, delta: u64) -> Unit {
    let ftime = if u.ftime + delta > u64::MAX { u64::MAX } else { (u.ftime + delta) as u64 };
    let stime = if u.state == UnitState::Stand {
        u.stime
    } else if u.stime + delta > u64::MAX {
        u64::MAX
    } else {
        (u.stime + delta) as u64
    };
    let a = ut.anim@[state_index(u.state) as int];
    let raw = ftime * a.frame_rate / 1_000_000_000int;
    let ds = delta * ut.mov_rate / MICROS as int;
    Unit {
        ftime: if raw >= a.nframes { 0 } else { ftime },
        frame: if raw >= a.nframes { 0 } else { raw as u8 },
        stime,
        wx: match u.state {
            UnitState::WalkLeft => step_pos(u.wx as int, -ds) as i64,
            UnitState::WalkRight => step_pos(u.wx as int, ds) as i64,
            _ => u.wx,
        },
        wy: match u.state {
            UnitState::WalkDown => step_pos(u.wy as int, ds) as i64,
            UnitState::WalkUp => step_pos(u.wy as int, -ds) as i64,
            _ => u.wy,
        },
        ..u
    }
}

/// A unit entering state `s`: both clocks and the frame start over.
pub open spec fn with_state(u: Unit, s: UnitState) -> Unit {
    Unit { state: s, stime: 0, ftime: 0, frame: 0, ..u }
}

/// The walking state that takes a unit standing on `(fx, fy)` one step to
/// `(tx, ty)`; standing where the target is not exactly one step away.
pub open spec fn walk_dir(fx: int, fy: int, tx: int, ty: int) -> UnitState {
    let dx = tx - fx;
    let dy = ty - fy;
    if dx == 0 && dy == 1 {
        UnitState::WalkDown
    } else if dx == 1 && dy == 0 {
        UnitState::WalkRight
    } else if dx == 0 && dy == -1 {
        UnitState::WalkUp
    } else if dx == -1 && dy == 0 {
        UnitState::WalkLeft
    } else {
        UnitState::Stand
    }
}

/// The attack state that faces a target `(dx, dy)` tiles away from the
/// attacker, measured as attacker minus target: the larger offset decides,
/// and a tie (a zero offset too) goes to the vertical states.
pub open spec fn attack_dir(dx: int, dy: int) -> UnitState {
    if abs(dy) >= abs(dx) {
        if dy <= 0 { UnitState::AttackDown } else { UnitState::AttackUp }
    } else {
        if dx <= 0 { UnitState::AttackRight } else { UnitState::AttackLeft }
    }
}

/// A product of a `u64` and a `u32` stays far below `u128::MAX`.
proof fn mul_bound(a: int, b: int)
    requires
        0 <= a <= u64::MAX,
        0 <= b <= u32::MAX,
    ensures
        0 <= a * b <= u64::MAX * u32::MAX,
{
    assert(0 <= a * b <= u64::MAX * u32::MAX) by (nonlinear_arith)
        requires 0 <= a <= u64::MAX, 0 <= b <= u32::MAX;
}

impl Unit {
    /// A standing unit at a world position.
    pub fn new(tid: u8, tint: i32, wx: i64, wy: i64, plr: bool, health: i64) -> (r: Unit)
        ensures
            r == (Unit {
                type_id: tid,
                health,
                state: UnitState::Stand,
                tint,
                wx,
                wy,
                ftime: 0,
                stime: 0,
                frame: 0,
                busy: false,
                player: plr,
            }),
    {
        Unit {
            type_id: tid,
            tint,
            wx,
            wy,
            player: plr,
            health,
            state: UnitState::Stand,
            frame: 0,
            ftime: 0,
            stime: 0,
            busy: false,
        }
    }

    /// The position lies within the world's range.
    pub open spec fn wf(&self) -> bool {
        &&& -POS_LIMIT <= self.wx <= POS_LIMIT
        &&& -POS_LIMIT <= self.wy <= POS_LIMIT
    }

    /// Advance the unit by one frame of `delta` microseconds: the clocks
    /// run, the frame index follows the animation clock (both start over
    /// when it runs past the last frame), and a walking unit moves.
    pub fn update(&mut self, ut: &UnitType, delta: u64)
        requires
            old(self).wf(),
            ut.complete(),
        ensures
            *final(self) == unit_step(*old(self), *ut, delta),
            final(self).wf(),
    {
        self.ftime = self.ftime.saturating_add(delta);
        if !self.state.is_idle() {
            self.stime = self.stime.saturating_add(delta);
        }
        let aif = &ut.anim[state_as_usize(&self.state)];
        proof {
            mul_bound(self.ftime as int, aif.frame_rate as int);
            mul_bound(delta as int, ut.mov_rate as int);
        }
        let raw: u128 = (self.ftime as u128) * (aif.frame_rate as u128) / 1_000_000_000u128;
        if raw >= aif.nframes as u128 {
            self.frame = 0;
            self.ftime = 0;
        } else {
            self.frame = raw as u8;
        }
        let ds: i128 = ((delta as u128) * (ut.mov_rate as u128) / (MICROS as u128)) as i128;
        match self.state {
            UnitState::WalkDown => {
                self.wy = clamp_to_world(self.wy as i128 + ds);
            },
            UnitState::WalkLeft => {
                self.wx = clamp_to_world(self.wx as i128 - ds);
            },
            UnitState::WalkUp => {
                self.wy = clamp_to_world(self.wy as i128 - ds);
            },
            UnitState::WalkRight => {
                self.wx = clamp_to_world(self.wx as i128 + ds);
            },
            _ => {},
        }
    }

    /// True while the unit is in the frame in which it entered its state.
    pub fn nascent_state(&self) -> (r: bool)
        ensures
            r == (self.stime == 0),
    {
        self.stime == 0
    }

    /// Enter state `s`, starting both clocks and the frame over.
    pub fn set_state(&mut self, s: UnitState)
        ensures
            *final(self) == with_state(*old(self), s),
    {
        self.state = s;
        self.stime = 0;
        self.ftime = 0;
        self.frame = 0;
    }

    /// The tile that holds the unit's position.
    pub fn tile(&self) -> (r: (i64, i64))
        requires
            self.wf(),
        ensures
            r.0 == tile_of(self.wx as int),
            r.1 == tile_of(self.wy as int),
    {
        (trunc_div_exec(self.wx as i128, SUB as i128) as i64, trunc_div_exec(self.wy as i128, SUB as i128) as i64)
    }

    /// The walking state that takes this unit towards tile `(tx, ty)`.
    pub fn walk_dir_to(&self, tx: i64, ty: i64) -> (r: UnitState)
        requires
            self.wf(),
        ensures
            r == walk_dir(tile_of(self.wx as int), tile_of(self.wy as int), tx as int, ty as int),
    {
        let (wx, wy) = self.tile();
        let dx: i128 = tx as i128 - wx as i128;
        let dy: i128 = ty as i128 - wy as i128;
        if dx == 0 && dy == 1 {
            UnitState::WalkDown
        } else if dx == 1 && dy == 0 {
            UnitState::WalkRight
        } else if dx == 0 && dy == -1 {
            UnitState::WalkUp
        } else if dx == -1 && dy == 0 {
            UnitState::WalkLeft
        } else {
            UnitState::Stand
        }
    }

    /// The attack state that faces a target standing at world position
    /// `(twx, twy)`.
    pub fn attack_dir_to(&self, twx: i64, twy: i64) -> (r: UnitState)
        requires
            self.wf(),
            -POS_LIMIT <= twx <= POS_LIMIT,
            -POS_LIMIT <= twy <= POS_LIMIT,
        ensures
            r == attack_dir(tile_of(self.wx - twx), tile_of(self.wy - twy)),
    {
        let tx = trunc_div_exec(self.wx as i128 - twx as i128, SUB as i128);
        let ty = trunc_div_exec(self.wy as i128 - twy as i128, SUB as i128);
        let ax: i128 = if tx < 0 { -tx } else { tx };
        let ay: i128 = if ty < 0 { -ty } else { ty };
        if ay >= ax {
            if ty <= 0 { UnitState::AttackDown } else { UnitState::AttackUp }
        } else {
            if tx <= 0 { UnitState::AttackRight } else { UnitState::AttackLeft }
        }
    }
}

} // verus!
