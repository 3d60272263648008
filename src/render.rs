//! Render ordering: what each entity draws, where, and in which order.

use vstd::prelude::*;
use crate::fixed::{SUB, clamp_pos, clamp_to_world, floor_div};
use crate::entity::Unit;
use crate::input::{InputHandler, PHASE_SELECT};
use crate::projectile::{Projectile, isqrt, is_isqrt, norm};
use crate::world::{World, wots, wots_spec, wots_sub_spec};

verus! {

/// Tint of the selected unit (yellow, as a hex colour).
pub const SELECTED_TINT: i32 = -0x0206_ff01;

/// Tint of a unit that has finished its turn, while the player picks units
/// (grey, as a hex colour).
pub const FROZEN_TINT: i32 = -0x7d7d_7d01;

/// Pixels by which the viewport is widened before culling.
pub const RENDER_FILTER_GAP: i32 = 2;

/// A draw record for one frame: a texture, or a region of one, at a screen
/// position, ordered by its world position.
#[derive(Clone, Copy, Debug)]
pub struct Renderable {
    /// World position in sub-units.
    pub wpos: (i64, i64),
    /// Screen position in pixels.
    pub spos: (i64, i64),
    /// Width and height on the screen; a negative width draws mirrored.
    pub size: (i64, i64),
    pub tex_id: u8,
    /// Source region `(x, y, width, height)` in the texture.
    pub reg: Option<(i64, i64, i64, i64)>,
    pub tint: i32,
    pub is_static: bool,
}

/// `a` is drawn no later than `b`: smaller world x first, and for equal x
/// smaller world y first, so that entities further south come out on top.
pub open spec fn draws_before(a: Renderable, b: Renderable) -> bool {
    a.wpos.0 < b.wpos.0 || (a.wpos.0 == b.wpos.0 && a.wpos.1 <= b.wpos.1)
}

/// `a` is drawn strictly before `b`.
pub open spec fn strictly_before(a: Renderable, b: Renderable) -> bool {
    a.wpos.0 < b.wpos.0 || (a.wpos.0 == b.wpos.0 && a.wpos.1 < b.wpos.1)
}

/// The sequence is in drawing order.
pub open spec fn painter_sorted(s: Seq<Renderable>) -> bool {
    forall|i: int, j: int| 0 <= i < j < s.len() ==> draws_before(#[trigger] s[i], #[trigger] s[j])
}

/// The point lies outside the viewport of `view` pixels whose corner is the
/// camera's screen position `cpos`, widened by `gap` on every side.
pub open spec fn pos_offscreen(cpos: (i64, i64), view: (i32, i32), gap: i32, p: (i64, i64)) -> bool {
    p.0 < cpos.0 - gap || p.0 > cpos.0 + view.0 + gap || p.1 < cpos.1 - gap || p.1 > cpos.1 + view.1 + gap
}

/// All four corners of the rectangle lie outside the widened viewport.
pub open spec fn rec_offscreen(cpos: (i64, i64), view: (i32, i32), pos: (i64, i64), w: i64, h: i64) -> bool {
    &&& pos_offscreen(cpos, view, RENDER_FILTER_GAP, pos)
    &&& pos_offscreen(cpos, view, RENDER_FILTER_GAP, ((pos.0 + w) as i64, pos.1))
    &&& pos_offscreen(cpos, view, RENDER_FILTER_GAP, (pos.0, (pos.1 + h) as i64))
    &&& pos_offscreen(cpos, view, RENDER_FILTER_GAP, ((pos.0 + w) as i64, (pos.1 + h) as i64))
}

/// The record's position and size keep screen arithmetic exact.
pub open spec fn item_in_range(x: Renderable) -> bool {
    &&& on_screen_range(x.spos)
    &&& -0x1000_0000_0000_0000 <= x.size.0 <= 0x1000_0000_0000_0000
    &&& -0x1000_0000_0000_0000 <= x.size.1 <= 0x1000_0000_0000_0000
}

/// The bounds that keep screen arithmetic exact.
pub open spec fn on_screen_range(p: (i64, i64)) -> bool {
    -0x1000_0000_0000_0000 <= p.0 <= 0x1000_0000_0000_0000 && -0x1000_0000_0000_0000 <= p.1 <= 0x1000_0000_0000_0000
}

impl Renderable {
    /// A static drawn whole at screen position `(x, y)`.
    pub fn new_static(tex_id: u8, x: i64, y: i64, wx: i32, wy: i32, w: i64, h: i64) -> (r: Renderable)
        ensures
            r.wpos == ((wx * SUB) as i64, (wy * SUB) as i64),
            r.spos == (x, y),
            r.size == (w, h),
            r.tex_id == tex_id,
            r.reg is None,
            r.tint == -1,
            r.is_static,
    {
        Renderable {
            wpos: (wx as i64 * SUB, wy as i64 * SUB),
            spos: (x, y),
            size: (w, h),
            tex_id,
            reg: None,
            tint: -1,
            is_static: true,
        }
    }

    /// A static drawn from region `rec` of its texture.
    pub fn new_static_texreg(tex_id: u8, spos: (i64, i64), wx: i32, wy: i32, rec: (i64, i64, i64, i64)) -> (r: Renderable)
        ensures
            r.wpos == ((wx * SUB) as i64, (wy * SUB) as i64),
            r.spos == spos,
            r.size == (rec.2, rec.3),
            r.tex_id == tex_id,
            r.reg == Some(rec),
            r.tint == -1,
            r.is_static,
    {
        Renderable {
            wpos: (wx as i64 * SUB, wy as i64 * SUB),
            spos,
            size: (rec.2, rec.3),
            tex_id,
            reg: Some(rec),
            tint: -1,
            is_static: true,
        }
    }

    /// A unit's animation frame `rec`, tinted.
    pub fn new_unit(tex_id: u8, wpos: (i64, i64), spos: (i64, i64), rec: (i64, i64, i64, i64), tint: i32) -> (r: Renderable)
        ensures
            r.wpos == wpos,
            r.spos == spos,
            r.size == (rec.2, rec.3),
            r.tex_id == tex_id,
            r.reg == Some(rec),
            r.tint == tint,
            !r.is_static,
    {
        Renderable { wpos, spos, size: (rec.2, rec.3), tex_id, reg: Some(rec), tint, is_static: false }
    }

    /// Painter's order of two records.
    pub fn cmp(r1: &Renderable, r2: &Renderable) -> (r: core::cmp::Ordering)
        ensures
            r == (if strictly_before(*r1, *r2) {
                core::cmp::Ordering::Less
            } else if r1.wpos == r2.wpos {
                core::cmp::Ordering::Equal
            } else {
                core::cmp::Ordering::Greater
            }),
    {
        if r1.wpos.0 < r2.wpos.0 {
            core::cmp::Ordering::Less
        } else if r1.wpos.0 > r2.wpos.0 {
            core::cmp::Ordering::Greater
        } else if r1.wpos.1 > r2.wpos.1 {
            core::cmp::Ordering::Greater
        } else if r1.wpos.1 < r2.wpos.1 {
            core::cmp::Ordering::Less
        } else {
            core::cmp::Ordering::Equal
        }
    }
}

/// Sort records into drawing order; each record is inserted after the
/// records it ties with.
pub fn painter_sort(items: Vec<Renderable>) -> (r: Vec<Renderable>)
    ensures
        painter_sorted(r@),
        r@.to_multiset() == items@.to_multiset(),
{
    let mut out: Vec<Renderable> = Vec::new();
    assert(out@ == items@.take(0));
    let mut i: usize = 0;
    while i < items.len()
        invariant
            0 <= i <= items@.len(),
            painter_sorted(out@),
            out@.to_multiset() == items@.take(i as int).to_multiset(),
        decreases items@.len() - i,
    {
        let it = items[i];
        let mut j: usize = 0;
        while j < out.len() && !(it.wpos.0 < out[j].wpos.0 || (it.wpos.0 == out[j].wpos.0 && it.wpos.1 < out[j].wpos.1))
            invariant
                0 <= j <= out@.len(),
                forall|k: int| 0 <= k < j ==> !strictly_before(it, #[trigger] out@[k]),
            decreases out@.len() - j,
        {
            j = j + 1;
        }
        let ghost before = out@;
        out.insert(j, it);
        proof {
            vstd::seq_lib::to_multiset_insert(before, j as int, it);
            vstd::seq_lib::to_multiset_build(items@.take(i as int), it);
            assert(items@.take(i + 1) == items@.take(i as int).push(it));
            assert forall|a: int, b: int| 0 <= a < b < out@.len() implies draws_before(#[trigger] out@[a], #[trigger] out@[b]) by {
                if b < j {
                    assert(out@[a] == before[a] && out@[b] == before[b]);
                } else if b == j {
                    assert(out@[a] == before[a]);
                    assert(!strictly_before(it, before[a]));
                } else if a == j {
                    assert(out@[b] == before[b - 1]);
                    assert(strictly_before(it, before[j as int]));
                    if b - 1 > j {
                        assert(draws_before(before[j as int], before[b - 1]));
                    }
                } else if a < j {
                    assert(out@[a] == before[a] && out@[b] == before[b - 1]);
                } else {
                    assert(out@[a] == before[a - 1] && out@[b] == before[b - 1]);
                }
            }
        }
        i = i + 1;
    }
    assert(items@.take(items@.len() as int) == items@);
    out
}

/// True if the point lies outside the viewport widened by `gap`.
pub fn is_pos_offscreen(cpos: (i64, i64), view: (i32, i32), gap: i32, p: (i64, i64)) -> (r: bool)
    requires
        on_screen_range(cpos),
    ensures
        r == pos_offscreen(cpos, view, gap, p),
{
    let xmin = cpos.0 - gap as i64;
    let xmax = gap as i64 + cpos.0 + view.0 as i64;
    let ymin = cpos.1 - gap as i64;
    let ymax = gap as i64 + cpos.1 + view.1 as i64;
    p.0 < xmin || p.0 > xmax || p.1 < ymin || p.1 > ymax
}

/// True if all four corners of the rectangle lie off the screen.
pub fn is_rec_offscreen(cpos: (i64, i64), view: (i32, i32), pos: (i64, i64), w: i64, h: i64) -> (r: bool)
    requires
        on_screen_range(cpos),
        on_screen_range(pos),
        -0x1000_0000_0000_0000 <= w <= 0x1000_0000_0000_0000,
        -0x1000_0000_0000_0000 <= h <= 0x1000_0000_0000_0000,
    ensures
        r == rec_offscreen(cpos, view, pos, w, h),
{
    is_pos_offscreen(cpos, view, RENDER_FILTER_GAP, pos)
        && is_pos_offscreen(cpos, view, RENDER_FILTER_GAP, (pos.0 + w, pos.1))
        && is_pos_offscreen(cpos, view, RENDER_FILTER_GAP, (pos.0, pos.1 + h))
        && is_pos_offscreen(cpos, view, RENDER_FILTER_GAP, (pos.0 + w, pos.1 + h))
}

/// The records that may show on screen, in drawing order.
pub fn cull_and_sort(items: Vec<Renderable>, cpos: (i64, i64), view: (i32, i32)) -> (r: Vec<Renderable>)
    requires
        on_screen_range(cpos),
        forall|i: int| 0 <= i < items@.len() ==> item_in_range(#[trigger] items@[i]),
    ensures
        painter_sorted(r@),
        r@.to_multiset() == items@.filter(|x: Renderable| !rec_offscreen(cpos, view, x.spos, x.size.0, x.size.1)).to_multiset(),
{
    let ghost keep = |x: Renderable| !rec_offscreen(cpos, view, x.spos, x.size.0, x.size.1);
    let mut vis: Vec<Renderable> = Vec::new();
    let mut i: usize = 0;
    while i < items.len()
        invariant
            0 <= i <= items@.len(),
            on_screen_range(cpos),
            forall|k: int| 0 <= k < items@.len() ==> item_in_range(#[trigger] items@[k]),
            keep == (|x: Renderable| !rec_offscreen(cpos, view, x.spos, x.size.0, x.size.1)),
            vis@ == items@.take(i as int).filter(keep),
        decreases items@.len() - i,
    {
        let it = items[i];
        assert(item_in_range(items@[i as int]));
        proof {
            assert(items@.take(i + 1) == items@.take(i as int).push(it));
            items@.take(i as int).lemma_filter_push(it, keep);
        }
        if !is_rec_offscreen(cpos, view, it.spos, it.size.0, it.size.1) {
            vis.push(it);
        }
        i = i + 1;
    }
    assert(items@.take(items@.len() as int) == items@);
    painter_sort(vis)
}

/// Tint the unit `id` is drawn with: highlighted while selected, greyed
/// while the player picks units and it has finished its turn, its own tint
/// otherwise.
pub fn unit_tint(h: &InputHandler, id: u8, u: &Unit) -> (r: i32)
    requires
        h.wf(),
    ensures
        r == if h.show && id == h.cur_id {
            SELECTED_TINT
        } else if h.state == PHASE_SELECT && h.frozen@[id as int] {
            FROZEN_TINT
        } else {
            u.tint
        },
{
    if h.show && id == h.cur_id {
        SELECTED_TINT
    } else if h.get_state() == PHASE_SELECT && h.is_frozen(id) {
        FROZEN_TINT
    } else {
        u.tint
    }
}

/// Whether to start the sound of the unit's animation: when the unit has
/// just entered its state, or the sound loops, and it is not playing yet.
pub fn plays_sound(u: &Unit, looped: bool, playing: bool) -> (r: bool)
    ensures
        r == ((u.stime == 0 || looped) && !playing),
{
    (u.nascent_state() || looped) && !playing
}

impl Unit {
    /// Texture, source region `(x, y, width, height)` (a negative width
    /// mirrors), screen position and sound of the unit's current frame;
    /// the frame is centred on the unit's tile.
    pub fn prep_draw(&self, w: &World) -> (r: (u8, (i64, i64, i64, i64), (i64, i64), Option<(u8, bool)>))
        requires
            w.wf(),
            self.wf(),
            w.unit_types@[self.type_id as int] is Some,
        ensures
            ({
                let ut = w.unit_types@[self.type_id as int]->0;
                let a = ut.anim@[crate::entity::state_index(self.state) as int];
                let p = wots_sub_spec(w.origin.0 as int, w.origin.1 as int, w.tile_size.0 as int, w.tile_size.1 as int,
                    self.wx as int, self.wy as int);
                &&& r.0 == ut.tex_id
                &&& r.1.0 == a.sfr_x + self.frame * a.frame_width
                &&& r.1.1 == a.sfr_y
                &&& r.1.2 == if a.flip { -(a.frame_width as int) } else { a.frame_width as int }
                &&& r.1.3 == a.frame_height
                &&& r.2.0 == p.0 + (w.tile_size.0 - a.frame_width) / 2
                &&& r.2.1 == p.1 + (w.tile_size.1 - a.frame_height) / 2
                &&& r.3 == a.snd_info
            }),
    {
        let ut = match &w.unit_types[self.type_id as usize] {
            Some(ut) => ut,
            None => { return (0, (0, 0, 0, 0), (0, 0), None); },
        };
        assert(ut.complete());
        let a = ut.anim[crate::entity::state_as_usize(&self.state)];
        let fw = a.frame_width as i64;
        assert(0 <= self.frame * fw <= 256 * 0x1_0000_0000) by (nonlinear_arith)
            requires 0 <= self.frame < 256, 0 <= fw < 0x1_0000_0000int;
        let rec = (a.sfr_x as i64 + self.frame as i64 * fw, a.sfr_y as i64, if a.flip { -fw } else { fw }, a.frame_height as i64);
        let p = w.wots_sub(self.wx, self.wy);
        let ox = floor_div(w.tile_size.0 as i128 - a.frame_width as i128, 2);
        let oy = floor_div(w.tile_size.1 as i128 - a.frame_height as i128, 2);
        proof {
            crate::fixed::lemma_div_bound(w.tile_size.0 as int - a.frame_width as int, 2, 0x1_0000_0000);
            crate::fixed::lemma_div_bound(w.tile_size.1 as int - a.frame_height as int, 2, 0x1_0000_0000);
        }
        (ut.tex_id, rec, ((p.0 as i128 + ox) as i64, (p.1 as i128 + oy) as i64), a.snd_info)
    }

    /// Texture, source region and screen position of the first standing
    /// frame of the unit, drawn at tile `(tx, ty)`.
    pub fn stand_frame(&self, w: &World, tx: i32, ty: i32) -> (r: (u8, (i64, i64, i64, i64), (i64, i64)))
        requires
            w.wf(),
            w.unit_types@[self.type_id as int] is Some,
        ensures
            ({
                let ut = w.unit_types@[self.type_id as int]->0;
                let a = ut.anim@[8];
                let p = wots_spec(w.origin.0 as int, w.origin.1 as int, w.tile_size.0 as int, w.tile_size.1 as int,
                    tx as int, ty as int);
                &&& r.0 == ut.tex_id
                &&& r.1.0 == a.sfr_x
                &&& r.1.1 == a.sfr_y
                &&& r.1.2 == if a.flip { -(a.frame_width as int) } else { a.frame_width as int }
                &&& r.1.3 == a.frame_height
                &&& r.2.0 == p.0 + (w.tile_size.0 - a.frame_width) / 2
                &&& r.2.1 == p.1 + (w.tile_size.1 - a.frame_height) / 2
            }),
    {
        let ut = match &w.unit_types[self.type_id as usize] {
            Some(ut) => ut,
            None => { return (0, (0, 0, 0, 0), (0, 0)); },
        };
        assert(ut.complete());
        let a = ut.anim[8];
        let fw = a.frame_width as i64;
        let rec = (a.sfr_x as i64, a.sfr_y as i64, if a.flip { -fw } else { fw }, a.frame_height as i64);
        let p = wots(w, tx, ty);
        let ox = floor_div(w.tile_size.0 as i128 - a.frame_width as i128, 2);
        let oy = floor_div(w.tile_size.1 as i128 - a.frame_height as i128, 2);
        proof {
            crate::fixed::lemma_div_bound(w.tile_size.0 as int - a.frame_width as int, 2, 0x1_0000_0000);
            crate::fixed::lemma_div_bound(w.tile_size.1 as int - a.frame_height as int, 2, 0x1_0000_0000);
        }
        (ut.tex_id, rec, ((p.0 as i128 + ox) as i64, (p.1 as i128 + oy) as i64))
    }
}

/// Source position in a tileset of `n` tiles per row, and screen position,
/// of the tile `(x, y)`; the map's tiles repeat past its end.
pub fn prep_tiledraw(w: &World, x: i32, y: i32, n: i32) -> (r: ((i64, i64), (i64, i64)))
    requires
        w.wf(),
        x >= 0,
        y >= 0,
        n > 0,
        w.tilemap.map_tiles@.len() > 0,
    ensures
        ({
            let t = w.tilemap.map_tiles@[(y * w.tilemap.map_width + x) % (w.tilemap.map_tiles@.len() as int)] as int;
            let p = wots_spec(w.origin.0 as int, w.origin.1 as int, w.tile_size.0 as int, w.tile_size.1 as int,
                x as int, y as int);
            &&& r.0.0 == (t % (n as int)) * w.tile_size.0
            &&& r.0.1 == (t / (n as int)) * w.tile_size.1
            &&& r.1.0 == p.0
            &&& r.1.1 == p.1
        }),
{
    proof {
        assert(y as int * w.tilemap.map_width as int <= 0x8000_0000 * 256) by (nonlinear_arith)
            requires 0 <= y <= 0x8000_0000int, 0 <= w.tilemap.map_width <= 255;
    }
    let idx = ((y as u64) * (w.tilemap.map_width as u64) + (x as u64)) % (w.tilemap.map_tiles.len() as u64);
    let t = w.tilemap.map_tiles[idx as usize] as i64;
    let nn = n as i64;
    let tx = t % nn;
    let ty = t / nn;
    proof {
        vstd::arithmetic::div_mod::lemma_mod_decreases(t as nat, nn as nat);
        vstd::arithmetic::div_mod::lemma_div_is_ordered_by_denominator(t as int, 1, nn as int);
        vstd::arithmetic::div_mod::lemma_div_pos_is_pos(t as int, nn as int);
        assert(0 <= tx * w.tile_size.0 <= 256 * 0x8000_0000) by (nonlinear_arith)
            requires 0 <= tx < 256, 0 < w.tile_size.0 <= 0x8000_0000int;
        assert(0 <= ty * w.tile_size.1 <= 256 * 0x8000_0000) by (nonlinear_arith)
            requires 0 <= ty < 256, 0 < w.tile_size.1 <= 0x8000_0000int;
    }
    ((tx * w.tile_size.0 as i64, ty * w.tile_size.1 as i64), wots(w, x, y))
}

/// Component `v` of a vector of length `n`, scaled to length `len`
/// (rounded down); nothing for a vector without length.
pub open spec fn scaled(v: int, n: int, len: int) -> int {
    if n == 0 {
        0
    } else {
        v * len / n
    }
}

impl Projectile {
    /// Screen end points of the line drawn for the projectile: from its
    /// position, `length` sub-units along its direction of travel (none when
    /// it has no direction), both moved to the centre of a tile's box.
    pub fn prep_draw(&self, w: &World) -> (r: ((i64, i64), (i64, i64)))
        requires
            w.wf(),
            self.wf(),
        ensures
            ({
                let px = clamp_pos(self.position.0 as int);
                let py = clamp_pos(self.position.1 as int);
                let n = norm(self.velocity.0 as int, self.velocity.1 as int);
                let qx = clamp_pos(px + scaled(self.velocity.0 as int, n, self.length as int));
                let qy = clamp_pos(py + scaled(self.velocity.1 as int, n, self.length as int));
                let tw = w.tile_size.0 as int;
                let th = w.tile_size.1 as int;
                let s = wots_sub_spec(w.origin.0 as int, w.origin.1 as int, tw, th, px, py);
                let e = wots_sub_spec(w.origin.0 as int, w.origin.1 as int, tw, th, qx, qy);
                &&& r.0.0 == s.0 + tw / 2
                &&& r.0.1 == s.1 + th / 2
                &&& r.1.0 == e.0 + tw / 2
                &&& r.1.1 == e.1 + th / 2
            }),
    {
        let hx = w.tile_size.0 as i64 / 2;
        let hy = w.tile_size.1 as i64 / 2;
        let px = clamp_to_world(self.position.0 as i128);
        let py = clamp_to_world(self.position.1 as i128);
        let vx = self.velocity.0 as i128;
        let vy = self.velocity.1 as i128;
        proof {
            assert(0 <= vx * vx <= 0x400_0000_0000_0000_0000_0000_0000) by (nonlinear_arith)
                requires -0x20_0000_0000_0000int <= vx <= 0x20_0000_0000_0000int;
            assert(0 <= vy * vy <= 0x400_0000_0000_0000_0000_0000_0000) by (nonlinear_arith)
                requires -0x20_0000_0000_0000int <= vy <= 0x20_0000_0000_0000int;
        }
        let len = isqrt((vx * vx + vy * vy) as u128) as i128;
        proof {
            let c = choose|r: int| #[trigger] is_isqrt(vx * vx + vy * vy, r);
            crate::projectile::lemma_isqrt_unique(vx * vx + vy * vy, c, len as int);
        }
        let (ox, oy) = if len == 0 {
            (0i128, 0i128)
        } else {
            proof {
                assert(-0x10_0000_0000_0000_0000_0000_0000_0000 <= vx * self.length <= 0x10_0000_0000_0000_0000_0000_0000_0000) by (nonlinear_arith)
                    requires -0x20_0000_0000_0000int <= vx <= 0x20_0000_0000_0000int,
                        -0x8000_0000_0000_0000int <= self.length <= 0x8000_0000_0000_0000int;
                assert(-0x10_0000_0000_0000_0000_0000_0000_0000 <= vy * self.length <= 0x10_0000_0000_0000_0000_0000_0000_0000) by (nonlinear_arith)
                    requires -0x20_0000_0000_0000int <= vy <= 0x20_0000_0000_0000int,
                        -0x8000_0000_0000_0000int <= self.length <= 0x8000_0000_0000_0000int;
            }
            let a = floor_div(vx * self.length as i128, len);
            let b = floor_div(vy * self.length as i128, len);
            proof {
                crate::fixed::lemma_div_shrinks(vx * self.length, len as int);
                crate::fixed::lemma_div_shrinks(vy * self.length, len as int);
            }
            (a, b)
        };
        let qx = clamp_to_world(px as i128 + ox);
        let qy = clamp_to_world(py as i128 + oy);
        let s = w.wots_sub(px, py);
        let e = w.wots_sub(qx, qy);
        ((s.0 + hx, s.1 + hy), (e.0 + hx, e.1 + hy))
    }
}

} // verus!
