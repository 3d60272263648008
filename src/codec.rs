//! The world file format.
//!
//! A world file holds, in order: the magic bytes `FA DE 00 FF`; the map's
//! width and height, one byte each; a two-byte marker, `00 00` for no
//! permission data or `DA D7` for three tile-id lists (prohibited, healing,
//! damaging), each a count byte followed by that many ids; width times
//! height tile ids, row by row; four texts (title, introduction, victory,
//! defeat), each a big-endian two-byte length followed by that many bytes
//! of UTF-8; and game-object records, each the marker `FE ED` followed by
//! a kind, a parameter and the x and y of a tile. A missing or different
//! marker ends the records. Kind 0 is a static (the parameter is its
//! texture), 1 a player unit and 2 an enemy unit (the parameter is the unit
//! type); other kinds are skipped.

use vstd::prelude::*;
use crate::tiles::{TileType, TileMap, N_TILE_IDS};
use crate::entity::Unit;
use crate::world::{World, StaticTex, SpawnError, N_IDS, create_static, spawn_unit, fresh_unit, PLAYER_TINT, ENEMY_TINT};

verus! {

/// Why a world file was refused.
#[derive(Clone, Copy, Debug, PartialEq, Eq, Structural)]
pub enum LoadError {
    /// The file does not begin with the magic bytes.
    BadMagic,
    /// The width and height are missing.
    MissingSize,
    /// The permission marker is missing.
    MissingPermMarker,
    /// The permission marker is neither `00 00` nor `DA D7`.
    BadPermMarker,
    /// A tile-id list is cut short.
    TruncatedTileList,
    /// The tile data is cut short.
    TruncatedTiles,
    /// A text is cut short.
    TruncatedText,
    /// A text is not valid UTF-8.
    BadText,
    /// A game-object record is cut short.
    TruncatedObject,
    /// A unit of a game-object record could not be spawned.
    Spawn(SpawnError),
}

/// A game-object record.
#[derive(Clone, Copy, Debug, PartialEq, Eq, Structural)]
pub struct GameObject {
    pub kind: u8,
    pub param: u8,
    pub x: u8,
    pub y: u8,
}

/// What a map section of a world file says.
pub struct MapModel {
    pub width: nat,
    pub height: nat,
    pub perm: Seq<TileType>,
    pub tiles: Seq<u8>,
    pub title: Seq<char>,
    pub intro: Seq<char>,
    pub victory: Seq<char>,
    pub defeat: Seq<char>,
}

/// Relies on `String::from_utf8`: it accepts exactly the valid UTF-8 byte
/// strings and decodes them.
#[verifier::external_body]
fn utf8_string(b: Vec<u8>) -> (r: Option<String>)
    ensures
        r is Some <==> vstd::utf8::valid_utf8(b@),
        r is Some ==> r.unwrap()@ == vstd::utf8::decode_utf8(b@),
{
    String::from_utf8(b).ok()
}

/// Classification of every tile id given the three lists; a later list
/// wins over an earlier one.
pub open spec fn perm_of(p: Seq<u8>, h: Seq<u8>, d: Seq<u8>) -> Seq<TileType> {
    Seq::new(N_TILE_IDS as nat, |i: int|
        if d.contains(i as u8) {
            TileType::Damage
        } else if h.contains(i as u8) {
            TileType::Heal
        } else if p.contains(i as u8) {
            TileType::Prohibited
        } else {
            TileType::Allowed
        })
}

/// The tile-id list at `pos` and the position after it.
pub open spec fn tile_list(d: Seq<u8>, pos: int) -> Option<(Seq<u8>, int)> {
    if pos < d.len() && pos + 1 + d[pos] <= d.len() {
        Some((d.subrange(pos + 1, pos + 1 + d[pos]), pos + 1 + d[pos]))
    } else {
        None
    }
}

/// The permission section at offset 6, and the position after it.
pub open spec fn perm_section(d: Seq<u8>) -> Result<(Seq<TileType>, int), LoadError> {
    if d.len() < 8 {
        Err(LoadError::MissingPermMarker)
    } else if d[6] == 0 && d[7] == 0 {
        Ok((perm_of(Seq::empty(), Seq::empty(), Seq::empty()), 8))
    } else if d[6] != 0xda || d[7] != 0xd7 {
        Err(LoadError::BadPermMarker)
    } else {
        match tile_list(d, 8) {
            None => Err(LoadError::TruncatedTileList),
            Some((p, q1)) => match tile_list(d, q1) {
                None => Err(LoadError::TruncatedTileList),
                Some((h, q2)) => match tile_list(d, q2) {
                    None => Err(LoadError::TruncatedTileList),
                    Some((dm, q3)) => Ok((perm_of(p, h, dm), q3)),
                },
            },
        }
    }
}

/// The text at `pos` and the position after it.
pub open spec fn text_at(d: Seq<u8>, pos: int) -> Result<(Seq<char>, int), LoadError> {
    if pos + 2 > d.len() {
        Err(LoadError::TruncatedText)
    } else {
        let n = d[pos] * 256 + d[pos + 1];
        if pos + 2 + n > d.len() {
            Err(LoadError::TruncatedText)
        } else {
            let b = d.subrange(pos + 2, pos + 2 + n);
            if vstd::utf8::valid_utf8(b) {
                Ok((vstd::utf8::decode_utf8(b), pos + 2 + n))
            } else {
                Err(LoadError::BadText)
            }
        }
    }
}

/// The map section of a world file and the position of its first
/// game-object record.
pub open spec fn decode_header(d: Seq<u8>) -> Result<(MapModel, int), LoadError> {
    if d.len() < 4 || d[0] != 0xfa || d[1] != 0xde || d[2] != 0x00 || d[3] != 0xff {
        Err(LoadError::BadMagic)
    } else if d.len() < 6 {
        Err(LoadError::MissingSize)
    } else {
        let w = d[4] as nat;
        let h = d[5] as nat;
        match perm_section(d) {
            Err(e) => Err(e),
            Ok((perm, p0)) => if p0 + w * h > d.len() {
                Err(LoadError::TruncatedTiles)
            } else {
                let tiles = d.subrange(p0, p0 + w * h);
                let p1 = p0 + w * h;
                match text_at(d, p1) {
                    Err(e) => Err(e),
                    Ok((title, p2)) => match text_at(d, p2) {
                        Err(e) => Err(e),
                        Ok((intro, p3)) => match text_at(d, p3) {
                            Err(e) => Err(e),
                            Ok((victory, p4)) => match text_at(d, p4) {
                                Err(e) => Err(e),
                                Ok((defeat, p5)) => Ok((
                                    MapModel { width: w, height: h, perm, tiles, title, intro, victory, defeat },
                                    p5,
                                )),
                            },
                        },
                    },
                }
            },
        }
    }
}

/// The game-object records from `pos` on, and whether the last one is cut
/// short.
pub open spec fn objects_from(d: Seq<u8>, pos: int) -> (Seq<GameObject>, bool)
    decreases d.len() - pos,
{
    if pos < 0 || pos + 2 > d.len() || d[pos] != 0xfe || d[pos + 1] != 0xed {
        (Seq::empty(), false)
    } else if pos + 6 > d.len() {
        (Seq::empty(), true)
    } else {
        let rest = objects_from(d, pos + 6);
        (seq![GameObject { kind: d[pos + 2], param: d[pos + 3], x: d[pos + 4], y: d[pos + 5] }] + rest.0, rest.1)
    }
}

impl TileMap {
    /// What the map holds.
    pub open spec fn model(&self) -> MapModel {
        MapModel {
            width: self.map_width as nat,
            height: self.map_height as nat,
            perm: self.tile_perm@,
            tiles: self.map_tiles@,
            title: self.title@,
            intro: self.intro_text@,
            victory: self.victory_text@,
            defeat: self.defeat_text@,
        }
    }
}

/// Read the tile-id list at `pos` into `perm`, with classification `tt`.
fn read_tilelist(data: &[u8], pos: usize, perm: &mut Vec<TileType>, tt: TileType) -> (r: Option<usize>)
    requires
        old(perm)@.len() == N_TILE_IDS,
    ensures
        final(perm)@.len() == N_TILE_IDS,
        match tile_list(data@, pos as int) {
            None => r is None,
            Some((l, q)) => r == Some(q as usize) && forall|i: int| 0 <= i < N_TILE_IDS ==>
                #[trigger] final(perm)@[i] == if l.contains(i as u8) { tt } else { old(perm)@[i] },
        },
{
    if pos >= data.len() {
        return None;
    }
    let n = data[pos] as usize;
    if n > data.len() - pos - 1 {
        return None;
    }
    let ghost l = data@.subrange(pos + 1, pos + 1 + n);
    let dl = data.len();
    let mut k: usize = 0;
    while k < n
        invariant
            dl == data@.len(),
            pos + 1 + n <= data@.len(),
            l == data@.subrange(pos + 1, pos + 1 + n),
            k <= n,
            perm@.len() == N_TILE_IDS,
            forall|i: int| 0 <= i < N_TILE_IDS ==>
                #[trigger] perm@[i] == if l.take(k as int).contains(i as u8) { tt } else { old(perm)@[i] },
        decreases n - k,
    {
        let id = data[pos + 1 + k];
        let ghost before = perm@;
        perm.set(id as usize, tt);
        proof {
            assert(l.take(k + 1) == l.take(k as int).push(id));
            assert forall|i: int| 0 <= i < N_TILE_IDS implies
                #[trigger] perm@[i] == if l.take(k + 1).contains(i as u8) { tt } else { old(perm)@[i] } by {
                if i == id as int {
                    assert(l.take(k + 1)[k as int] == id);
                } else {
                    let l1 = l.take(k + 1);
                    let l0 = l.take(k as int);
                    if l1.contains(i as u8) {
                        let j = choose|j: int| 0 <= j < l1.len() && #[trigger] l1[j] == i as u8;
                        assert(j < k);
                        assert(l0[j] == i as u8);
                    }
                    if l0.contains(i as u8) {
                        let j = choose|j: int| 0 <= j < l0.len() && #[trigger] l0[j] == i as u8;
                        assert(l1[j] == i as u8);
                    }
                }
            }
        }
        k = k + 1;
    }
    assert(l.take(n as int) == l);
    Some(pos + 1 + n)
}

/// Copy `data[from..from + n]` into a vector.
fn copy_bytes(data: &[u8], from: usize, n: usize) -> (r: Vec<u8>)
    requires
        from + n <= data@.len(),
    ensures
        r@ == data@.subrange(from as int, from + n),
{
    let mut v: Vec<u8> = Vec::new();
    let dl = data.len();
    let mut k: usize = 0;
    while k < n
        invariant
            dl == data@.len(),
            from + n <= data@.len(),
            k <= n,
            v@ == data@.subrange(from as int, from + k),
        decreases n - k,
    {
        v.push(data[from + k]);
        proof {
            assert(data@.subrange(from as int, from + k + 1) == data@.subrange(from as int, from + k).push(data@[from + k]));
        }
        k = k + 1;
    }
    v
}

/// Read the text at `pos`.
fn read_string(data: &[u8], pos: usize) -> (r: Result<(String, usize), LoadError>)
    ensures
        match text_at(data@, pos as int) {
            Err(e) => r == Err::<(String, usize), LoadError>(e),
            Ok((s, q)) => r matches Ok((t, q2)) && t@ == s && q2 == q,
        },
{
    if data.len() < 2 || pos > data.len() - 2 {
        return Err(LoadError::TruncatedText);
    }
    let n: usize = (data[pos] as usize) * 256 + data[pos + 1] as usize;
    if n > data.len() - pos - 2 {
        return Err(LoadError::TruncatedText);
    }
    let b = copy_bytes(data, pos + 2, n);
    match utf8_string(b) {
        None => Err(LoadError::BadText),
        Some(s) => Ok((s, pos + 2 + n)),
    }
}

/// Decode the map section of a world file: the map, and the position of
/// the first game-object record.
pub fn decode_map(data: &[u8]) -> (r: Result<(TileMap, usize), LoadError>)
    ensures
        match decode_header(data@) {
            Err(e) => r == Err::<(TileMap, usize), LoadError>(e),
            Ok((m, p)) => r matches Ok((t, q)) && t.model() == m && t.show && t.wf() && q == p,
        },
{
    if data.len() < 4 || data[0] != 0xfa || data[1] != 0xde || data[2] != 0x00 || data[3] != 0xff {
        return Err(LoadError::BadMagic);
    }
    if data.len() < 6 {
        return Err(LoadError::MissingSize);
    }
    let w = data[4] as usize;
    let h = data[5] as usize;
    if data.len() < 8 {
        return Err(LoadError::MissingPermMarker);
    }
    let mut perm = crate::tiles::all_allowed();
    let mut pos: usize = 8;
    if data[6] == 0 && data[7] == 0 {
        proof {
            assert(perm@ == perm_of(Seq::empty(), Seq::empty(), Seq::empty()));
        }
    } else if data[6] != 0xda || data[7] != 0xd7 {
        return Err(LoadError::BadPermMarker);
    } else {
        let ghost p0 = perm@;
        let q1 = match read_tilelist(data, 8, &mut perm, TileType::Prohibited) {
            None => { return Err(LoadError::TruncatedTileList); },
            Some(q) => q,
        };
        let ghost p1 = perm@;
        let q2 = match read_tilelist(data, q1, &mut perm, TileType::Heal) {
            None => { return Err(LoadError::TruncatedTileList); },
            Some(q) => q,
        };
        let ghost p2 = perm@;
        let q3 = match read_tilelist(data, q2, &mut perm, TileType::Damage) {
            None => { return Err(LoadError::TruncatedTileList); },
            Some(q) => q,
        };
        proof {
            let (lp, _a) = tile_list(data@, 8).unwrap();
            let (lh, _b) = tile_list(data@, q1 as int).unwrap();
            let (ld, _c) = tile_list(data@, q2 as int).unwrap();
            assert(perm@ == perm_of(lp, lh, ld));
        }
        pos = q3;
    }
    assert(w * h <= 255 * 255) by (nonlinear_arith)
        requires w <= 255, h <= 255;
    let n = w * h;
    if n > data.len() - pos {
        return Err(LoadError::TruncatedTiles);
    }
    let tiles = copy_bytes(data, pos, n);
    pos = pos + n;
    let (title, p2) = match read_string(data, pos) {
        Err(e) => { return Err(e); },
        Ok(x) => x,
    };
    let (intro_text, p3) = match read_string(data, p2) {
        Err(e) => { return Err(e); },
        Ok(x) => x,
    };
    let (victory_text, p4) = match read_string(data, p3) {
        Err(e) => { return Err(e); },
        Ok(x) => x,
    };
    let (defeat_text, p5) = match read_string(data, p4) {
        Err(e) => { return Err(e); },
        Ok(x) => x,
    };
    let map = TileMap {
        map_width: w,
        map_height: h,
        map_tiles: tiles,
        tile_perm: perm,
        title,
        intro_text,
        victory_text,
        defeat_text,
        show: true,
    };
    Ok((map, p5))
}

/// Decode the game-object records from `pos` on; the flag tells whether
/// the last one is cut short.
pub fn decode_objects(data: &[u8], pos: usize) -> (r: (Vec<GameObject>, bool))
    ensures
        r.0@ == objects_from(data@, pos as int).0,
        r.1 == objects_from(data@, pos as int).1,
{
    let mut v: Vec<GameObject> = Vec::new();
    let mut p: usize = pos;
    loop
        invariant
            p <= data@.len() || p == pos,
            v@ + objects_from(data@, p as int).0 == objects_from(data@, pos as int).0,
            objects_from(data@, p as int).1 == objects_from(data@, pos as int).1,
        decreases data@.len() - p,
    {
        if p >= data.len() || data.len() - p < 2 || data[p] != 0xfe || data[p + 1] != 0xed {
            assert(objects_from(data@, p as int).0.len() == 0);
            assert(v@ + Seq::<GameObject>::empty() == v@);
            return (v, false);
        }
        if data.len() - p < 6 {
            assert(v@ + Seq::<GameObject>::empty() == v@);
            return (v, true);
        }
        let g = GameObject { kind: data[p + 2], param: data[p + 3], x: data[p + 4], y: data[p + 5] };
        proof {
            let rest = objects_from(data@, p + 6);
            assert(objects_from(data@, p as int).0 == seq![g] + rest.0);
            assert(v@.push(g) + rest.0 == v@ + (seq![g] + rest.0));
        }
        v.push(g);
        p = p + 6;
    }
}

/// The statics among the records, in order.
pub open spec fn statics_of(recs: Seq<GameObject>) -> Seq<StaticTex>
    decreases recs.len(),
{
    if recs.len() == 0 {
        Seq::empty()
    } else {
        let rest = statics_of(recs.drop_last());
        let g = recs.last();
        if g.kind == 0 {
            rest.push(StaticTex { tex_id: g.param, wx: g.x as i32, wy: g.y as i32 })
        } else {
            rest
        }
    }
}

/// The record places a unit.
pub open spec fn is_unit_rec(g: GameObject) -> bool {
    g.kind == 1 || g.kind == 2
}

/// Number of unit records.
pub open spec fn n_unit_recs(recs: Seq<GameObject>) -> nat
    decreases recs.len(),
{
    if recs.len() == 0 {
        0
    } else {
        n_unit_recs(recs.drop_last()) + if is_unit_rec(recs.last()) { 1nat } else { 0nat }
    }
}

/// Number of free unit ids.
pub open spec fn n_free(units: Seq<Option<Unit>>) -> nat
    decreases units.len(),
{
    if units.len() == 0 {
        0
    } else {
        n_free(units.drop_last()) + if units.last() is None { 1nat } else { 0nat }
    }
}

/// Filling a free slot leaves one free id fewer.
proof fn lemma_n_free_fill(units: Seq<Option<Unit>>, i: int, u: Unit)
    requires
        0 <= i < units.len(),
        units[i] is None,
    ensures
        n_free(units.update(i, Some(u))) + 1 == n_free(units),
    decreases units.len(),
{
    let v = units.update(i, Some(u));
    if i == units.len() - 1 {
        assert(v.drop_last() == units.drop_last());
    } else {
        assert(v.drop_last() == units.drop_last().update(i, Some(u)));
        lemma_n_free_fill(units.drop_last(), i, u);
    }
}

/// A full id space has no free id.
proof fn lemma_full_n_free(units: Seq<Option<Unit>>)
    requires
        forall|i: int| 0 <= i < units.len() ==> #[trigger] units[i] is Some,
    ensures
        n_free(units) == 0,
    decreases units.len(),
{
    if units.len() > 0 {
        assert forall|i: int| 0 <= i < units.drop_last().len() implies #[trigger] units.drop_last()[i] is Some by {
            assert(units[i] is Some);
        }
        lemma_full_n_free(units.drop_last());
    }
}

/// Every unit record names a registered unit type.
pub open spec fn types_known(types: Seq<Option<crate::entity::UnitType>>, recs: Seq<GameObject>) -> bool {
    forall|i: int| 0 <= i < recs.len() && #[trigger] is_unit_rec(recs[i]) ==> types[recs[i].param as int] is Some
}

/// The unit a unit record places: of the record's type at full health, on
/// the record's tile, the player's and white for kind 1, the enemy's and red
/// for kind 2.
pub open spec fn rec_unit(g: GameObject, types: Seq<Option<crate::entity::UnitType>>) -> Unit {
    fresh_unit(g.param, g.x as i32, g.y as i32, if g.kind == 1 { PLAYER_TINT } else { ENEMY_TINT }, g.kind == 1,
        types[g.param as int]->0.max_health)
}

/// The units after the unit records of `recs` are placed, in order, under
/// the ids `ids` (one per record; those of other records are unused).
pub open spec fn place(units: Seq<Option<Unit>>, types: Seq<Option<crate::entity::UnitType>>, recs: Seq<GameObject>, ids: Seq<u8>) -> Seq<Option<Unit>>
    decreases recs.len(),
{
    if recs.len() == 0 || ids.len() == 0 {
        units
    } else {
        let rest = place(units, types, recs.drop_last(), ids.drop_last());
        if is_unit_rec(recs.last()) {
            rest.update(ids.last() as int, Some(rec_unit(recs.last(), types)))
        } else {
            rest
        }
    }
}

/// The ids of the unit records were free in `units` and are all different.
pub open spec fn fresh_ids(units: Seq<Option<Unit>>, recs: Seq<GameObject>, ids: Seq<u8>) -> bool {
    &&& ids.len() == recs.len()
    &&& forall|k: int| 0 <= k < recs.len() && #[trigger] is_unit_rec(recs[k]) ==> units[ids[k] as int] is None
    &&& forall|j: int, k: int| 0 <= j < k < recs.len() && #[trigger] is_unit_rec(recs[j]) && #[trigger] is_unit_rec(recs[k])
        ==> ids[j] != ids[k]
}

/// What loading the world file `d` into `w0` with result `r` leaves in
/// `w1`.
///
/// On a malformed map section nothing changes. Otherwise the map is
/// installed and shown, then the game objects are placed one by one: a
/// static for kind 0, a unit (see `rec_unit`) under a free id for kinds 1
/// and 2, nothing for other kinds. A cut-short record, or a unit that cannot
/// be spawned, ends the load with an error; what was placed before stays.
pub open spec fn load_post(w0: World, w1: World, d: Seq<u8>, r: Result<(), LoadError>) -> bool {
    match decode_header(d) {
        Err(e) => r == Err::<(), LoadError>(e) && w1 == w0,
        Ok((m, p)) => {
            let recs = objects_from(d, p).0;
            let cut = objects_from(d, p).1;
            &&& w1.tilemap.model() == m
            &&& w1.tilemap.show
            &&& w1.unit_types@ == w0.unit_types@
            &&& exists|k: int, ids: Seq<u8>| {
                &&& 0 <= k <= recs.len()
                &&& #[trigger] fresh_ids(w0.units@, recs.take(k), ids)
                &&& w1.units@ == place(w0.units@, w0.unit_types@, recs.take(k), ids)
                &&& w1.statics@ == w0.statics@ + statics_of(recs.take(k))
                &&& (r is Ok || r == Err::<(), LoadError>(LoadError::TruncatedObject)) ==> k == recs.len()
            }
            &&& r is Ok ==> !cut
            &&& r == Err::<(), LoadError>(LoadError::TruncatedObject) ==> cut
            &&& r == Err::<(), LoadError>(LoadError::Spawn(SpawnError::UnknownUnitType)) ==> !types_known(w0.unit_types@, recs)
            &&& r == Err::<(), LoadError>(LoadError::Spawn(SpawnError::NoFreeId)) ==> n_unit_recs(recs) > n_free(w0.units@)
            &&& types_known(w0.unit_types@, recs) && n_unit_recs(recs) <= n_free(w0.units@) ==>
                r == if cut { Err::<(), LoadError>(LoadError::TruncatedObject) } else { Ok(()) }
            &&& r is Err ==> r->Err_0 is TruncatedObject || r->Err_0 is Spawn
        },
    }
}

/// Load a world file into `w`: see `load_post`.
pub fn load_world_bytes(w: &mut World, data: &[u8]) -> (r: Result<(), LoadError>)
    requires
        old(w).wf(),
    ensures
        final(w).wf(),
        load_post(*old(w), *final(w), data@, r),
{
    let (map, pos) = match decode_map(data) {
        Err(e) => { return Err(e); },
        Ok(x) => x,
    };
    w.tilemap = map;
    let ghost w0 = *w;
    let (recs, cut) = decode_objects(data, pos);
    let ghost hd = decode_header(data@);
    let ghost mut ids: Seq<u8> = Seq::empty();
    let mut i: usize = 0;
    assert(recs@.take(0) == Seq::<GameObject>::empty());
    while i < recs.len()
        invariant
            hd == decode_header(data@),
            hd matches Ok((m, p)) && p == pos && w0.tilemap.model() == m && w0.tilemap.show,
            recs@ == objects_from(data@, pos as int).0,
            cut == objects_from(data@, pos as int).1,
            w.wf(),
            w.tilemap == w0.tilemap,
            w.unit_types@ == w0.unit_types@,
            w0.units@ == old(w).units@,
            w0.statics@ == old(w).statics@,
            w0.unit_types@ == old(w).unit_types@,
            i <= recs@.len(),
            w.statics@ == w0.statics@ + statics_of(recs@.take(i as int)),
            types_known(w0.unit_types@, recs@.take(i as int)),
            n_free(w.units@) + n_unit_recs(recs@.take(i as int)) == n_free(w0.units@),
            forall|j: int| 0 <= j < N_IDS && w0.units@[j] is Some ==> #[trigger] w.units@[j] == w0.units@[j],
            fresh_ids(w0.units@, recs@.take(i as int), ids),
            w.units@ == place(w0.units@, w0.unit_types@, recs@.take(i as int), ids),
            forall|k: int| 0 <= k < i && #[trigger] is_unit_rec(recs@[k]) ==> w.units@[ids[k] as int] is Some,
        decreases recs@.len() - i,
    {
        let g = recs[i];
        let ghost w1 = *w;
        let ghost pre = recs@.take(i as int);
        let ghost post = recs@.take(i + 1);
        proof {
            assert(post.drop_last() == pre);
            assert(post.last() == g);
        }
        let mut gid: u8 = 0;
        if g.kind == 0 {
            create_static(w, g.param, (g.x as i32, g.y as i32));
        } else if g.kind == 1 || g.kind == 2 {
            let tint = if g.kind == 1 { PLAYER_TINT } else { ENEMY_TINT };
            match spawn_unit(w, g.param, (g.x as i32, g.y as i32), tint, g.kind == 1) {
                Err(e) => {
                    proof {
                        if e == SpawnError::UnknownUnitType {
                            assert(is_unit_rec(recs@[i as int]));
                        } else {
                            lemma_full_n_free(w1.units@);
                            lemma_n_unit_recs_prefix(recs@, i as int + 1);
                        }
                        assert(fresh_ids(w0.units@, recs@.take(i as int), ids));
                    }
                    return Err(LoadError::Spawn(e));
                },
                Ok(id) => {
                    gid = id;
                    proof {
                        lemma_n_free_fill(w1.units@, id as int, w.units@[id as int]->0);
                    }
                },
            }
        }
        proof {
            let ids2 = ids.push(gid);
            assert(ids2.drop_last() == ids);
            assert(ids2.last() == gid);
            assert(w.units@ == place(w0.units@, w0.unit_types@, post, ids2));
            assert forall|k: int| 0 <= k < post.len() && #[trigger] is_unit_rec(post[k]) implies w0.units@[ids2[k] as int] is None by {
                if k < i {
                    assert(pre[k] == post[k]);
                    assert(is_unit_rec(pre[k]));
                } else {
                    assert(w1.units@[gid as int] is None);
                    if w0.units@[gid as int] is Some {
                        assert(w1.units@[gid as int] == w0.units@[gid as int]);
                    }
                }
            }
            assert forall|j: int, k: int| 0 <= j < k < post.len() && #[trigger] is_unit_rec(post[j]) && #[trigger] is_unit_rec(post[k])
                implies ids2[j] != ids2[k] by {
                assert(pre[j] == post[j]);
                if k < i {
                    assert(pre[k] == post[k]);
                    assert(is_unit_rec(pre[j]) && is_unit_rec(pre[k]));
                } else {
                    assert(is_unit_rec(recs@[j]));
                    assert(w1.units@[ids[j] as int] is Some);
                }
            }
            assert(fresh_ids(w0.units@, post, ids2));
            assert forall|k: int| 0 <= k < i + 1 && #[trigger] is_unit_rec(recs@[k]) implies w.units@[ids2[k] as int] is Some by {
                if k < i {
                    assert(w1.units@[ids[k] as int] is Some);
                }
            }
            ids = ids2;
            assert forall|j: int| 0 <= j < i + 1 && #[trigger] is_unit_rec(recs@.take(i + 1)[j]) implies
                w0.unit_types@[recs@.take(i + 1)[j].param as int] is Some by {
                if j < i {
                    assert(recs@.take(i as int)[j] == recs@.take(i + 1)[j]);
                }
            }
        }
        i = i + 1;
    }
    proof {
        assert(recs@.take(recs@.len() as int) == recs@);
    }
    if cut {
        return Err(LoadError::TruncatedObject);
    }
    Ok(())
}

/// Unit records of a prefix are no more than those of the whole.
proof fn lemma_n_unit_recs_prefix(recs: Seq<GameObject>, k: int)
    requires
        0 <= k <= recs.len(),
    ensures
        n_unit_recs(recs.take(k)) <= n_unit_recs(recs),
    decreases recs.len(),
{
    if k < recs.len() {
        assert(recs.drop_last().take(k) == recs.take(k));
        lemma_n_unit_recs_prefix(recs.drop_last(), k);
    } else {
        assert(recs.take(k) == recs);
    }
}

/// Load a world file into `w`; true when it loaded without error. See
/// `load_post`.
pub fn load_world(w: &mut World, data: &[u8]) -> (r: bool)
    requires
        old(w).wf(),
    ensures
        final(w).wf(),
        exists|res: Result<(), LoadError>| #[trigger] load_post(*old(w), *final(w), data@, res) && r == res is Ok,
{
    let res = load_world_bytes(w, data);
    res.is_ok()
}

} // verus!
