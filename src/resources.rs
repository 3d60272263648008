//! The resource catalogue: which texture, font, sound and music files to
//! load under which one-byte ids, texture regions, and the default texture
//! and font.

use vstd::prelude::*;

verus! {

/// Kind of a resource file.
#[derive(Clone, Copy, Debug, PartialEq, Eq, Structural)]
pub enum ResType {
    Tex,
    Fnt,
    Snd,
    Mus,
}

/// Number of resource ids.
pub const N_RES_IDS: usize = 256;

/// Reserved texture id of the tileset.
pub const TEX_TILESET: u8 = 0xf0;
/// Reserved texture id of the cursor that marks the selected tile.
pub const TEX_SELECT: u8 = 0xf1;
/// Reserved texture id of the background of the unit panel.
pub const TEX_PANEL: u8 = 0xf2;
/// Reserved texture id of the overlay of tiles in movement range.
pub const TEX_MOVE: u8 = 0xf3;
/// Reserved texture id of the overlay of tiles in attack range.
pub const TEX_ATTACK: u8 = 0xf4;
/// Reserved texture id of the introduction text box.
pub const TEX_INTRO: u8 = 0xf5;
/// Reserved texture id of the victory and defeat text box.
pub const TEX_ENDING: u8 = 0xf6;
/// Reserved texture id of the unit type information window.
pub const TEX_INFO: u8 = 0xf8;
/// Reserved sound id played when a unit is selected.
pub const SND_SELECT: u8 = 0xff;

/// Resource files to load, texture regions and defaults.
pub struct ResourceSet {
    /// Files to load once a graphics context exists, in mapping order.
    pub to_load: Vec<(u8, ResType, String)>,
    /// Texture regions, indexed by id: the parent texture and the region
    /// `(x, y, width, height)`.
    pub texrec: Vec<Option<(u8, (i32, i32, i32, i32))>>,
    /// Texture returned for ids that are not loaded.
    pub deftex: u8,
    /// Font used for the interface.
    pub deffont: u8,
}

impl ResourceSet {
    /// Nothing mapped; the defaults are id 0.
    pub fn new() -> (r: ResourceSet)
        ensures
            r.wf(),
            r.to_load@.len() == 0,
            forall|i: int| 0 <= i < N_RES_IDS ==> r.texrec@[i] is None,
            r.deftex == 0,
            r.deffont == 0,
    {
        let mut texrec: Vec<Option<(u8, (i32, i32, i32, i32))>> = Vec::new();
        while texrec.len() < N_RES_IDS
            invariant
                texrec@.len() <= N_RES_IDS,
                forall|i: int| 0 <= i < texrec@.len() ==> texrec@[i] is None,
            decreases N_RES_IDS - texrec@.len(),
        {
            texrec.push(None);
        }
        ResourceSet { to_load: Vec::new(), texrec, deftex: 0, deffont: 0 }
    }

    /// One region slot per id.
    pub open spec fn wf(&self) -> bool {
        self.texrec@.len() == N_RES_IDS
    }

    /// Queue `(id, kind, path)` for loading.
    fn queue(&mut self, id: u8, kind: ResType, path: &str)
        ensures
            final(self).to_load@.len() == old(self).to_load@.len() + 1,
            final(self).to_load@.drop_last() == old(self).to_load@,
            final(self).to_load@.last().0 == id,
            final(self).to_load@.last().1 == kind,
            final(self).to_load@.last().2@ == path@,
            final(self).texrec@ == old(self).texrec@,
            final(self).deftex == old(self).deftex,
            final(self).deffont == old(self).deffont,
    {
        let p = path.to_owned();
        self.to_load.push((id, kind, p));
        assert(self.to_load@.drop_last() == old(self).to_load@);
    }

    /// Map the texture file `path` to `id`; the last texture mapped becomes
    /// the default texture.
    pub fn map_texture(&mut self, id: u8, path: &str)
        ensures
            final(self).to_load@.drop_last() == old(self).to_load@,
            final(self).to_load@.len() == old(self).to_load@.len() + 1,
            final(self).to_load@.last().0 == id,
            final(self).to_load@.last().1 == ResType::Tex,
            final(self).to_load@.last().2@ == path@,
            final(self).deftex == id,
            final(self).deffont == old(self).deffont,
            final(self).texrec@ == old(self).texrec@,
    {
        self.deftex = id;
        self.queue(id, ResType::Tex, path);
    }

    /// Map region `(x, y, w, h)` of texture `tid` to `id`; a region wins
    /// over a texture of the same id when drawing.
    pub fn map_texture_region(&mut self, id: u8, tid: u8, x: i32, y: i32, w: i32, h: i32)
        requires
            old(self).wf(),
        ensures
            final(self).wf(),
            final(self).texrec@ == old(self).texrec@.update(id as int, Some((tid, (x, y, w, h)))),
            final(self).to_load@ == old(self).to_load@,
            final(self).deftex == old(self).deftex,
            final(self).deffont == old(self).deffont,
    {
        self.texrec.set(id as usize, Some((tid, (x, y, w, h))));
    }

    /// True if `id` names a texture region.
    pub fn is_texture_region(&self, id: u8) -> (r: bool)
        requires
            self.wf(),
        ensures
            r == self.texrec@[id as int] is Some,
    {
        self.texrec[id as usize].is_some()
    }

    /// The texture region named `id`.
    pub fn texture_region(&self, id: u8) -> (r: Option<(u8, (i32, i32, i32, i32))>)
        requires
            self.wf(),
        ensures
            r == self.texrec@[id as int],
    {
        self.texrec[id as usize]
    }

    /// Map the font file `path` to `id`; the last font mapped becomes the
    /// interface font.
    pub fn map_font(&mut self, id: u8, path: &str)
        ensures
            final(self).to_load@.drop_last() == old(self).to_load@,
            final(self).to_load@.len() == old(self).to_load@.len() + 1,
            final(self).to_load@.last().0 == id,
            final(self).to_load@.last().1 == ResType::Fnt,
            final(self).to_load@.last().2@ == path@,
            final(self).deffont == id,
            final(self).deftex == old(self).deftex,
            final(self).texrec@ == old(self).texrec@,
    {
        self.deffont = id;
        self.queue(id, ResType::Fnt, path);
    }

    /// Make `id` the default texture.
    pub fn set_default_texture(&mut self, id: u8)
        ensures
            final(self).deftex == id,
            final(self).deffont == old(self).deffont,
            final(self).to_load@ == old(self).to_load@,
            final(self).texrec@ == old(self).texrec@,
    {
        self.deftex = id;
    }

    /// Map the sound file `path` to `id`.
    pub fn map_sound(&mut self, id: u8, path: &str)
        ensures
            final(self).to_load@.drop_last() == old(self).to_load@,
            final(self).to_load@.len() == old(self).to_load@.len() + 1,
            final(self).to_load@.last().0 == id,
            final(self).to_load@.last().1 == ResType::Snd,
            final(self).to_load@.last().2@ == path@,
            final(self).deftex == old(self).deftex,
            final(self).deffont == old(self).deffont,
            final(self).texrec@ == old(self).texrec@,
    {
        self.queue(id, ResType::Snd, path);
    }

    /// Map the music file `path` to `id`.
    pub fn map_music(&mut self, id: u8, path: &str)
        ensures
            final(self).to_load@.drop_last() == old(self).to_load@,
            final(self).to_load@.len() == old(self).to_load@.len() + 1,
            final(self).to_load@.last().0 == id,
            final(self).to_load@.last().1 == ResType::Mus,
            final(self).to_load@.last().2@ == path@,
            final(self).deftex == old(self).deftex,
            final(self).deffont == old(self).deffont,
            final(self).texrec@ == old(self).texrec@,
    {
        self.queue(id, ResType::Mus, path);
    }
}

} // verus!
