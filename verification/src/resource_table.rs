//! A table of resources registered under fresh handles, with a map from glyph ids to
//! the masks registered for them.
use vstd::prelude::*;
use std::collections::HashMap;
use crate::drawing::{Handle, MaskId, SurfaceId};

verus! {

broadcast use vstd::std_specs::hash::group_hash_axioms;

/// Resources by handle, and glyph masks by glyph id. Handles are handed out in order,
/// from key 0, all of generation 0; surfaces and masks share them.
pub struct ResourceTable<S> {
    key_source: Handle,
    surfaces: Vec<S>,
    glyph_map: HashMap<u32, MaskId>,
}

impl<S> ResourceTable<S> {
    /// The handle the next registration will hand out.
    pub closed spec fn next_handle(&self) -> Handle {
        self.key_source
    }

    /// The registered resources, by handle.
    pub closed spec fn resources(&self) -> Map<Handle, S> {
        Map::new(
            |h: Handle| h.generation == 0 && h.key < self.surfaces@.len(),
            |h: Handle| self.surfaces@[h.key as int],
        )
    }

    /// The masks registered for glyphs, by glyph id.
    pub closed spec fn glyphs(&self) -> Map<u32, MaskId> {
        self.glyph_map@
    }

    /// The next handle follows the handles handed out so far.
    pub closed spec fn wf(&self) -> bool {
        self.key_source.generation == 0 && self.key_source.key == self.surfaces@.len()
    }

    /// An empty table whose first handle has key 0.
    pub fn new() -> (t: ResourceTable<S>)
        ensures
            t.wf(),
            t.next_handle() == (Handle { generation: 0, key: 0 }),
            t.resources() == Map::<Handle, S>::empty(),
            t.glyphs() == Map::<u32, MaskId>::empty(),
    {
        let t = ResourceTable { key_source: Handle::new(0), surfaces: Vec::new(), glyph_map: HashMap::new() };
        assert(t.resources() =~= Map::<Handle, S>::empty());
        t
    }

    fn register(&mut self, surface: S) -> (key: Handle)
        requires
            old(self).wf(),
            old(self).next_handle().key < usize::MAX,
        ensures
            final(self).wf(),
            key == old(self).next_handle(),
            !old(self).resources().contains_key(key),
            final(self).resources() == old(self).resources().insert(key, surface),
            final(self).glyphs() == old(self).glyphs(),
            final(self).next_handle().key == old(self).next_handle().key + 1,
    {
        let key = self.key_source.next();
        self.surfaces.push(surface);
        proof {
            assert(!old(self).resources().dom().contains(key));
            assert(self.resources() =~= old(self).resources().insert(key, surface));
        }
        key
    }

    /// Registers `surface` under a fresh handle and returns the handle.
    pub fn register_surface(&mut self, surface: S) -> (key: SurfaceId)
        requires
            old(self).wf(),
            old(self).next_handle().key < usize::MAX,
        ensures
            final(self).wf(),
            key == old(self).next_handle(),
            !old(self).resources().contains_key(key),
            final(self).resources() == old(self).resources().insert(key, surface),
            final(self).glyphs() == old(self).glyphs(),
            final(self).next_handle().key == old(self).next_handle().key + 1,
    {
        self.register(surface)
    }

    /// Registers the mask `surface` under a fresh handle and returns the handle.
    pub fn register_mask(&mut self, surface: S) -> (key: MaskId)
        requires
            old(self).wf(),
            old(self).next_handle().key < usize::MAX,
        ensures
            final(self).wf(),
            key == old(self).next_handle(),
            !old(self).resources().contains_key(key),
            final(self).resources() == old(self).resources().insert(key, surface),
            final(self).glyphs() == old(self).glyphs(),
            final(self).next_handle().key == old(self).next_handle().key + 1,
    {
        self.register(surface)
    }

    /// Registers the mask of glyph `glyph_id` under a fresh handle and remembers it as
    /// that glyph's mask.
    pub fn register_glyph(&mut self, glyph_id: u32, surface: S)
        requires
            old(self).wf(),
            old(self).next_handle().key < usize::MAX,
        ensures
            final(self).wf(),
            final(self).resources() == old(self).resources().insert(old(self).next_handle(), surface),
            final(self).glyphs() == old(self).glyphs().insert(glyph_id, old(self).next_handle()),
            final(self).next_handle().key == old(self).next_handle().key + 1,
    {
        let mask_id = self.register_mask(surface);
        self.glyph_map.insert(glyph_id, mask_id);
    }

    /// The mask registered for glyph `glyph_id`, if any.
    pub fn get_mask_id_for_glyph(&self, glyph_id: u32) -> (r: Option<MaskId>)
        ensures
            match r {
                Some(m) => self.glyphs().contains_key(glyph_id) && m == self.glyphs()[glyph_id],
                None => !self.glyphs().contains_key(glyph_id),
            },
    {
        match self.glyph_map.get(&glyph_id) {
            Some(mask_id) => Some(*mask_id),
            None => None,
        }
    }
}

/// After a registration, the handle it returned is registered, to what was registered,
/// and every other handle is registered as it was before; so getting by that handle
/// gives a copy of what was registered.
pub proof fn law_get_after_register<S>(
    before: Map<Handle, S>,
    after: Map<Handle, S>,
    key: Handle,
    surface: S,
    other: Handle,
)
    requires
        after == before.insert(key, surface),
    ensures
        after.contains_key(key),
        after[key] == surface,
        other != key ==> after.contains_key(other) == before.contains_key(other),
        other != key && before.contains_key(other) ==> after[other] == before[other],
{
}

impl<S: Clone> ResourceTable<S> {
    /// A copy of the surface registered under `surface_id`, which must be registered.
    pub fn get_surface(&self, surface_id: SurfaceId) -> (s: S)
        requires
            self.resources().contains_key(surface_id),
        ensures
            cloned(self.resources()[surface_id], s),
    {
        self.surfaces[surface_id.key].clone()
    }

    /// A copy of the mask registered under `mask_id`, which must be registered.
    pub fn get_mask(&self, mask_id: MaskId) -> (s: S)
        requires
            self.resources().contains_key(mask_id),
        ensures
            cloned(self.resources()[mask_id], s),
    {
        self.surfaces[mask_id.key].clone()
    }
}

} // verus!
