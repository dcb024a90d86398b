//! Block types and the registry that hands out their identifiers.

use slab::Slab;
use vstd::prelude::*;

use self::slots::{
    unit_slab_insert, unit_slab_keys, unit_slab_new, unit_slab_next, unit_slab_slots,
    unit_slab_vacant_key,
};
use self::texture::BlockTextureId;

pub mod index;
pub mod pixels;
pub mod slots;
pub mod texture;

verus! {

/// What the mesher needs to know of a block type.
#[derive(Debug, Copy, Clone, Eq, PartialEq, Hash, Ord, PartialOrd)]
pub struct MeshingData {
    /// One texture per face direction, in the order +X, -X, +Y, -Y, +Z, -Z.
    pub textures: [BlockTextureId; 6],
    /// Opacity class: a face is drawn between two blocks exactly when their
    /// classes differ. Class 0 is never drawn.
    pub opacity: u32,
    /// Whether the block takes part in the collision surface.
    pub solid: bool,
}

/// Handle of a block type. `u32::MAX` is the sentinel: no block.
#[derive(Debug, Copy, Clone, Eq, PartialEq, Structural, Hash, Ord, PartialOrd)]
pub struct BlockId(pub u32);

impl Default for BlockId {
    /// The sentinel.
    #[inline]
    fn default() -> (r: Self)
        ensures
            r == BlockId(u32::MAX),
    {
        Self(u32::MAX)
    }
}

/// The meshing data of every identifier that names no block type: no
/// texture on any face, opacity class 0, not solid.
pub open spec fn empty_meshing_data() -> MeshingData {
    MeshingData {
        textures: vstd::array::spec_array_fill_for_copy_type::<BlockTextureId, 6>(
            BlockTextureId(u32::MAX),
        ),
        opacity: 0,
        solid: false,
    }
}

impl Default for MeshingData {
    fn default() -> (r: Self)
        ensures
            r == empty_meshing_data(),
    {
        MeshingData { textures: [BlockTextureId(u32::MAX); 6], opacity: 0, solid: false }
    }
}

/// The registry of block types.
pub struct Blocks {
    blocks: Slab<()>,
    meshing_data: Vec<MeshingData>,
}

impl Blocks {
    /// Whether `id` names a registered block type.
    pub closed spec fn registered(&self, id: BlockId) -> bool {
        unit_slab_keys(self.blocks).contains(id.0 as usize)
    }

    /// The number of registered block types.
    pub closed spec fn count(&self) -> nat {
        unit_slab_slots(self.blocks) as nat
    }

    /// The meshing data that the registry answers with for `id`.
    pub closed spec fn data(&self, id: BlockId) -> MeshingData {
        if (id.0 as int) < self.meshing_data@.len() {
            self.meshing_data@[id.0 as int]
        } else {
            empty_meshing_data()
        }
    }

    /// The registry's invariant: the registered identifiers are the
    /// numbers below the count, the count stays below the sentinel, and
    /// every other identifier has the empty meshing data.
    pub closed spec fn wf(&self) -> bool {
        &&& unit_slab_slots(self.blocks) <= u32::MAX
        &&& unit_slab_next(self.blocks) == unit_slab_slots(self.blocks)
        &&& forall|k: usize|
            unit_slab_keys(self.blocks).contains(k) <==> k < unit_slab_slots(self.blocks)
        &&& self.meshing_data@.len() <= unit_slab_slots(self.blocks)
    }

    /// The registered identifiers are the numbers below the count; the
    /// sentinel is not among them. An identifier that is not registered
    /// has the empty meshing data.
    pub proof fn lemma_unregistered(&self, id: BlockId)
        requires
            self.wf(),
        ensures
            self.registered(id) <==> id.0 < self.count(),
            self.count() <= u32::MAX,
            !self.registered(BlockId(u32::MAX)),
            !self.registered(id) ==> self.data(id) == empty_meshing_data(),
    {
    }

    /// An empty registry.
    pub fn new() -> (r: Self)
        ensures
            r.wf(),
            r.count() == 0,
    {
        Blocks { blocks: unit_slab_new(), meshing_data: Vec::new() }
    }

    /// Registers a block type and returns its identifier: the number of
    /// block types that were registered before. Fails, leaving the
    /// registry as it was, once the identifiers below the sentinel are
    /// used up.
    #[inline]
    pub fn new_block(&mut self, textures: [BlockTextureId; 6], opacity: u32, solid: bool) -> (r:
        Result<BlockId, ()>)
        requires
            old(self).wf(),
        ensures
            final(self).wf(),
            r is Ok <==> old(self).count() < u32::MAX,
            r is Err ==> final(self).count() == old(self).count() && forall|id: BlockId| #[trigger]
                final(self).data(id) == old(self).data(id),
            r matches Ok(id) ==> {
                &&& id.0 == old(self).count()
                &&& final(self).count() == old(self).count() + 1
                &&& final(self).data(id) == (MeshingData { textures, opacity, solid })
                &&& forall|other: BlockId|
                    other != id ==> #[trigger] final(self).data(other) == old(self).data(other)
            },
    {
        let ix: usize = unit_slab_vacant_key(&self.blocks);
        if ix >= u32::MAX as usize {
            return Err(());
        }
        unit_slab_insert(&mut self.blocks);
        let id = BlockId(ix as u32);
        while self.meshing_data.len() <= ix
            invariant
                ix < u32::MAX,
                old(self).wf(),
                ix == unit_slab_slots(old(self).blocks),
                unit_slab_slots(self.blocks) == ix + 1,
                unit_slab_next(self.blocks) == ix + 1,
                unit_slab_keys(self.blocks) == unit_slab_keys(old(self).blocks).insert(ix),
                old(self).meshing_data@.len() <= self.meshing_data@.len(),
                self.meshing_data@.len() <= ix + 1,
                forall|i: int|
                    0 <= i < old(self).meshing_data@.len() ==> self.meshing_data@[i] == old(self)
                        .meshing_data@[i],
                forall|i: int|
                    old(self).meshing_data@.len() <= i < self.meshing_data@.len()
                        ==> self.meshing_data@[i] == empty_meshing_data(),
            decreases ix + 1 - self.meshing_data@.len(),
        {
            self.meshing_data.push(MeshingData::default());
        }
        self.meshing_data[ix] = MeshingData { textures, opacity, solid };
        Ok(id)
    }

    /// The meshing data of a block type; the empty data for the sentinel
    /// and for every identifier that was never registered.
    #[inline]
    pub fn get_meshing_data(&self, id: BlockId) -> (r: MeshingData)
        ensures
            r == self.data(id),
    {
        let ix: usize = id.0 as usize;
        if ix < self.meshing_data.len() {
            self.meshing_data[ix]
        } else {
            MeshingData::default()
        }
    }
}

impl Default for Blocks {
    /// An empty registry.
    fn default() -> (r: Self)
        ensures
            r.wf(),
            r.count() == 0,
    {
        Blocks::new()
    }
}

} // verus!
