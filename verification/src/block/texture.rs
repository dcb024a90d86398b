//! Face textures, their packing into atlas sheets, and the atlas manager.

use slab::Slab;
use vstd::prelude::*;

use crate::block::index::TextureIndex;
use crate::block::pixels::{blank, blank_sheet, blit, blitted, byte_offset, byte_tile, TILE_BYTES};
use crate::block::slots::{
    family_slab_entries, family_slab_get, family_slab_get_mut, family_slab_insert, family_slab_new,
    family_slab_next, family_slab_slots, family_slab_vacant_key,
};

verus! {

/// Edge length of one face texture, in pixels.
pub const TEXTURE_HEIGHT: usize = 16;

/// Binary logarithm of the number of tiles along one edge of a sheet.
pub const LOG_SHEET_SIZE: u32 = 8;

/// Number of tiles along one edge of a sheet.
pub const SHEET_HEIGHT: usize = 256;

/// Number of tiles in one sheet.
pub const SHEET_SIZE: usize = 65536;

/// Texture coordinates are numerators over this denominator: a sheet spans
/// `0..=UV_DENOMINATOR` in both directions.
pub const UV_DENOMINATOR: u32 = 40960;

/// Extent of one tile in texture coordinate units.
pub const TILE_SPAN: u32 = 160;

/// The inset that keeps a tile's corners away from its neighbours: a tenth
/// of a pixel, one unit of texture coordinates.
pub const BORDER_WIDTH: u32 = 1;

/// Identifies one face texture. The value encodes the tile's place:
/// `sheet * SHEET_SIZE + tile`, with tiles in row-major order.
#[derive(Debug, Copy, Clone, Eq, PartialEq, Structural, Hash, Ord, PartialOrd)]
pub struct BlockTextureId(pub u32);

/// A tile's position within its sheet: `y_ix * SHEET_HEIGHT + x_ix`.
#[derive(Debug, Copy, Clone, Eq, PartialEq, Structural, Hash, Ord, PartialOrd)]
pub struct SheetCoords(pub u16);

/// Identifies a material family.
#[derive(Debug, Copy, Clone, Eq, PartialEq, Structural, Hash, Ord, PartialOrd)]
pub struct BlockMaterialId(pub u16);

/// Identifies one atlas sheet.
#[derive(Debug, Copy, Clone, Eq, PartialEq, Structural, Hash, Ord, PartialOrd)]
pub struct SheetId(pub u16);

impl BlockTextureId {
    /// The sheet index that the identifier encodes.
    pub open spec fn spec_sheet(self) -> int {
        self.0 as int / 65536
    }

    /// The tile index within the sheet that the identifier encodes.
    pub open spec fn spec_tile(self) -> int {
        self.0 as int % 65536
    }

    /// Get this texture's sheet.
    #[inline]
    pub fn sheet(&self) -> (r: SheetId)
        ensures
            r.0 as int == self.spec_sheet(),
    {
        SheetId((self.0 / 65536) as u16)
    }

    /// Get this texture's coordinates in its sheet.
    #[inline]
    pub fn coords(&self) -> (r: SheetCoords)
        ensures
            r.0 as int == self.spec_tile(),
    {
        SheetCoords((self.0 % 65536) as u16)
    }
}

impl Default for BlockTextureId {
    /// The sentinel: no texture.
    fn default() -> (r: Self)
        ensures
            r == BlockTextureId(u32::MAX),
    {
        Self(u32::MAX)
    }
}

/// A texture coordinate pair from its two numerators.
pub open spec fn texel(u: int, v: int) -> [u32; 2] {
    [u as u32, v as u32]
}

impl SheetCoords {
    /// Column of the tile.
    pub open spec fn spec_x(self) -> int {
        self.0 as int % 256
    }

    /// Row of the tile.
    pub open spec fn spec_y(self) -> int {
        self.0 as int / 256
    }

    /// Numerator of the tile's left edge, moved inwards by the border.
    pub open spec fn left(self) -> int {
        160 * self.spec_x() + 1
    }

    /// Numerator of the tile's right edge, moved inwards by the border.
    pub open spec fn right(self) -> int {
        160 * (self.spec_x() + 1) - 1
    }

    /// Numerator of the tile's top edge, moved inwards by the border.
    pub open spec fn top(self) -> int {
        160 * self.spec_y() + 1
    }

    /// Numerator of the tile's bottom edge, moved inwards by the border.
    pub open spec fn bottom(self) -> int {
        160 * (self.spec_y() + 1) - 1
    }

    pub fn x_ix(&self) -> (r: u8)
        ensures
            r as int == self.spec_x(),
    {
        (self.0 % 256) as u8
    }

    pub fn y_ix(&self) -> (r: u8)
        ensures
            r as int == self.spec_y(),
    {
        (self.0 / 256) as u8
    }

    pub fn top_left(&self) -> (r: [u32; 2])
        ensures
            r == texel(self.left(), self.top()),
    {
        let x: u32 = self.x_ix() as u32;
        let y: u32 = self.y_ix() as u32;
        [x * TILE_SPAN + BORDER_WIDTH, y * TILE_SPAN + BORDER_WIDTH]
    }

    pub fn top_right(&self) -> (r: [u32; 2])
        ensures
            r == texel(self.right(), self.top()),
    {
        let x: u32 = self.x_ix() as u32;
        let y: u32 = self.y_ix() as u32;
        [(x + 1) * TILE_SPAN - BORDER_WIDTH, y * TILE_SPAN + BORDER_WIDTH]
    }

    pub fn bottom_left(&self) -> (r: [u32; 2])
        ensures
            r == texel(self.left(), self.bottom()),
    {
        let x: u32 = self.x_ix() as u32;
        let y: u32 = self.y_ix() as u32;
        [x * TILE_SPAN + BORDER_WIDTH, (y + 1) * TILE_SPAN - BORDER_WIDTH]
    }

    pub fn bottom_right(&self) -> (r: [u32; 2])
        ensures
            r == texel(self.right(), self.bottom()),
    {
        let x: u32 = self.x_ix() as u32;
        let y: u32 = self.y_ix() as u32;
        [(x + 1) * TILE_SPAN - BORDER_WIDTH, (y + 1) * TILE_SPAN - BORDER_WIDTH]
    }
}

/// An identifier encodes a place and nothing else: it is its sheet times
/// the capacity of a sheet plus its tile, and the tile is its row times
/// the width of a sheet plus its column.
pub proof fn lemma_id_encodes_place(id: BlockTextureId)
    ensures
        0 <= id.spec_sheet() < 65536,
        0 <= id.spec_tile() < 65536,
        id.0 == id.spec_sheet() * 65536 + id.spec_tile(),
        ({
            let c = SheetCoords(id.spec_tile() as u16);
            &&& 0 <= c.spec_x() < 256
            &&& 0 <= c.spec_y() < 256
            &&& id.spec_tile() == c.spec_y() * 256 + c.spec_x()
        }),
{
}

/// Every place has its identifier: the tile in column `x` and row `y` of
/// a sheet decodes from the identifier that encodes it.
pub proof fn lemma_place_decodes(sheet: int, x: int, y: int)
    requires
        0 <= sheet < 65536,
        0 <= x < 256,
        0 <= y < 256,
    ensures
        ({
            let id = BlockTextureId((sheet * 65536 + y * 256 + x) as u32);
            let c = SheetCoords(id.spec_tile() as u16);
            &&& id.spec_sheet() == sheet
            &&& id.spec_tile() == y * 256 + x
            &&& c.spec_x() == x
            &&& c.spec_y() == y
        }),
{
}

/// The most sheets an atlas can hold: the sheet numbers that the
/// identifiers below the sentinel can encode.
pub const MAX_SHEETS: usize = 65535;

/// Token of a rendering material. The atlas stores and returns tokens; it
/// never looks into them.
#[derive(Debug, Copy, Clone, Eq, PartialEq, Structural, Hash, Ord, PartialOrd)]
pub struct MaterialHandle(pub u64);

/// Identity of an image.
#[derive(Debug, Copy, Clone, Eq, PartialEq, Structural, Hash, Ord, PartialOrd)]
pub struct ImageHandle(pub u64);

/// A material family: the template that each of its sheets gets a copy
/// of, and the sheet that its next texture goes to. `usize::MAX` stands
/// for no sheet yet.
#[derive(Debug, Copy, Clone, Eq, PartialEq, Structural, Hash, Ord, PartialOrd)]
pub struct MaterialData {
    pub template: MaterialHandle,
    pub curr_texture: usize,
}

/// One tile of a sheet: the image bound to it and the family it belongs
/// to.
#[derive(Debug, Copy, Clone, Eq, PartialEq, Structural, Hash, Ord, PartialOrd)]
struct BlockData {
    texture: Option<ImageHandle>,
    material: BlockMaterialId,
}

/// What the atlas knows of one sheet.
pub struct SheetView {
    /// The material that the sheet is drawn with.
    pub material: MaterialHandle,
    /// The family that owns the sheet.
    pub family: BlockMaterialId,
    /// The image bound to each tile that was handed out, in tile order.
    pub tiles: Seq<Option<ImageHandle>>,
    /// The sheet's pixels, `SHEET_BYTES` of them.
    pub pixels: Seq<u8>,
}

/// What an atlas holds.
pub struct AtlasView {
    /// The sheets, in the order of their numbers.
    pub sheets: Seq<SheetView>,
    /// The families, by the number of their identifier.
    pub families: Map<usize, MaterialData>,
    /// The number of families, which is the number that the next family
    /// will be given.
    pub next_family: usize,
    /// The reverse index: the pairs of an image and a face texture that
    /// waits for that image's pixels.
    pub waiting: Set<(u64, u32)>,
}

impl AtlasView {
    /// What holds of every atlas: its families are numbered from 0 without
    /// a gap, and there are at most 65535 of them; it has at most 65535
    /// sheets; every sheet holds between one and 65536 tiles and 67108864
    /// bytes of pixels; every family has, as its current sheet, none or
    /// one that it owns; and a face texture waits only for the image that
    /// is bound to it.
    pub open spec fn valid(self) -> bool {
        &&& self.next_family <= 65535
        &&& forall|k: usize| self.families.contains_key(k) <==> k < self.next_family
        &&& self.sheets.len() <= 65535
        &&& forall|s: int|
            0 <= s < self.sheets.len() ==> 1 <= (#[trigger] self.sheets[s]).tiles.len() <= 65536
                && self.sheets[s].pixels.len() == 67108864
        &&& forall|k: usize| #[trigger]
            self.families.contains_key(k) ==> k < 65535 && (self.families[k].curr_texture
                == usize::MAX || (self.families[k].curr_texture < self.sheets.len()
                && self.sheets[self.families[k].curr_texture as int].family.0 == k))
        &&& forall|k: (u64, u32)| #[trigger]
            self.waiting.contains(k) ==> self.allocated(BlockTextureId(k.1)) && self.image_of(
                BlockTextureId(k.1),
            ) == Some(ImageHandle(k.0))
    }

    /// Whether the identifier was handed out: it names a tile of a sheet
    /// that the atlas holds.
    pub open spec fn allocated(self, id: BlockTextureId) -> bool {
        id.spec_sheet() < self.sheets.len() && id.spec_tile()
            < self.sheets[id.spec_sheet()].tiles.len()
    }

    /// The image bound to a face texture.
    pub open spec fn image_of(self, id: BlockTextureId) -> Option<ImageHandle> {
        self.sheets[id.spec_sheet()].tiles[id.spec_tile()]
    }

    /// The pixels of a face texture's tile.
    pub open spec fn pixels_of(self, id: BlockTextureId) -> Seq<u8> {
        crate::block::pixels::tile_pixels(self.sheets[id.spec_sheet()].pixels, id.spec_tile())
    }

    /// Whether the family has a sheet with a free tile.
    pub open spec fn has_room(self, family: BlockMaterialId) -> bool {
        let key = family.0 as usize;
        self.families.contains_key(key) && self.families[key].curr_texture < self.sheets.len()
            && self.sheets[self.families[key].curr_texture as int].tiles.len() < 65536
    }

    /// Whether the next texture of the family opens a sheet.
    pub open spec fn opens_sheet(self, family: BlockMaterialId) -> bool {
        self.families.contains_key(family.0 as usize) && !self.has_room(family)
            && self.sheets.len() < 65535
    }

    /// The atlas and the identifier after one more face texture was
    /// handed out to the family. The texture takes the next tile of the
    /// family's current sheet; if there is none, or it is full, a new
    /// sheet is opened with `sheet_material`. `None` if the family is
    /// unknown, if a sheet is needed and the atlas is full, or if a sheet
    /// is needed and no material was given for it.
    pub open spec fn allocate(self, family: BlockMaterialId, sheet_material: Option<MaterialHandle>)
        -> Option<(AtlasView, BlockTextureId)> {
        let key = family.0 as usize;
        if !self.families.contains_key(key) {
            None
        } else if self.has_room(family) {
            let sheet = self.families[key].curr_texture as int;
            let tile = self.sheets[sheet].tiles.len();
            Some(
                (
                    AtlasView {
                        sheets: self.sheets.update(
                            sheet,
                            SheetView {
                                tiles: self.sheets[sheet].tiles.push(None),
                                ..self.sheets[sheet]
                            },
                        ),
                        ..self
                    },
                    BlockTextureId((sheet * 65536 + tile) as u32),
                ),
            )
        } else if self.sheets.len() < 65535 && sheet_material is Some {
            Some(
                (
                    AtlasView {
                        sheets: self.sheets.push(
                            SheetView {
                                material: sheet_material->0,
                                family,
                                tiles: seq![None],
                                pixels: blank_sheet(),
                            },
                        ),
                        families: self.families.insert(
                            key,
                            MaterialData {
                                curr_texture: self.sheets.len() as usize,
                                ..self.families[key]
                            },
                        ),
                        ..self
                    },
                    BlockTextureId((self.sheets.len() * 65536) as u32),
                ),
            )
        } else {
            None
        }
    }

    /// The sheets after `src` was copied into the tile of `id`.
    pub open spec fn with_tile(self, id: BlockTextureId, src: Seq<u8>) -> Seq<SheetView> {
        let sheet = id.spec_sheet();
        self.sheets.update(
            sheet,
            SheetView {
                pixels: blitted(self.sheets[sheet].pixels, id.spec_tile(), src),
                ..self.sheets[sheet]
            },
        )
    }

    /// The sheets after `image` was bound to the tile of `id`.
    pub open spec fn with_image(sheets: Seq<SheetView>, id: BlockTextureId, image: ImageHandle)
        -> Seq<SheetView> {
        let sheet = id.spec_sheet();
        sheets.update(
            sheet,
            SheetView {
                tiles: sheets[sheet].tiles.update(id.spec_tile(), Some(image)),
                ..sheets[sheet]
            },
        )
    }

    /// The atlas after `image` was set on the face texture `id`, with the
    /// image's pixels if they are available. Nothing changes if the image
    /// is the one already bound. Otherwise the face stops waiting for the
    /// image bound before and waits for `image`; if pixels are given, they
    /// are copied into the tile.
    pub open spec fn bind(self, id: BlockTextureId, image: ImageHandle, pixels: Option<Seq<u8>>)
        -> AtlasView {
        if self.image_of(id) == Some(image) {
            self
        } else {
            let cleared = match self.image_of(id) {
                Some(previous) => self.waiting.remove((previous.0, id.0)),
                None => self.waiting,
            };
            let sheets = match pixels {
                Some(src) => self.with_tile(id, src),
                None => self.sheets,
            };
            AtlasView {
                sheets: Self::with_image(sheets, id, image),
                waiting: cleared.insert((image.0, id.0)),
                ..self
            }
        }
    }

    /// The atlas after `pixels` were copied into the tile of every face
    /// texture in `faces`.
    pub open spec fn painted(self, faces: Set<u32>, pixels: Seq<u8>) -> AtlasView {
        AtlasView {
            sheets: Seq::new(
                self.sheets.len(),
                |s: int|
                    SheetView {
                        pixels: Seq::new(
                            67108864,
                            |j: int|
                                if faces.contains((s * 65536 + byte_tile(j)) as u32) {
                                    pixels[byte_offset(j)]
                                } else {
                                    self.sheets[s].pixels[j]
                                },
                        ),
                        ..self.sheets[s]
                    },
            ),
            ..self
        }
    }

    /// The face textures that wait for `image`.
    pub open spec fn waiting_for(self, image: ImageHandle) -> Set<u32> {
        Set::new(|face: u32| self.waiting.contains((image.0, face)))
    }

    /// The atlas after the pixels of `image` became available: they are
    /// copied into the tile of every face texture that waits for the
    /// image. Pixels that are not of the size of a tile change nothing.
    pub open spec fn ready(self, image: ImageHandle, pixels: Seq<u8>) -> AtlasView {
        if pixels.len() != 1024 {
            self
        } else {
            self.painted(self.waiting_for(image), pixels)
        }
    }

    /// The atlas after `image` was removed: no face texture waits for it
    /// any more. Bindings and pixels stay.
    pub open spec fn removed(self, image: ImageHandle) -> AtlasView {
        AtlasView {
            waiting: Set::new(|k: (u64, u32)| self.waiting.contains(k) && k.0 != image.0),
            ..self
        }
    }
}

/// What the world outside tells the atlas about an image.
pub enum ImageEvent {
    /// The image's pixels are available, or have changed.
    Ready { image: ImageHandle, pixels: Vec<u8> },
    /// The image is gone.
    Removed { image: ImageHandle },
}

impl AtlasView {
    /// The atlas after one event.
    pub open spec fn after(self, event: ImageEvent) -> AtlasView {
        match event {
            ImageEvent::Ready { image, pixels } => self.ready(image, pixels@),
            ImageEvent::Removed { image } => self.removed(image),
        }
    }

    /// The atlas after a sequence of events, taken in order.
    pub open spec fn after_all(self, events: Seq<ImageEvent>) -> AtlasView
        decreases events.len(),
    {
        if events.len() == 0 {
            self
        } else {
            self.after_all(events.drop_last()).after(events.last())
        }
    }
}

/// Whether an event brings pixels that are not of the size of a tile.
pub open spec fn misfit(event: ImageEvent) -> bool {
    match event {
        ImageEvent::Ready { image, pixels } => pixels@.len() != 1024,
        ImageEvent::Removed { image } => false,
    }
}

/// The number of misfit events in a sequence.
pub open spec fn misfits(events: Seq<ImageEvent>) -> nat
    decreases events.len(),
{
    if events.len() == 0 {
        0
    } else {
        misfits(events.drop_last()) + (if misfit(events.last()) {
            1nat
        } else {
            0nat
        })
    }
}

/// The faces among the first `n` of a list.
pub open spec fn listed(faces: Seq<u32>, n: int) -> Set<u32> {
    Set::new(|face: u32| exists|i: int| 0 <= i < n && i < faces.len() && faces[i] == face)
}

/// An identifier that was handed out decodes to a tile within the atlas:
/// to a sheet that the atlas holds and that the family owns, and to a
/// tile below the sheet's capacity. The identifier is new, it is not the
/// sentinel, and no image is bound to it yet.
pub proof fn lemma_allocated_id_decodes(
    atlas: AtlasView,
    family: BlockMaterialId,
    sheet_material: Option<MaterialHandle>,
)
    requires
        atlas.valid(),
        atlas.allocate(family, sheet_material) is Some,
    ensures
        ({
            let (after, id) = atlas.allocate(family, sheet_material).unwrap();
            &&& after.valid()
            &&& id.spec_sheet() < after.sheets.len()
            &&& id.spec_tile() < 65536
            &&& after.allocated(id)
            &&& !atlas.allocated(id)
            &&& after.sheets[id.spec_sheet()].family == family
            &&& after.image_of(id) is None
            &&& id.0 != u32::MAX
            &&& forall|other: BlockTextureId| #[trigger]
                atlas.allocated(other) ==> after.allocated(other) && after.image_of(other)
                    == atlas.image_of(other)
        }),
{
    let (after, id) = atlas.allocate(family, sheet_material).unwrap();
    let key = family.0 as usize;
    if atlas.has_room(family) {
        let sheet = atlas.families[key].curr_texture as int;
        let tile = atlas.sheets[sheet].tiles.len() as int;
        assert(id.0 == sheet * 65536 + tile);
        assert(id.spec_sheet() == sheet && id.spec_tile() == tile);
        assert(after.sheets[sheet].family.0 == family.0);
    } else {
        let sheet = atlas.sheets.len() as int;
        assert(id.0 == sheet * 65536);
        assert(id.spec_sheet() == sheet && id.spec_tile() == 0);
    }
    assert forall|k: (u64, u32)| #[trigger] after.waiting.contains(k) implies after.allocated(
        BlockTextureId(k.1),
    ) && after.image_of(BlockTextureId(k.1)) == Some(ImageHandle(k.0)) by {
        assert(atlas.waiting.contains(k));
    }
}

/// A family's texture opens a sheet exactly when the family has no sheet
/// with a free tile, and then it opens one sheet and takes its first
/// tile; otherwise the number of sheets stays.
pub proof fn lemma_sheets_grow_one_at_a_time(
    atlas: AtlasView,
    family: BlockMaterialId,
    sheet_material: Option<MaterialHandle>,
)
    requires
        atlas.valid(),
        atlas.allocate(family, sheet_material) is Some,
    ensures
        ({
            let (after, id) = atlas.allocate(family, sheet_material).unwrap();
            if atlas.has_room(family) {
                after.sheets.len() == atlas.sheets.len()
            } else {
                &&& after.sheets.len() == atlas.sheets.len() + 1
                &&& id.spec_sheet() == atlas.sheets.len()
                &&& id.spec_tile() == 0
            }
        }),
{
    let (after, id) = atlas.allocate(family, sheet_material).unwrap();
    if !atlas.has_room(family) {
        let sheet = atlas.sheets.len() as int;
        assert(id.0 == sheet * 65536);
    }
}

/// Setting an image whose pixels are not available changes no pixel;
/// once the pixels arrive, the tile holds them byte for byte.
pub proof fn lemma_pixels_arrive_later(
    atlas: AtlasView,
    id: BlockTextureId,
    image: ImageHandle,
    pixels: Seq<u8>,
)
    requires
        atlas.valid(),
        atlas.allocated(id),
        atlas.image_of(id) != Some(image),
        pixels.len() == 1024,
    ensures
        ({
            let bound = atlas.bind(id, image, None);
            &&& bound.valid()
            &&& bound.sheets.len() == atlas.sheets.len()
            &&& forall|s: int|
                0 <= s < atlas.sheets.len() ==> (#[trigger] bound.sheets[s]).pixels
                    == atlas.sheets[s].pixels
            &&& bound.ready(image, pixels).pixels_of(id) == pixels
        }),
{
    let bound = atlas.bind(id, image, None);
    let sheet = id.spec_sheet();
    let tile = id.spec_tile();
    assert(id.0 == sheet * 65536 + tile);
    assert forall|k: (u64, u32)| #[trigger] bound.waiting.contains(k) implies bound.allocated(
        BlockTextureId(k.1),
    ) && bound.image_of(BlockTextureId(k.1)) == Some(ImageHandle(k.0)) by {
        let other = BlockTextureId(k.1);
        if k != (image.0, id.0) {
            assert(atlas.waiting.contains(k));
            if k.1 == id.0 {
                assert(atlas.image_of(id) == Some(ImageHandle(k.0)));
            }
            assert(other.spec_sheet() != sheet || other.spec_tile() != tile);
        }
    }
    let after = bound.ready(image, pixels);
    assert(bound.waiting.contains((image.0, id.0)));
    let got = after.pixels_of(id);
    assert forall|k: int| 0 <= k < 1024 implies got[k] == pixels[k] by {
        crate::block::pixels::lemma_tile_byte(tile, k);
    }
    assert(got =~= pixels);
}

/// Setting the image that a face texture already has changes nothing, so
/// setting the same image twice is setting it once.
pub proof fn lemma_same_image_twice(
    atlas: AtlasView,
    id: BlockTextureId,
    image: ImageHandle,
    first: Option<Seq<u8>>,
    second: Option<Seq<u8>>,
)
    requires
        atlas.valid(),
        atlas.allocated(id),
    ensures
        atlas.bind(id, image, first).image_of(id) == Some(image),
        atlas.bind(id, image, first).bind(id, image, second) == atlas.bind(id, image, first),
{
}

/// The texture atlas: the sheets that the face textures are packed into,
/// the material families that the sheets belong to, and the index of the
/// face textures that wait for an image.
pub struct BlockMaterials {
    sheet_materials: Vec<MaterialHandle>,
    sheet_images: Vec<Vec<u8>>,
    blocks: Vec<Vec<BlockData>>,
    materials: Slab<MaterialData>,
    textures: TextureIndex,
}

impl View for BlockMaterials {
    type V = AtlasView;

    closed spec fn view(&self) -> AtlasView {
        AtlasView {
            sheets: Seq::new(
                self.blocks@.len(),
                |s: int|
                    SheetView {
                        material: self.sheet_materials@[s],
                        family: self.blocks@[s]@[0].material,
                        tiles: Seq::new(self.blocks@[s]@.len(), |t: int| self.blocks@[s]@[t].texture),
                        pixels: if self.sheet_images@[s]@.len() == 0 {
                            blank_sheet()
                        } else {
                            self.sheet_images@[s]@
                        },
                    },
            ),
            families: family_slab_entries(self.materials),
            next_family: family_slab_next(self.materials),
            waiting: self.textures@,
        }
    }
}

impl BlockMaterials {
    /// The invariant of the atlas's storage.
    pub closed spec fn wf(&self) -> bool {
        &&& family_slab_slots(self.materials) <= 65535
        &&& family_slab_next(self.materials) == family_slab_slots(self.materials)
        &&& forall|k: usize|
            family_slab_entries(self.materials).contains_key(k) <==> k < family_slab_slots(
                self.materials,
            )
        &&& self.blocks@.len() <= 65535
        &&& self.sheet_materials@.len() == self.blocks@.len()
        &&& self.sheet_images@.len() == self.blocks@.len()
        &&& self.textures.wf()
        &&& forall|s: int|
            0 <= s < self.blocks@.len() ==> 1 <= (#[trigger] self.blocks@[s])@.len() <= 65536
        &&& forall|s: int, t: int|
            0 <= s < self.blocks@.len() && 0 <= t < self.blocks@[s]@.len()
                ==> (#[trigger] self.blocks@[s]@[t]).material == self.blocks@[s]@[0].material
        &&& forall|s: int|
            0 <= s < self.blocks@.len() ==> (#[trigger] self.sheet_images@[s])@.len() == 0
                || self.sheet_images@[s]@.len() == 67108864
        &&& forall|k: usize| #[trigger]
            family_slab_entries(self.materials).contains_key(k) ==> k < 65535 && ({
                let c = family_slab_entries(self.materials)[k].curr_texture;
                c == usize::MAX || (c < self.blocks@.len() && self.blocks@[c as int]@[0].material.0
                    == k)
            })
        &&& forall|k: (u64, u32)| #[trigger]
            self.textures@.contains(k) ==> {
                let id = BlockTextureId(k.1);
                &&& id.spec_sheet() < self.blocks@.len()
                &&& id.spec_tile() < self.blocks@[id.spec_sheet()]@.len()
                &&& self.blocks@[id.spec_sheet()]@[id.spec_tile()].texture == Some(ImageHandle(k.0))
            }
    }

    /// The invariant of the storage makes the atlas valid.
    pub proof fn lemma_wf(&self)
        requires
            self.wf(),
        ensures
            self@.valid(),
    {
        assert forall|s: int| 0 <= s < self@.sheets.len() implies 1 <= (
        #[trigger] self@.sheets[s]).tiles.len() <= 65536 && self@.sheets[s].pixels.len()
            == 67108864 by {
            assert(1 <= self.blocks@[s]@.len() <= 65536);
            assert(self.sheet_images@[s]@.len() == 0 || self.sheet_images@[s]@.len() == 67108864);
        }
    }

    /// An atlas without sheets and without families.
    pub fn new() -> (r: Self)
        ensures
            r.wf(),
            r@.sheets.len() == 0,
            r@.next_family == 0,
            r@.waiting == Set::<(u64, u32)>::empty(),
    {
        BlockMaterials {
            sheet_materials: Vec::new(),
            sheet_images: Vec::new(),
            blocks: Vec::new(),
            materials: family_slab_new(),
            textures: TextureIndex::new(),
        }
    }

    /// Registers a material family with the template that its sheets get a
    /// copy of, and returns its identifier: the number of families that
    /// were registered before. Fails, changing nothing, once the family
    /// numbers below 65535 are used up.
    #[inline]
    pub fn new_material(&mut self, template: MaterialHandle) -> (r: Result<BlockMaterialId, ()>)
        requires
            old(self).wf(),
        ensures
            final(self).wf(),
            r is Ok <==> old(self)@.next_family < 65535,
            r is Err ==> final(self)@ == old(self)@,
            r matches Ok(id) ==> {
                &&& id.0 == old(self)@.next_family
                &&& final(self)@.next_family == old(self)@.next_family + 1
                &&& final(self)@.families == old(self)@.families.insert(
                    id.0 as usize,
                    MaterialData { template, curr_texture: usize::MAX },
                )
                &&& final(self)@.sheets == old(self)@.sheets
                &&& final(self)@.waiting == old(self)@.waiting
            },
    {
        let ix: usize = family_slab_vacant_key(&self.materials);
        if ix >= u16::MAX as usize {
            return Err(());
        }
        family_slab_insert(&mut self.materials, MaterialData { template, curr_texture: usize::MAX });
        proof {
            assert(self@.sheets =~= old(self)@.sheets);
        }
        Ok(BlockMaterialId(ix as u16))
    }

    /// The template of the material that the next texture of the family
    /// needs for a new sheet, if it opens one.
    pub fn sheet_template(&self, material: BlockMaterialId) -> (r: Option<MaterialHandle>)
        requires
            self.wf(),
        ensures
            r is Some <==> self@.opens_sheet(material),
            r matches Some(template) ==> template == self@.families[material.0 as usize].template,
    {
        match family_slab_get(&self.materials, material.0 as usize) {
            None => None,
            Some(family) => {
                let l: usize = self.blocks.len();
                let cur: usize = family.curr_texture;
                if cur < l && self.blocks[cur].len() < SHEET_SIZE {
                    None
                } else if l < MAX_SHEETS {
                    Some(family.template)
                } else {
                    None
                }
            },
        }
    }

    /// Hands out one more face texture to the family. The texture takes
    /// the next tile of the family's current sheet. If the family has no
    /// sheet yet, or its sheet is full, a new sheet is opened and drawn
    /// with `sheet_material`, which is not looked at otherwise. Fails,
    /// changing nothing, if the family is unknown, if a sheet is needed
    /// and the atlas holds 65535 sheets, or if a sheet is needed and no
    /// material was given for it.
    #[inline]
    pub fn new_texture(&mut self, material: BlockMaterialId, sheet_material: Option<MaterialHandle>)
        -> (r: Result<BlockTextureId, ()>)
        requires
            old(self).wf(),
        ensures
            final(self).wf(),
            match old(self)@.allocate(material, sheet_material) {
                Some((atlas, id)) => r == Ok::<BlockTextureId, ()>(id) && final(self)@ == atlas,
                None => r is Err && final(self)@ == old(self)@,
            },
            r matches Ok(id) ==> {
                &&& id.spec_sheet() < final(self)@.sheets.len()
                &&& id.spec_tile() < 65536
                &&& final(self)@.allocated(id)
                &&& !old(self)@.allocated(id)
                &&& final(self)@.sheets[id.spec_sheet()].family == material
            },
    {
        proof {
            old(self).lemma_wf();
            if old(self)@.allocate(material, sheet_material) is Some {
                lemma_allocated_id_decodes(old(self)@, material, sheet_material);
            }
        }
        let key: usize = material.0 as usize;
        let family = match family_slab_get(&self.materials, key) {
            None => {
                return Err(());
            },
            Some(family) => family,
        };
        let l: usize = self.blocks.len();
        let cur: usize = family.curr_texture;
        if cur < l && self.blocks[cur].len() < SHEET_SIZE {
            let block_ix: usize = self.blocks[cur].len();
            self.blocks[cur].push(BlockData { texture: None, material });
            let id = BlockTextureId((cur * SHEET_SIZE + block_ix) as u32);
            proof {
                let want = old(self)@.allocate(material, sheet_material).unwrap().0;
                assert(self@.sheets.len() == want.sheets.len());
                assert forall|s: int| 0 <= s < self@.sheets.len() implies self@.sheets[s]
                    == want.sheets[s] by {
                    if s == cur {
                        assert(self@.sheets[s].tiles =~= want.sheets[s].tiles);
                    } else {
                        assert(self.blocks@[s] == old(self).blocks@[s]);
                        assert(self@.sheets[s].tiles =~= want.sheets[s].tiles);
                    }
                }
                assert(self@.sheets =~= want.sheets);
                assert forall|k: (u64, u32)| #[trigger] self.textures@.contains(k) implies ({
                    let id = BlockTextureId(k.1);
                    &&& id.spec_sheet() < self.blocks@.len()
                    &&& id.spec_tile() < self.blocks@[id.spec_sheet()]@.len()
                    &&& self.blocks@[id.spec_sheet()]@[id.spec_tile()].texture == Some(
                        ImageHandle(k.0),
                    )
                }) by {
                    assert(old(self).textures@.contains(k));
                }
            }
            Ok(id)
        } else if l < MAX_SHEETS {
            match sheet_material {
                None => Err(()),
                Some(handle) => {
                    match family_slab_get_mut(&mut self.materials, key) {
                        Some(slot) => {
                            slot.curr_texture = l;
                        },
                        None => {},
                    }
                    let mut tiles: Vec<BlockData> = Vec::new();
                    tiles.push(BlockData { texture: None, material });
                    self.blocks.push(tiles);
                    self.sheet_materials.push(handle);
                    self.sheet_images.push(Vec::new());
                    let id = BlockTextureId((l * SHEET_SIZE) as u32);
                    proof {
                        let want = old(self)@.allocate(material, sheet_material).unwrap().0;
                        assert(self@.sheets.len() == want.sheets.len());
                        assert forall|s: int| 0 <= s < self@.sheets.len() implies self@.sheets[s]
                            == want.sheets[s] by {
                            if s == l {
                                assert(self@.sheets[s].tiles =~= want.sheets[s].tiles);
                            } else {
                                assert(self.blocks@[s] == old(self).blocks@[s]);
                                assert(self@.sheets[s].tiles =~= want.sheets[s].tiles);
                            }
                        }
                        assert(self@.sheets =~= want.sheets);
                        assert(self@.families =~= want.families);
                        assert forall|k: (u64, u32)| #[trigger]
                            self.textures@.contains(k) implies ({
                            let id = BlockTextureId(k.1);
                            &&& id.spec_sheet() < self.blocks@.len()
                            &&& id.spec_tile() < self.blocks@[id.spec_sheet()]@.len()
                            &&& self.blocks@[id.spec_sheet()]@[id.spec_tile()].texture == Some(
                                ImageHandle(k.0),
                            )
                        }) by {
                            assert(old(self).textures@.contains(k));
                        }
                    }
                    Ok(id)
                },
            }
        } else {
            Err(())
        }
    }

    /// The material that a sheet is drawn with.
    #[inline]
    pub fn get_sheet_material(&self, sheet: SheetId) -> (r: MaterialHandle)
        requires
            self.wf(),
            sheet.0 < self@.sheets.len(),
        ensures
            r == self@.sheets[sheet.0 as int].material,
    {
        self.sheet_materials[sheet.0 as usize]
    }

    /// The number of sheets.
    pub fn sheet_count(&self) -> (r: usize)
        requires
            self.wf(),
        ensures
            r == self@.sheets.len(),
    {
        self.blocks.len()
    }

    /// The pixels of a sheet, if a tile was ever copied into it. A sheet
    /// that has none yet is blank.
    pub fn sheet_image(&self, sheet: SheetId) -> (r: Option<&Vec<u8>>)
        requires
            self.wf(),
        ensures
            r matches Some(pixels) ==> sheet.0 < self@.sheets.len() && pixels@
                == self@.sheets[sheet.0 as int].pixels,
            r is None && sheet.0 < self@.sheets.len() ==> self@.sheets[sheet.0 as int].pixels
                == blank_sheet(),
    {
        let s: usize = sheet.0 as usize;
        if s < self.sheet_images.len() && self.sheet_images[s].len() != 0 {
            Some(&self.sheet_images[s])
        } else {
            None
        }
    }

    /// The image bound to a face texture; `None` too if the identifier was
    /// never handed out.
    pub fn get_block_texture(&self, block: BlockTextureId) -> (r: Option<ImageHandle>)
        requires
            self.wf(),
        ensures
            r == (if self@.allocated(block) {
                self@.image_of(block)
            } else {
                None
            }),
    {
        let s: usize = block.sheet().0 as usize;
        let t: usize = block.coords().0 as usize;
        if s < self.blocks.len() && t < self.blocks[s].len() {
            self.blocks[s][t].texture
        } else {
            None
        }
    }

    /// Copies a tile-sized image into the tile of a face texture, giving
    /// the sheet its pixels first if it had none.
    #[inline]
    fn blit_texture_inner(&mut self, block: BlockTextureId, texture: &Vec<u8>)
        requires
            old(self).wf(),
            old(self)@.allocated(block),
            texture@.len() == 1024,
        ensures
            final(self).wf(),
            final(self).blocks == old(self).blocks,
            final(self).sheet_materials == old(self).sheet_materials,
            final(self).materials == old(self).materials,
            final(self).textures == old(self).textures,
            final(self)@ == (AtlasView { sheets: old(self)@.with_tile(block, texture@), ..old(self)@ }),
    {
        let s: usize = block.sheet().0 as usize;
        if self.sheet_images[s].len() == 0 {
            self.sheet_images[s] = blank();
        }
        blit(&mut self.sheet_images[s], block.coords(), texture);
        proof {
            let want = old(self)@.with_tile(block, texture@);
            assert(self@.sheets.len() == want.len());
            assert forall|i: int| 0 <= i < want.len() implies self@.sheets[i] == want[i] by {
                if i != s {
                    assert(self.sheet_images@[i] == old(self).sheet_images@[i]);
                }
            }
            assert(self@.sheets =~= want);
        }
    }

    /// Sets the image of a face texture and returns the image that was
    /// bound before. Setting the image that is already bound changes
    /// nothing. Otherwise the face texture is entered in the index under
    /// the new image, and left it under the old one; where `pixels` holds
    /// the image's pixels, they are copied into the tile at once. Fails,
    /// changing nothing, if the identifier was never handed out, or if
    /// the pixels are not of the size of a tile.
    #[inline]
    pub fn set_block_texture(
        &mut self,
        block: BlockTextureId,
        texture: ImageHandle,
        pixels: Option<&Vec<u8>>,
    ) -> (r: Result<Option<ImageHandle>, ()>)
        requires
            old(self).wf(),
        ensures
            final(self).wf(),
            r is Ok <==> old(self)@.allocated(block) && (pixels matches Some(p) ==> p@.len()
                == 1024),
            r is Err ==> final(self)@ == old(self)@,
            r matches Ok(previous) ==> previous == old(self)@.image_of(block) && final(self)@
                == old(self)@.bind(
                block,
                texture,
                match pixels {
                    Some(p) => Some(p@),
                    None => None,
                },
            ),
    {
        let s: usize = block.sheet().0 as usize;
        let t: usize = block.coords().0 as usize;
        if s >= self.blocks.len() || t >= self.blocks[s].len() {
            return Err(());
        }
        match pixels {
            Some(p) => {
                if p.len() != TILE_BYTES {
                    return Err(());
                }
            },
            None => {},
        }
        let previous = self.blocks[s][t].texture;
        match previous {
            Some(bound) => {
                if bound.0 == texture.0 {
                    return Ok(previous);
                }
            },
            None => {},
        }
        match pixels {
            Some(p) => {
                self.blit_texture_inner(block, p);
            },
            None => {},
        }
        let ghost blitted_atlas = self@;
        match previous {
            Some(bound) => {
                self.textures.remove(bound.0, block.0);
            },
            None => {},
        }
        self.textures.insert(texture.0, block.0);
        proof {
            assert(block.0 == s * 65536 + t);
            assert forall|k: (u64, u32)| #[trigger] self.textures@.contains(k) implies k == (
                texture.0,
                block.0,
            ) || (k.1 != block.0 && old(self).textures@.contains(k)) by {
                if k != (texture.0, block.0) {
                    assert(old(self).textures@.contains(k));
                }
            }
        }
        self.blocks[s][t].texture = Some(texture);
        proof {
            let want = old(self)@.bind(
                block,
                texture,
                match pixels {
                    Some(p) => Some(p@),
                    None => None,
                },
            );
            assert(self@.sheets.len() == want.sheets.len());
            assert forall|i: int| 0 <= i < want.sheets.len() implies self@.sheets[i]
                == want.sheets[i] by {
                if i == s {
                    assert(self@.sheets[i].tiles =~= want.sheets[i].tiles);
                } else {
                    assert(self.blocks@[i] == old(self).blocks@[i]);
                    assert(self@.sheets[i].tiles =~= want.sheets[i].tiles);
                }
            }
            assert(self@.sheets =~= want.sheets);
            assert(self@.waiting =~= want.waiting);
        }
        Ok(previous)
    }

    /// Painting one more tile: the tiles of `faces` and then that of
    /// `block` are the tiles of `faces` with `block`.
    proof fn lemma_paint_one_more(
        atlas: AtlasView,
        faces: Set<u32>,
        block: BlockTextureId,
        pixels: Seq<u8>,
    )
        requires
            atlas.allocated(block),
            atlas.sheets.len() <= 65535,
            forall|s: int|
                0 <= s < atlas.sheets.len() ==> (#[trigger] atlas.sheets[s]).pixels.len()
                    == 67108864,
        ensures
            (AtlasView {
                sheets: atlas.painted(faces, pixels).with_tile(block, pixels),
                ..atlas.painted(faces, pixels)
            }) == atlas.painted(faces.insert(block.0), pixels),
    {
        let before = atlas.painted(faces, pixels);
        let got = before.with_tile(block, pixels);
        let want = atlas.painted(faces.insert(block.0), pixels).sheets;
        assert(got.len() == want.len());
        assert forall|s: int| 0 <= s < want.len() implies got[s] == want[s] by {
            assert(got[s].pixels.len() == want[s].pixels.len());
            assert forall|j: int| 0 <= j < 67108864 implies got[s].pixels[j]
                == want[s].pixels[j] by {
                crate::block::pixels::lemma_byte_tile(j);
                let id = (s * 65536 + byte_tile(j)) as u32;
                assert(id == block.0 <==> (s == block.spec_sheet() && byte_tile(j)
                    == block.spec_tile()));
            }
            assert(got[s].pixels =~= want[s].pixels);
        }
        assert(got =~= want);
    }

    /// Takes in that the pixels of an image are available: they are
    /// copied into the tile of every face texture that waits for the
    /// image. Fails, changing nothing, if the pixels are not of the size
    /// of a tile.
    pub fn image_ready(&mut self, image: ImageHandle, pixels: &Vec<u8>) -> (r: Result<(), ()>)
        requires
            old(self).wf(),
        ensures
            final(self).wf(),
            r is Ok <==> pixels@.len() == 1024,
            final(self)@ == old(self)@.ready(image, pixels@),
    {
        if pixels.len() != TILE_BYTES {
            return Err(());
        }
        let faces = self.textures.faces_of(image.0);
        let mut i: usize = 0;
        proof {
            self.lemma_wf();
            assert(listed(faces@, 0) =~= Set::<u32>::empty());
            let start = self@.painted(listed(faces@, 0), pixels@);
            assert(start.sheets.len() == self@.sheets.len());
            assert forall|s: int| 0 <= s < self@.sheets.len() implies start.sheets[s]
                == self@.sheets[s] by {
                assert(start.sheets[s].pixels =~= self@.sheets[s].pixels);
            }
            assert(start.sheets =~= self@.sheets);
        }
        while i < faces.len()
            invariant
                self.wf(),
                old(self).wf(),
                pixels@.len() == 1024,
                i <= faces@.len(),
                forall|face: u32|
                    faces@.contains(face) <==> old(self)@.waiting.contains((image.0, face)),
                self.blocks == old(self).blocks,
                self.materials == old(self).materials,
                self.textures == old(self).textures,
                self@ == old(self)@.painted(listed(faces@, i as int), pixels@),
            decreases faces@.len() - i,
        {
            let block = BlockTextureId(faces[i]);
            proof {
                old(self).lemma_wf();
                self.lemma_wf();
                assert(faces@.contains(faces@[i as int]));
                assert(old(self)@.waiting.contains((image.0, block.0)));
                assert(old(self)@.allocated(block));
                assert(self@.allocated(block));
                Self::lemma_paint_one_more(old(self)@, listed(faces@, i as int), block, pixels@);
                assert(listed(faces@, i as int).insert(block.0) =~= listed(faces@, i + 1));
            }
            self.blit_texture_inner(block, pixels);
            i += 1;
        }
        proof {
            assert(listed(faces@, faces@.len() as int) =~= old(self)@.waiting_for(image)) by {
                assert forall|face: u32|
                    listed(faces@, faces@.len() as int).contains(face) <==> old(
                        self,
                    )@.waiting_for(image).contains(face) by {
                    if faces@.contains(face) {
                        let idx = choose|idx: int| 0 <= idx < faces@.len() && faces@[idx] == face;
                        assert(listed(faces@, faces@.len() as int).contains(face));
                    }
                }
            }
        }
        Ok(())
    }

    /// Takes in that an image is gone: no face texture waits for it any
    /// more. Bindings and pixels stay as they are.
    pub fn image_removed(&mut self, image: ImageHandle)
        requires
            old(self).wf(),
        ensures
            final(self).wf(),
            final(self)@ == old(self)@.removed(image),
    {
        self.textures.remove_image(image.0);
        proof {
            assert(self@.waiting =~= old(self)@.removed(image).waiting);
            assert(self@.sheets =~= old(self)@.sheets);
        }
    }
}

impl Default for BlockMaterials {
    /// An atlas without sheets and without families.
    fn default() -> (r: Self)
        ensures
            r.wf(),
            r@.sheets.len() == 0,
            r@.next_family == 0,
            r@.waiting == Set::<(u64, u32)>::empty(),
    {
        BlockMaterials::new()
    }
}

/// Takes in a batch of events, in order. Events that bring pixels of
/// another size than a tile's are passed over; the result counts them.
pub fn blit_loaded_textures(blocks: &mut BlockMaterials, events: &Vec<ImageEvent>) -> (rejected:
    usize)
    requires
        old(blocks).wf(),
    ensures
        final(blocks).wf(),
        final(blocks)@ == old(blocks)@.after_all(events@),
        rejected == misfits(events@),
{
    let mut rejected: usize = 0;
    let mut i: usize = 0;
    while i < events.len()
        invariant
            blocks.wf(),
            i <= events@.len(),
            rejected <= i,
            blocks@ == old(blocks)@.after_all(events@.subrange(0, i as int)),
            rejected == misfits(events@.subrange(0, i as int)),
        decreases events@.len() - i,
    {
        proof {
            let next = events@.subrange(0, i + 1);
            assert(next.drop_last() =~= events@.subrange(0, i as int));
            assert(next.last() == events@[i as int]);
        }
        match &events[i] {
            ImageEvent::Ready { image, pixels } => {
                if blocks.image_ready(*image, pixels).is_err() {
                    rejected += 1;
                }
            },
            ImageEvent::Removed { image } => {
                blocks.image_removed(*image);
            },
        }
        i += 1;
    }
    proof {
        assert(events@.subrange(0, events@.len() as int) =~= events@);
    }
    rejected
}

} // verus!
