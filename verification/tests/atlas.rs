use mellanite::block::pixels::{ROW_BYTES, SHEET_BYTES, TILE_BYTES};
use mellanite::block::texture::{
    blit_loaded_textures, BlockMaterialId, BlockMaterials, BlockTextureId, ImageEvent, ImageHandle,
    MaterialHandle, SheetId, MAX_SHEETS,
};

fn image(seed: u8) -> Vec<u8> {
    (0..TILE_BYTES).map(|i| (i as u8).wrapping_mul(31).wrapping_add(seed)).collect()
}

/// The bytes of a tile of a sheet, row by row.
fn tile(sheet: &[u8], id: BlockTextureId) -> Vec<u8> {
    let t = (id.0 % 65536) as usize;
    let (x, y) = (t % 256, t / 256);
    let mut out = Vec::new();
    for row in 0..16 {
        let at = (y * 16 + row) * ROW_BYTES + x * 64;
        out.extend_from_slice(&sheet[at..at + 64]);
    }
    out
}

fn blank_tile() -> Vec<u8> {
    [0u8, 0, 0, 255].repeat(256)
}

#[test]
fn families_are_numbered_from_zero() {
    let mut atlas = BlockMaterials::new();
    assert_eq!(atlas.new_material(MaterialHandle(40)), Ok(BlockMaterialId(0)));
    assert_eq!(atlas.new_material(MaterialHandle(41)), Ok(BlockMaterialId(1)));
    assert_eq!(atlas.new_material(MaterialHandle(40)), Ok(BlockMaterialId(2)));
    assert_eq!(atlas.sheet_count(), 0);
}

#[test]
fn family_numbers_run_out_below_the_sentinel() {
    let mut atlas = BlockMaterials::new();
    for n in 0..65535u32 {
        assert_eq!(atlas.new_material(MaterialHandle(n as u64)), Ok(BlockMaterialId(n as u16)));
    }
    assert_eq!(atlas.new_material(MaterialHandle(0)), Err(()));
    assert_eq!(atlas.new_material(MaterialHandle(0)), Err(()));
}

#[test]
fn first_texture_opens_a_sheet_with_the_given_material() {
    let mut atlas = BlockMaterials::new();
    let family = atlas.new_material(MaterialHandle(40)).unwrap();
    assert_eq!(atlas.sheet_template(family), Some(MaterialHandle(40)));
    assert_eq!(atlas.new_texture(family, Some(MaterialHandle(100))), Ok(BlockTextureId(0)));
    assert_eq!(atlas.sheet_count(), 1);
    assert_eq!(atlas.get_sheet_material(SheetId(0)), MaterialHandle(100));
    assert_eq!(atlas.sheet_template(family), None);
    // The sheet has room: the material is not looked at.
    assert_eq!(atlas.new_texture(family, None), Ok(BlockTextureId(1)));
    assert_eq!(atlas.new_texture(family, Some(MaterialHandle(7))), Ok(BlockTextureId(2)));
    assert_eq!(atlas.sheet_count(), 1);
    assert_eq!(atlas.get_sheet_material(SheetId(0)), MaterialHandle(100));
}

#[test]
fn texture_needs_a_known_family_and_a_material_for_a_new_sheet() {
    let mut atlas = BlockMaterials::new();
    assert_eq!(atlas.new_texture(BlockMaterialId(0), Some(MaterialHandle(1))), Err(()));
    assert_eq!(atlas.sheet_template(BlockMaterialId(0)), None);
    let family = atlas.new_material(MaterialHandle(40)).unwrap();
    assert_eq!(atlas.new_texture(family, None), Err(()));
    assert_eq!(atlas.sheet_count(), 0);
    assert_eq!(atlas.new_texture(BlockMaterialId(1), Some(MaterialHandle(1))), Err(()));
    assert_eq!(atlas.new_texture(family, Some(MaterialHandle(1))), Ok(BlockTextureId(0)));
}

#[test]
fn full_sheet_makes_the_next_texture_open_exactly_one_sheet() {
    let mut atlas = BlockMaterials::new();
    let family = atlas.new_material(MaterialHandle(40)).unwrap();
    for n in 0..65536u32 {
        let id = atlas.new_texture(family, Some(MaterialHandle(100))).unwrap();
        assert_eq!(id, BlockTextureId(n));
        assert_eq!(id.sheet(), SheetId(0));
        assert_eq!(id.coords().0 as u32, n);
    }
    assert_eq!(atlas.sheet_count(), 1);
    assert_eq!(atlas.sheet_template(family), Some(MaterialHandle(40)));
    // Without a material the full sheet stays the only one.
    assert_eq!(atlas.new_texture(family, None), Err(()));
    assert_eq!(atlas.sheet_count(), 1);
    let next = atlas.new_texture(family, Some(MaterialHandle(101))).unwrap();
    assert_eq!(next, BlockTextureId(65536));
    assert_eq!(next.sheet(), SheetId(1));
    assert_eq!(next.coords().0, 0);
    assert_eq!(atlas.sheet_count(), 2);
    assert_eq!(atlas.get_sheet_material(SheetId(0)), MaterialHandle(100));
    assert_eq!(atlas.get_sheet_material(SheetId(1)), MaterialHandle(101));
    assert_eq!(atlas.new_texture(family, None), Ok(BlockTextureId(65537)));
    assert_eq!(atlas.sheet_count(), 2);
}

#[test]
fn families_fill_their_own_sheets() {
    let mut atlas = BlockMaterials::new();
    let opaque = atlas.new_material(MaterialHandle(1)).unwrap();
    let glassy = atlas.new_material(MaterialHandle(2)).unwrap();
    assert_eq!(atlas.new_texture(opaque, Some(MaterialHandle(10))), Ok(BlockTextureId(0)));
    assert_eq!(atlas.new_texture(opaque, Some(MaterialHandle(11))), Ok(BlockTextureId(1)));
    assert_eq!(atlas.new_texture(glassy, Some(MaterialHandle(20))), Ok(BlockTextureId(65536)));
    assert_eq!(atlas.new_texture(opaque, Some(MaterialHandle(12))), Ok(BlockTextureId(2)));
    assert_eq!(atlas.new_texture(glassy, None), Ok(BlockTextureId(65537)));
    assert_eq!(atlas.sheet_count(), 2);
    assert_eq!(atlas.get_sheet_material(SheetId(0)), MaterialHandle(10));
    assert_eq!(atlas.get_sheet_material(SheetId(1)), MaterialHandle(20));
}

#[test]
fn sheets_run_out_at_the_limit() {
    let mut atlas = BlockMaterials::new();
    assert_eq!(MAX_SHEETS, 65535);
    let mut families = Vec::new();
    for n in 0..65535u32 {
        families.push(atlas.new_material(MaterialHandle(n as u64)).unwrap());
    }
    for (n, family) in families.iter().enumerate() {
        let id = atlas.new_texture(*family, Some(MaterialHandle(0))).unwrap();
        assert_eq!(id, BlockTextureId(n as u32 * 65536));
    }
    assert_eq!(atlas.sheet_count(), 65535);
    // A family with room in its sheet still gets textures.
    assert_eq!(atlas.new_texture(families[3], None), Ok(BlockTextureId(3 * 65536 + 1)));
    // No identifier is the sentinel.
    assert_eq!(
        atlas.new_texture(families[65534], None),
        Ok(BlockTextureId(65534 * 65536 + 1))
    );
}

#[test]
fn image_set_before_its_pixels_are_there_changes_no_pixel() {
    let mut atlas = BlockMaterials::new();
    let family = atlas.new_material(MaterialHandle(1)).unwrap();
    let a = atlas.new_texture(family, Some(MaterialHandle(10))).unwrap();
    for _ in 0..300 {
        atlas.new_texture(family, None).unwrap();
    }
    let face = BlockTextureId(257);
    assert_eq!(atlas.get_block_texture(face), None);
    assert_eq!(atlas.set_block_texture(face, ImageHandle(5), None), Ok(None));
    assert_eq!(atlas.get_block_texture(face), Some(ImageHandle(5)));
    assert!(atlas.sheet_image(SheetId(0)).is_none());
    // Another image's pixels do not reach the face.
    assert_eq!(atlas.image_ready(ImageHandle(6), &image(6)), Ok(()));
    assert!(atlas.sheet_image(SheetId(0)).is_none());
    // The image's own pixels do.
    let src = image(5);
    assert_eq!(atlas.image_ready(ImageHandle(5), &src), Ok(()));
    let sheet = atlas.sheet_image(SheetId(0)).unwrap();
    assert_eq!(sheet.len(), SHEET_BYTES);
    assert_eq!(tile(sheet, face), src);
    assert_eq!(tile(sheet, a), blank_tile());
    assert_eq!(tile(sheet, BlockTextureId(256)), blank_tile());
    assert_eq!(tile(sheet, BlockTextureId(258)), blank_tile());
    assert_eq!(tile(sheet, BlockTextureId(1)), blank_tile());
    let painted = sheet.iter().zip([0u8, 0, 0, 255].iter().cycle()).filter(|(a, b)| a != b).count();
    assert!(painted <= TILE_BYTES && painted > 900);
}

#[test]
fn available_pixels_are_copied_at_once() {
    let mut atlas = BlockMaterials::new();
    let family = atlas.new_material(MaterialHandle(1)).unwrap();
    let a = atlas.new_texture(family, Some(MaterialHandle(10))).unwrap();
    let b = atlas.new_texture(family, None).unwrap();
    let src = image(1);
    assert_eq!(atlas.set_block_texture(b, ImageHandle(1), Some(&src)), Ok(None));
    let sheet = atlas.sheet_image(SheetId(0)).unwrap();
    assert_eq!(tile(sheet, b), src);
    assert_eq!(tile(sheet, a), blank_tile());
}

#[test]
fn every_face_of_an_image_gets_its_pixels() {
    let mut atlas = BlockMaterials::new();
    let one = atlas.new_material(MaterialHandle(1)).unwrap();
    let two = atlas.new_material(MaterialHandle(2)).unwrap();
    let a = atlas.new_texture(one, Some(MaterialHandle(10))).unwrap();
    let b = atlas.new_texture(one, None).unwrap();
    let c = atlas.new_texture(two, Some(MaterialHandle(20))).unwrap();
    let d = atlas.new_texture(one, None).unwrap();
    assert_eq!(atlas.set_block_texture(a, ImageHandle(9), None), Ok(None));
    assert_eq!(atlas.set_block_texture(c, ImageHandle(9), None), Ok(None));
    assert_eq!(atlas.set_block_texture(d, ImageHandle(9), None), Ok(None));
    assert_eq!(atlas.set_block_texture(b, ImageHandle(8), None), Ok(None));
    let src = image(9);
    assert_eq!(atlas.image_ready(ImageHandle(9), &src), Ok(()));
    assert_eq!(tile(atlas.sheet_image(SheetId(0)).unwrap(), a), src);
    assert_eq!(tile(atlas.sheet_image(SheetId(0)).unwrap(), d), src);
    assert_eq!(tile(atlas.sheet_image(SheetId(0)).unwrap(), b), blank_tile());
    assert_eq!(tile(atlas.sheet_image(SheetId(1)).unwrap(), c), src);
    // A changed image is copied again.
    let newer = image(99);
    assert_eq!(atlas.image_ready(ImageHandle(9), &newer), Ok(()));
    assert_eq!(tile(atlas.sheet_image(SheetId(0)).unwrap(), a), newer);
    assert_eq!(tile(atlas.sheet_image(SheetId(1)).unwrap(), c), newer);
}

#[test]
fn setting_the_same_image_again_does_nothing() {
    let mut atlas = BlockMaterials::new();
    let family = atlas.new_material(MaterialHandle(1)).unwrap();
    let a = atlas.new_texture(family, Some(MaterialHandle(10))).unwrap();
    let first = image(1);
    let second = image(2);
    assert_eq!(atlas.set_block_texture(a, ImageHandle(1), Some(&first)), Ok(None));
    assert_eq!(atlas.set_block_texture(a, ImageHandle(1), Some(&second)), Ok(Some(ImageHandle(1))));
    assert_eq!(tile(atlas.sheet_image(SheetId(0)).unwrap(), a), first);
    assert_eq!(atlas.set_block_texture(a, ImageHandle(1), None), Ok(Some(ImageHandle(1))));
    assert_eq!(atlas.get_block_texture(a), Some(ImageHandle(1)));
    // The face still waits for the image.
    assert_eq!(atlas.image_ready(ImageHandle(1), &second), Ok(()));
    assert_eq!(tile(atlas.sheet_image(SheetId(0)).unwrap(), a), second);
}

#[test]
fn new_image_replaces_the_old_one_in_the_index() {
    let mut atlas = BlockMaterials::new();
    let family = atlas.new_material(MaterialHandle(1)).unwrap();
    let a = atlas.new_texture(family, Some(MaterialHandle(10))).unwrap();
    assert_eq!(atlas.set_block_texture(a, ImageHandle(1), None), Ok(None));
    assert_eq!(atlas.set_block_texture(a, ImageHandle(2), None), Ok(Some(ImageHandle(1))));
    assert_eq!(atlas.image_ready(ImageHandle(1), &image(1)), Ok(()));
    assert!(atlas.sheet_image(SheetId(0)).is_none());
    assert_eq!(atlas.image_ready(ImageHandle(2), &image(2)), Ok(()));
    assert_eq!(tile(atlas.sheet_image(SheetId(0)).unwrap(), a), image(2));
}

#[test]
fn removed_image_reaches_no_face_any_more() {
    let mut atlas = BlockMaterials::new();
    let family = atlas.new_material(MaterialHandle(1)).unwrap();
    let a = atlas.new_texture(family, Some(MaterialHandle(10))).unwrap();
    let b = atlas.new_texture(family, None).unwrap();
    assert_eq!(atlas.set_block_texture(a, ImageHandle(1), Some(&image(1))), Ok(None));
    assert_eq!(atlas.set_block_texture(b, ImageHandle(2), Some(&image(2))), Ok(None));
    atlas.image_removed(ImageHandle(1));
    atlas.image_removed(ImageHandle(33));
    // The pixels stay, and so does the binding.
    assert_eq!(tile(atlas.sheet_image(SheetId(0)).unwrap(), a), image(1));
    assert_eq!(atlas.get_block_texture(a), Some(ImageHandle(1)));
    assert_eq!(atlas.image_ready(ImageHandle(1), &image(7)), Ok(()));
    assert_eq!(tile(atlas.sheet_image(SheetId(0)).unwrap(), a), image(1));
    assert_eq!(atlas.image_ready(ImageHandle(2), &image(8)), Ok(()));
    assert_eq!(tile(atlas.sheet_image(SheetId(0)).unwrap(), b), image(8));
    // Setting the image that is still bound does not enter it again.
    assert_eq!(atlas.set_block_texture(a, ImageHandle(1), None), Ok(Some(ImageHandle(1))));
    assert_eq!(atlas.image_ready(ImageHandle(1), &image(7)), Ok(()));
    assert_eq!(tile(atlas.sheet_image(SheetId(0)).unwrap(), a), image(1));
}

#[test]
fn setting_an_image_fails_on_unknown_faces_and_wrong_sizes() {
    let mut atlas = BlockMaterials::new();
    assert_eq!(atlas.set_block_texture(BlockTextureId(0), ImageHandle(1), None), Err(()));
    let family = atlas.new_material(MaterialHandle(1)).unwrap();
    let a = atlas.new_texture(family, Some(MaterialHandle(10))).unwrap();
    assert_eq!(atlas.set_block_texture(BlockTextureId(1), ImageHandle(1), None), Err(()));
    assert_eq!(atlas.set_block_texture(BlockTextureId(65536), ImageHandle(1), None), Err(()));
    assert_eq!(atlas.set_block_texture(BlockTextureId(u32::MAX), ImageHandle(1), None), Err(()));
    assert_eq!(atlas.get_block_texture(BlockTextureId(u32::MAX)), None);
    let short = vec![0u8; TILE_BYTES - 1];
    let long = vec![0u8; TILE_BYTES * 4];
    assert_eq!(atlas.set_block_texture(a, ImageHandle(1), Some(&short)), Err(()));
    assert_eq!(atlas.set_block_texture(a, ImageHandle(1), Some(&long)), Err(()));
    assert_eq!(atlas.get_block_texture(a), None);
    assert_eq!(atlas.image_ready(ImageHandle(1), &short), Err(()));
    assert_eq!(atlas.image_ready(ImageHandle(1), &long), Err(()));
    assert!(atlas.sheet_image(SheetId(0)).is_none());
    assert!(atlas.sheet_image(SheetId(1)).is_none());
}

#[test]
fn events_are_taken_in_order() {
    let mut atlas = BlockMaterials::new();
    let family = atlas.new_material(MaterialHandle(1)).unwrap();
    let a = atlas.new_texture(family, Some(MaterialHandle(10))).unwrap();
    let b = atlas.new_texture(family, None).unwrap();
    assert_eq!(atlas.set_block_texture(a, ImageHandle(1), None), Ok(None));
    assert_eq!(atlas.set_block_texture(b, ImageHandle(2), None), Ok(None));
    let events = vec![
        ImageEvent::Ready { image: ImageHandle(1), pixels: image(1) },
        ImageEvent::Ready { image: ImageHandle(1), pixels: vec![1, 2, 3] },
        ImageEvent::Ready { image: ImageHandle(2), pixels: image(2) },
        ImageEvent::Removed { image: ImageHandle(2) },
        ImageEvent::Ready { image: ImageHandle(2), pixels: image(3) },
        ImageEvent::Ready { image: ImageHandle(1), pixels: image(4) },
        ImageEvent::Ready { image: ImageHandle(5), pixels: Vec::new() },
    ];
    assert_eq!(blit_loaded_textures(&mut atlas, &events), 2);
    let sheet = atlas.sheet_image(SheetId(0)).unwrap();
    assert_eq!(tile(sheet, a), image(4));
    assert_eq!(tile(sheet, b), image(2));
    assert_eq!(blit_loaded_textures(&mut atlas, &Vec::new()), 0);
}

#[test]
fn default_atlas_is_empty() {
    let mut atlas = BlockMaterials::default();
    assert_eq!(atlas.sheet_count(), 0);
    assert!(atlas.sheet_image(SheetId(0)).is_none());
    assert_eq!(atlas.get_block_texture(BlockTextureId(0)), None);
    assert_eq!(atlas.image_ready(ImageHandle(1), &image(1)), Ok(()));
    atlas.image_removed(ImageHandle(1));
    assert_eq!(atlas.sheet_count(), 0);
    assert_eq!(atlas.new_material(MaterialHandle(3)), Ok(BlockMaterialId(0)));
}
