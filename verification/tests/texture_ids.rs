use mellanite::block::texture::{
    BlockTextureId, SheetCoords, SheetId, BORDER_WIDTH, SHEET_HEIGHT, SHEET_SIZE, TEXTURE_HEIGHT,
    TILE_SPAN, UV_DENOMINATOR,
};

#[test]
fn id_decodes_to_sheet_and_tile() {
    assert_eq!(BlockTextureId(0).sheet(), SheetId(0));
    assert_eq!(BlockTextureId(0).coords(), SheetCoords(0));
    assert_eq!(BlockTextureId(65535).sheet(), SheetId(0));
    assert_eq!(BlockTextureId(65535).coords(), SheetCoords(65535));
    assert_eq!(BlockTextureId(65536).sheet(), SheetId(1));
    assert_eq!(BlockTextureId(65536).coords(), SheetCoords(0));
    assert_eq!(BlockTextureId(3 * 65536 + 2 * 256 + 7).sheet(), SheetId(3));
    assert_eq!(BlockTextureId(3 * 65536 + 2 * 256 + 7).coords(), SheetCoords(2 * 256 + 7));
    assert_eq!(BlockTextureId(u32::MAX).sheet(), SheetId(65535));
    assert_eq!(BlockTextureId(u32::MAX).coords(), SheetCoords(65535));
}

#[test]
fn coords_decode_to_column_and_row() {
    assert_eq!((SheetCoords(0).x_ix(), SheetCoords(0).y_ix()), (0, 0));
    assert_eq!((SheetCoords(255).x_ix(), SheetCoords(255).y_ix()), (255, 0));
    assert_eq!((SheetCoords(256).x_ix(), SheetCoords(256).y_ix()), (0, 1));
    assert_eq!((SheetCoords(2 * 256 + 7).x_ix(), SheetCoords(2 * 256 + 7).y_ix()), (7, 2));
    assert_eq!((SheetCoords(65535).x_ix(), SheetCoords(65535).y_ix()), (255, 255));
}

#[test]
fn corners_are_inset_by_the_border() {
    let c = SheetCoords(0);
    assert_eq!(c.top_left(), [1, 1]);
    assert_eq!(c.top_right(), [159, 1]);
    assert_eq!(c.bottom_left(), [1, 159]);
    assert_eq!(c.bottom_right(), [159, 159]);
    let c = SheetCoords(2 * 256 + 7);
    assert_eq!(c.top_left(), [7 * 160 + 1, 2 * 160 + 1]);
    assert_eq!(c.top_right(), [8 * 160 - 1, 2 * 160 + 1]);
    assert_eq!(c.bottom_left(), [7 * 160 + 1, 3 * 160 - 1]);
    assert_eq!(c.bottom_right(), [8 * 160 - 1, 3 * 160 - 1]);
    let c = SheetCoords(65535);
    assert_eq!(c.top_left(), [40801, 40801]);
    assert_eq!(c.bottom_right(), [40959, 40959]);
}

#[test]
fn constants_agree_with_each_other() {
    assert_eq!(SHEET_SIZE, SHEET_HEIGHT * SHEET_HEIGHT);
    assert_eq!(TILE_SPAN as usize * SHEET_HEIGHT, UV_DENOMINATOR as usize);
    // The border is a tenth of a pixel.
    assert_eq!(BORDER_WIDTH * 10 * (TEXTURE_HEIGHT * SHEET_HEIGHT) as u32, UV_DENOMINATOR);
}

#[test]
fn corners_convert_to_the_unit_square() {
    let border = 0.1f32 / (16.0 * 256.0);
    for tile in [0u16, 1, 255, 256, 2 * 256 + 7, 65535] {
        let c = SheetCoords(tile);
        let x = c.x_ix() as f32;
        let y = c.y_ix() as f32;
        let want = [x / 256.0 + border, y / 256.0 + border];
        let got = c.top_left();
        assert!((got[0] as f32 / UV_DENOMINATOR as f32 - want[0]).abs() < 1e-6);
        assert!((got[1] as f32 / UV_DENOMINATOR as f32 - want[1]).abs() < 1e-6);
        let want = [(x + 1.0) / 256.0 - border, (y + 1.0) / 256.0 - border];
        let got = c.bottom_right();
        assert!((got[0] as f32 / UV_DENOMINATOR as f32 - want[0]).abs() < 1e-6);
        assert!((got[1] as f32 / UV_DENOMINATOR as f32 - want[1]).abs() < 1e-6);
    }
}
