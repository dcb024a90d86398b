//! The pixels of an atlas sheet. A sheet is 4096 x 4096 pixels of four
//! bytes each, stored row by row; it holds 256 x 256 tiles of 16 x 16
//! pixels, numbered row by row.

use vstd::prelude::*;

use crate::block::texture::SheetCoords;

verus! {

/// Bytes of one tile: 16 x 16 pixels of four bytes.
pub const TILE_BYTES: usize = 1024;

/// Bytes of one row of pixels of a tile.
pub const TILE_ROW_BYTES: usize = 64;

/// Bytes of one row of pixels of a sheet.
pub const ROW_BYTES: usize = 16384;

/// Bytes of one row of tiles of a sheet.
pub const TILE_BAND_BYTES: usize = 262144;

/// Bytes of a sheet.
pub const SHEET_BYTES: usize = 67108864;

/// The tile that holds byte `j` of a sheet.
pub open spec fn byte_tile(j: int) -> int {
    (j / 262144) * 256 + (j % 16384) / 64
}

/// The place of byte `j` of a sheet within its tile.
pub open spec fn byte_offset(j: int) -> int {
    ((j / 16384) % 16) * 64 + j % 64
}

/// The place within a sheet of byte `k` of tile `tile`.
pub open spec fn tile_byte(tile: int, k: int) -> int {
    (tile / 256) * 262144 + (k / 64) * 16384 + (tile % 256) * 64 + k % 64
}

/// A sheet that no tile was copied into: black, opaque pixels.
pub open spec fn blank_sheet() -> Seq<u8> {
    Seq::new(
        67108864,
        |j: int|
            if j % 4 == 3 {
                255u8
            } else {
                0u8
            },
    )
}

/// The sheet after `src` was copied into tile `tile`, byte for byte.
pub open spec fn blitted(pixels: Seq<u8>, tile: int, src: Seq<u8>) -> Seq<u8> {
    Seq::new(
        pixels.len(),
        |j: int|
            if byte_tile(j) == tile {
                src[byte_offset(j)]
            } else {
                pixels[j]
            },
    )
}

/// The bytes of tile `tile` of a sheet.
pub open spec fn tile_pixels(pixels: Seq<u8>, tile: int) -> Seq<u8> {
    Seq::new(1024, |k: int| pixels[tile_byte(tile, k)])
}

/// Every byte of a tile has a place in the sheet, and that place belongs
/// to the tile.
pub proof fn lemma_tile_byte(tile: int, k: int)
    requires
        0 <= tile < 65536,
        0 <= k < 1024,
    ensures
        0 <= tile_byte(tile, k) < 67108864,
        byte_tile(tile_byte(tile, k)) == tile,
        byte_offset(tile_byte(tile, k)) == k,
{
    let ty = tile / 256;
    let tx = tile % 256;
    let r = k / 64;
    let b = k % 64;
    let j = ty * 262144 + r * 16384 + tx * 64 + b;
    assert(j == tile_byte(tile, k));
    assert(0 <= r * 16384 + tx * 64 + b < 262144);
    assert(j / 262144 == ty);
    assert(j % 16384 == tx * 64 + b) by {
        assert(j == (ty * 16 + r) * 16384 + (tx * 64 + b));
    }
    assert((tx * 64 + b) / 64 == tx);
    assert(j / 16384 == ty * 16 + r) by {
        assert(j == (ty * 16 + r) * 16384 + (tx * 64 + b));
    }
    assert((ty * 16 + r) % 16 == r);
    assert(j % 64 == b) by {
        assert(j == (ty * 4096 + r * 256 + tx) * 64 + b);
    }
}

/// Every byte of a sheet belongs to exactly one tile.
pub proof fn lemma_byte_tile(j: int)
    requires
        0 <= j < 67108864,
    ensures
        0 <= byte_tile(j) < 65536,
        0 <= byte_offset(j) < 1024,
        tile_byte(byte_tile(j), byte_offset(j)) == j,
{
    let ty = j / 262144;
    let within = j % 16384;
    let tx = within / 64;
    let row = j / 16384;
    let r = row % 16;
    let b = j % 64;
    assert(within % 64 == b) by {
        assert(j == row * 16384 + within);
        assert(j == (row * 256 + within / 64) * 64 + within % 64);
    }
    assert(row / 16 == ty) by {
        assert(j == row * 16384 + within);
        assert(row == (row / 16) * 16 + r);
        assert(j == (row / 16) * 262144 + (r * 16384 + within));
    }
    let tile = ty * 256 + tx;
    let k = r * 64 + b;
    assert(tile / 256 == ty && tile % 256 == tx);
    assert(k / 64 == r && k % 64 == b);
    assert(tile_byte(tile, k) == ty * 262144 + r * 16384 + tx * 64 + b);
    assert(j == row * 16384 + within);
    assert(within == tx * 64 + b);
    assert(row == ty * 16 + r);
}

/// A tile that was copied into reads back as what was copied.
pub proof fn lemma_blit_reads_back(pixels: Seq<u8>, tile: int, src: Seq<u8>)
    requires
        pixels.len() == 67108864,
        src.len() == 1024,
        0 <= tile < 65536,
    ensures
        tile_pixels(blitted(pixels, tile, src), tile) == src,
{
    let out = tile_pixels(blitted(pixels, tile, src), tile);
    assert forall|k: int| 0 <= k < 1024 implies out[k] == src[k] by {
        lemma_tile_byte(tile, k);
    }
    assert(out =~= src);
}

/// Copying into one tile leaves every other tile as it was.
pub proof fn lemma_blit_keeps_others(pixels: Seq<u8>, tile: int, src: Seq<u8>, other: int)
    requires
        pixels.len() == 67108864,
        0 <= other < 65536,
        other != tile,
    ensures
        tile_pixels(blitted(pixels, tile, src), other) == tile_pixels(pixels, other),
{
    let out = tile_pixels(blitted(pixels, tile, src), other);
    let was = tile_pixels(pixels, other);
    assert forall|k: int| 0 <= k < 1024 implies out[k] == was[k] by {
        lemma_tile_byte(other, k);
    }
    assert(out =~= was);
}

/// A sheet of black, opaque pixels.
pub fn blank() -> (r: Vec<u8>)
    ensures
        r@ == blank_sheet(),
{
    let mut r: Vec<u8> = vec![0u8; 67108864];
    let mut j: usize = 3;
    while j < SHEET_BYTES
        invariant
            r@.len() == 67108864,
            j % 4 == 3,
            j <= 67108864 + 3,
            forall|i: int|
                0 <= i < 67108864 ==> #[trigger] r@[i] == (if i % 4 == 3 && i < j {
                    255u8
                } else {
                    0u8
                }),
        decreases 67108864 + 3 - j,
    {
        r[j] = 255;
        j += 4;
    }
    assert(r@ =~= blank_sheet());
    r
}

/// Copies a tile-sized image into the tile at `coords` of a sheet, byte
/// for byte. Nothing outside the tile changes.
pub fn blit(target: &mut Vec<u8>, coords: SheetCoords, texture: &Vec<u8>)
    requires
        old(target)@.len() == 67108864,
        texture@.len() == 1024,
    ensures
        final(target)@ == blitted(old(target)@, coords.0 as int, texture@),
{
    let ghost tile = coords.0 as int;
    let start: usize = coords.x_ix() as usize * TILE_ROW_BYTES + coords.y_ix() as usize
        * TILE_BAND_BYTES;
    let mut y: usize = 0;
    while y < 16
        invariant
            y <= 16,
            target@.len() == 67108864,
            texture@.len() == 1024,
            tile == coords.0,
            start == (tile / 256) * 262144 + (tile % 256) * 64,
            forall|j: int|
                0 <= j < 67108864 ==> #[trigger] target@[j] == (if byte_tile(j) == tile
                    && byte_offset(j) < y * 64 {
                    texture@[byte_offset(j)]
                } else {
                    old(target)@[j]
                }),
        decreases 16 - y,
    {
        let mut b: usize = 0;
        while b < 64
            invariant
                y < 16,
                b <= 64,
                target@.len() == 67108864,
                texture@.len() == 1024,
                tile == coords.0,
                start == (tile / 256) * 262144 + (tile % 256) * 64,
                forall|j: int|
                    0 <= j < 67108864 ==> #[trigger] target@[j] == (if byte_tile(j) == tile
                        && byte_offset(j) < y * 64 + b {
                        texture@[byte_offset(j)]
                    } else {
                        old(target)@[j]
                    }),
            decreases 64 - b,
        {
            let k: usize = y * TILE_ROW_BYTES + b;
            let at: usize = start + b + y * ROW_BYTES;
            proof {
                lemma_tile_byte(tile, k as int);
                assert(k / 64 == y && k % 64 == b);
                assert(at == tile_byte(tile, k as int));
            }
            let ghost prev = target@;
            target[at] = texture[k];
            assert forall|j: int| 0 <= j < 67108864 implies #[trigger] target@[j] == (if byte_tile(
                j,
            ) == tile && byte_offset(j) < y * 64 + b + 1 {
                texture@[byte_offset(j)]
            } else {
                old(target)@[j]
            }) by {
                lemma_byte_tile(j);
                assert(prev[j] == (if byte_tile(j) == tile && byte_offset(j) < y * 64 + b {
                    texture@[byte_offset(j)]
                } else {
                    old(target)@[j]
                }));
            }
            b += 1;
        }
        y += 1;
    }
    proof {
        assert forall|j: int| 0 <= j < 67108864 implies target@[j] == blitted(
            old(target)@,
            tile,
            texture@,
        )[j] by {
            lemma_byte_tile(j);
        }
        assert(target@ =~= blitted(old(target)@, tile, texture@));
    }
}

} // verus!
