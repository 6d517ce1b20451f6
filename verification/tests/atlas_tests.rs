use glyph_atlas::atlas::{AtlasError, GlyphBitmap, Rect, TextureAtlas, MAX_ATLAS_DIM};

fn rect(x: u32, y: u32, width: u32, height: u32) -> Rect {
    Rect { x, y, width, height }
}

fn snapshot(atlas: &TextureAtlas) -> Vec<Option<u8>> {
    let mut out = Vec::new();
    for y in 0..atlas.height() {
        for x in 0..atlas.width() {
            out.push(atlas.pixel(x, y));
        }
    }
    out
}

#[test]
fn new_atlas_is_empty_and_zeroed() {
    let atlas = TextureAtlas::new(16, 8).unwrap();
    assert_eq!(atlas.width(), 16);
    assert_eq!(atlas.height(), 8);
    assert_eq!(atlas.len(), 0);
    assert_eq!(atlas.pixel(0, 0), Some(0));
    assert_eq!(atlas.pixel(15, 7), Some(0));
    assert_eq!(atlas.pixel(16, 0), None);
    assert_eq!(atlas.pixel(0, 8), None);
    assert_eq!(atlas.rect_of(65), None);
    assert_eq!(atlas.entry(0), None);
}

#[test]
fn new_atlas_refuses_bad_sizes() {
    assert_eq!(TextureAtlas::new(0, 4).err(), Some(AtlasError::InvalidSize));
    assert_eq!(TextureAtlas::new(4, 0).err(), Some(AtlasError::InvalidSize));
    assert_eq!(TextureAtlas::new(MAX_ATLAS_DIM + 1, 1).err(), Some(AtlasError::InvalidSize));
    assert!(TextureAtlas::new(1, 1).is_ok());
}

#[test]
fn shelf_packer_fills_rows_left_to_right() {
    let mut atlas = TextureAtlas::new(16, 16).unwrap();
    assert_eq!(atlas.reserve(65, &GlyphBitmap::filled(4, 5, 6, 200)), Ok(0));
    assert_eq!(atlas.reserve(66, &GlyphBitmap::filled(10, 3, 11, 100)), Ok(1));
    assert_eq!(atlas.reserve(67, &GlyphBitmap::filled(4, 4, 5, 50)), Ok(2));
    assert_eq!(atlas.rect_of(65), Some(rect(0, 0, 4, 5)));
    assert_eq!(atlas.rect_of(66), Some(rect(4, 0, 10, 3)));
    assert_eq!(atlas.rect_of(67), Some(rect(0, 5, 4, 4)));
    assert_eq!(atlas.width(), 16);
    assert_eq!(atlas.height(), 16);
    assert_eq!(atlas.len(), 3);
    assert_eq!(atlas.pixel(0, 0), Some(200));
    assert_eq!(atlas.pixel(3, 4), Some(200));
    assert_eq!(atlas.pixel(4, 0), Some(100));
    assert_eq!(atlas.pixel(13, 2), Some(100));
    assert_eq!(atlas.pixel(4, 3), Some(0));
    assert_eq!(atlas.pixel(14, 0), Some(0));
    assert_eq!(atlas.pixel(0, 5), Some(50));
    assert_eq!(atlas.pixel(3, 8), Some(50));
    assert_eq!(atlas.pixel(4, 5), Some(0));
    let entry = atlas.entry(1).unwrap();
    assert_eq!(entry.glyph_id, 66);
    assert_eq!(entry.advance, 11);
    assert!(!entry.placeholder);
    assert_eq!(atlas.find(67), Some(2));
    assert_eq!(atlas.find(68), None);
}

#[test]
fn reserve_is_idempotent() {
    let mut atlas = TextureAtlas::new(16, 16).unwrap();
    assert_eq!(atlas.reserve(65, &GlyphBitmap::filled(4, 5, 6, 200)), Ok(0));
    assert_eq!(atlas.reserve(66, &GlyphBitmap::filled(3, 3, 3, 7)), Ok(1));
    let before = snapshot(&atlas);
    assert_eq!(atlas.reserve(65, &GlyphBitmap::filled(4, 5, 6, 200)), Ok(0));
    assert_eq!(atlas.reserve(65, &GlyphBitmap::filled(9, 9, 9, 9)), Ok(0));
    assert_eq!(atlas.len(), 2);
    assert_eq!(atlas.rect_of(65), Some(rect(0, 0, 4, 5)));
    assert_eq!(snapshot(&atlas), before);
}

#[test]
fn reserve_grows_without_moving_rectangles() {
    let mut atlas = TextureAtlas::new(4, 4).unwrap();
    assert_eq!(atlas.reserve(1, &GlyphBitmap::filled(3, 3, 3, 9)), Ok(0));
    assert_eq!(atlas.reserve(2, &GlyphBitmap::filled(3, 3, 3, 7)), Ok(1));
    assert_eq!(atlas.width(), 8);
    assert_eq!(atlas.height(), 8);
    assert_eq!(atlas.rect_of(1), Some(rect(0, 0, 3, 3)));
    assert_eq!(atlas.rect_of(2), Some(rect(3, 0, 3, 3)));
    assert_eq!(atlas.pixel(0, 0), Some(9));
    assert_eq!(atlas.pixel(2, 2), Some(9));
    assert_eq!(atlas.pixel(3, 0), Some(7));
    assert_eq!(atlas.pixel(5, 2), Some(7));
    assert_eq!(atlas.pixel(6, 0), Some(0));
    assert_eq!(atlas.pixel(0, 3), Some(0));
    assert_eq!(atlas.pixel(7, 7), Some(0));
}

#[test]
fn reserve_doubles_until_the_bitmap_fits() {
    let mut atlas = TextureAtlas::new(4, 4).unwrap();
    assert_eq!(atlas.reserve(1, &GlyphBitmap::filled(9, 2, 9, 1)), Ok(0));
    assert_eq!(atlas.width(), 16);
    assert_eq!(atlas.height(), 16);
    assert_eq!(atlas.rect_of(1), Some(rect(0, 0, 9, 2)));
}

#[test]
fn reserve_reports_atlas_full_and_changes_nothing() {
    let mut atlas = TextureAtlas::new(4, 4).unwrap();
    assert_eq!(atlas.reserve(1, &GlyphBitmap::filled(2, 2, 2, 5)), Ok(0));
    let before = snapshot(&atlas);
    let wide = GlyphBitmap::filled(MAX_ATLAS_DIM + 1, 1, 1, 1);
    assert_eq!(atlas.reserve(2, &wide), Err(AtlasError::AtlasFull));
    assert_eq!(atlas.width(), 4);
    assert_eq!(atlas.height(), 4);
    assert_eq!(atlas.len(), 1);
    assert_eq!(atlas.rect_of(2), None);
    assert_eq!(snapshot(&atlas), before);
}

#[test]
fn grow_keeps_pixels_and_rectangles() {
    let mut atlas = TextureAtlas::new(4, 2).unwrap();
    assert_eq!(atlas.reserve(1, &GlyphBitmap::filled(2, 2, 2, 5)), Ok(0));
    assert_eq!(atlas.grow(3), Ok(()));
    assert_eq!(atlas.width(), 12);
    assert_eq!(atlas.height(), 6);
    assert_eq!(atlas.rect_of(1), Some(rect(0, 0, 2, 2)));
    assert_eq!(atlas.pixel(1, 1), Some(5));
    assert_eq!(atlas.pixel(2, 1), Some(0));
    assert_eq!(atlas.pixel(11, 5), Some(0));
    assert_eq!(atlas.grow(1), Ok(()));
    assert_eq!(atlas.width(), 12);
}

#[test]
fn grow_refuses_zero_and_oversize() {
    let mut atlas = TextureAtlas::new(8, 8).unwrap();
    assert_eq!(atlas.grow(0), Err(AtlasError::GrowthFailed));
    assert_eq!(atlas.grow(3000), Err(AtlasError::GrowthFailed));
    assert_eq!(atlas.grow(u32::MAX), Err(AtlasError::GrowthFailed));
    assert_eq!(atlas.width(), 8);
    assert_eq!(atlas.height(), 8);
    assert_eq!(atlas.grow(1024), Ok(()));
    assert_eq!(atlas.width(), MAX_ATLAS_DIM);
}

#[test]
fn bitmap_from_rows_checks_the_grid() {
    let good = GlyphBitmap::from_rows(2, vec![vec![1, 2], vec![3, 4]], 3).unwrap();
    assert_eq!(good.width(), 2);
    assert_eq!(good.height(), 2);
    assert_eq!(good.advance(), 3);
    assert!(GlyphBitmap::from_rows(2, vec![vec![1, 2], vec![3]], 3).is_none());
    assert!(GlyphBitmap::from_rows(0, vec![], 3).is_some());
    let mut atlas = TextureAtlas::new(4, 4).unwrap();
    assert_eq!(atlas.reserve(7, &GlyphBitmap::filled(1, 1, 1, 9)), Ok(0));
    assert_eq!(atlas.reserve(8, &good), Ok(1));
    assert_eq!(atlas.pixel(0, 0), Some(9));
    assert_eq!(atlas.pixel(1, 0), Some(1));
    assert_eq!(atlas.pixel(2, 0), Some(2));
    assert_eq!(atlas.pixel(1, 1), Some(3));
    assert_eq!(atlas.pixel(2, 1), Some(4));
    assert_eq!(atlas.pixel(0, 1), Some(0));
}

#[test]
fn empty_bitmaps_take_no_room() {
    let mut atlas = TextureAtlas::new(4, 4).unwrap();
    assert_eq!(atlas.reserve(32, &GlyphBitmap::filled(0, 0, 3, 0)), Ok(0));
    assert_eq!(atlas.reserve(65, &GlyphBitmap::filled(4, 4, 4, 1)), Ok(1));
    assert_eq!(atlas.rect_of(32), Some(rect(0, 0, 0, 0)));
    assert_eq!(atlas.rect_of(65), Some(rect(0, 0, 4, 4)));
    assert_eq!(atlas.width(), 4);
}
