use glyph_atlas::atlas::{AtlasError, GlyphBitmap, Rect, MAX_ATLAS_DIM};
use glyph_atlas::font::{Font, RasterizeError};
use glyph_atlas::font_atlas::{text_chars, FontAtlas, LayoutError, Placement, Position};

fn sample_font() -> Font {
    let mut font = Font::new();
    font.add_glyph('A', 12, GlyphBitmap::filled(7, 9, 8, 10));
    font.add_glyph('B', 12, GlyphBitmap::filled(6, 9, 7, 20));
    font.add_glyph('C', 12, GlyphBitmap::filled(5, 9, 6, 30));
    font.add_glyph('A', 24, GlyphBitmap::filled(14, 18, 16, 40));
    font
}

fn pixels(atlas: &FontAtlas) -> Vec<Option<u8>> {
    let mut out = Vec::new();
    for y in 0..atlas.atlas().height() {
        for x in 0..atlas.atlas().width() {
            out.push(atlas.atlas().pixel(x, y));
        }
    }
    out
}

fn at(rect_id: usize, x: i64, y: i64) -> Placement {
    Placement { rect_id, offset: Position { x, y } }
}

#[test]
fn text_chars_lists_codepoints() {
    assert_eq!(text_chars(""), Vec::<char>::new());
    assert_eq!(text_chars("Hi"), vec!['H', 'i']);
    assert_eq!(text_chars("a\u{e9}\u{4e2d}"), vec!['a', '\u{e9}', '\u{4e2d}']);
}

#[test]
fn rasterize_finds_by_codepoint_and_size() {
    let font = sample_font();
    assert_eq!(font.glyph_count(), 4);
    assert_eq!(font.rasterize('A', 12).unwrap().width(), 7);
    assert_eq!(font.rasterize('A', 24).unwrap().width(), 14);
    assert_eq!(font.rasterize('B', 12).unwrap().advance(), 7);
    assert_eq!(font.rasterize('B', 24).err(), Some(RasterizeError::MissingGlyph));
    assert_eq!(font.rasterize('z', 12).err(), Some(RasterizeError::MissingGlyph));
}

#[test]
fn first_glyph_added_wins() {
    let mut font = Font::new();
    font.add_glyph('A', 12, GlyphBitmap::filled(1, 1, 1, 1));
    font.add_glyph('A', 12, GlyphBitmap::filled(2, 2, 2, 2));
    assert_eq!(font.rasterize('A', 12).unwrap().width(), 1);
}

#[test]
fn ensure_glyphs_packs_each_codepoint_once() {
    let font = sample_font();
    let mut atlas = FontAtlas::with_size(12, 64, 64).unwrap();
    assert_eq!(atlas.font_size(), 12);
    assert_eq!(atlas.ensure_glyphs(&font, "ABBA"), Ok(vec![]));
    assert_eq!(atlas.atlas().len(), 2);
    assert_eq!(atlas.rect_id_of('A'), Some(0));
    assert_eq!(atlas.rect_id_of('B'), Some(1));
    assert_eq!(atlas.rect_id_of('C'), None);
    assert_eq!(atlas.atlas().rect_of('A' as u32), Some(Rect { x: 0, y: 0, width: 7, height: 9 }));
    assert_eq!(atlas.atlas().rect_of('B' as u32), Some(Rect { x: 7, y: 0, width: 6, height: 9 }));
    assert_eq!(atlas.atlas().pixel(6, 8), Some(10));
    assert_eq!(atlas.atlas().pixel(7, 0), Some(20));
}

#[test]
fn ensure_glyphs_twice_changes_nothing() {
    let font = sample_font();
    let mut atlas = FontAtlas::with_size(12, 16, 16).unwrap();
    assert_eq!(atlas.ensure_glyphs(&font, "ABC"), Ok(vec![]));
    let count = atlas.atlas().len();
    let width = atlas.atlas().width();
    let before = pixels(&atlas);
    assert_eq!(atlas.ensure_glyphs(&font, "ABC"), Ok(vec![]));
    assert_eq!(atlas.atlas().len(), count);
    assert_eq!(atlas.atlas().width(), width);
    assert_eq!(pixels(&atlas), before);
}

#[test]
fn rectangle_ids_stay_valid_as_the_atlas_fills() {
    let font = sample_font();
    let mut atlas = FontAtlas::with_size(12, 8, 8).unwrap();
    assert_eq!(atlas.ensure_glyphs(&font, "A"), Ok(vec![]));
    let first = atlas.atlas().entry(0).unwrap();
    assert_eq!(atlas.ensure_glyphs(&font, "B"), Ok(vec![]));
    assert_eq!(atlas.ensure_glyphs(&font, "CAB"), Ok(vec![]));
    assert_eq!(atlas.atlas().len(), 3);
    assert_eq!(atlas.atlas().entry(0), Some(first));
    assert_eq!(atlas.rect_id_of('A'), Some(0));
    assert_eq!(atlas.rect_id_of('B'), Some(1));
    assert_eq!(atlas.rect_id_of('C'), Some(2));
    assert_eq!(atlas.atlas().pixel(0, 0), Some(10));
}

#[test]
fn packing_does_not_depend_on_repeated_subsets() {
    let font = sample_font();
    let mut once = FontAtlas::with_size(12, 16, 32).unwrap();
    assert_eq!(once.ensure_glyphs(&font, "ABC"), Ok(vec![]));
    let mut often = FontAtlas::with_size(12, 16, 32).unwrap();
    assert_eq!(often.ensure_glyphs(&font, "ABC"), Ok(vec![]));
    assert_eq!(often.ensure_glyphs(&font, "CB"), Ok(vec![]));
    assert_eq!(often.ensure_glyphs(&font, "A"), Ok(vec![]));
    assert_eq!(often.ensure_glyphs(&font, "BAC"), Ok(vec![]));
    for c in ['A', 'B', 'C'] {
        assert_eq!(once.atlas().rect_of(c as u32), often.atlas().rect_of(c as u32));
        assert!(once.atlas().rect_of(c as u32).is_some());
    }
    assert_eq!(once.atlas().rect_of('C' as u32), Some(Rect { x: 0, y: 9, width: 5, height: 9 }));
    assert_eq!(pixels(&once), pixels(&often));
}

#[test]
fn layout_advances_by_glyph_widths() {
    let font = sample_font();
    let mut atlas = FontAtlas::with_size(12, 64, 64).unwrap();
    assert_eq!(atlas.ensure_glyphs(&font, "AB"), Ok(vec![]));
    let origin = Position { x: 10, y: 20 };
    assert_eq!(atlas.layout("AB", origin), Ok(vec![at(0, 10, 20), at(1, 18, 20)]));
    assert_eq!(atlas.layout("BAB", origin), Ok(vec![at(1, 10, 20), at(0, 17, 20), at(1, 25, 20)]));
    assert_eq!(atlas.layout("", origin), Ok(vec![]));
    let left = Position { x: -100, y: -7 };
    assert_eq!(atlas.layout("AA", left), Ok(vec![at(0, -100, -7), at(0, -92, -7)]));
    assert_eq!(atlas.layout_chars(&vec!['B', 'A'], origin), Ok(vec![at(1, 10, 20), at(0, 17, 20)]));
}

#[test]
fn layout_needs_every_glyph() {
    let font = sample_font();
    let mut atlas = FontAtlas::with_size(12, 64, 64).unwrap();
    let origin = Position { x: 0, y: 0 };
    assert_eq!(atlas.layout("A", origin), Err(LayoutError::MissingGlyph));
    assert_eq!(atlas.ensure_glyphs(&font, "A"), Ok(vec![]));
    assert_eq!(atlas.layout("AC", origin), Err(LayoutError::MissingGlyph));
    assert_eq!(atlas.atlas().len(), 1);
}

#[test]
fn missing_glyph_gets_a_placeholder() {
    let font = sample_font();
    let mut atlas = FontAtlas::with_size(12, 64, 64).unwrap();
    assert_eq!(atlas.ensure_glyphs(&font, "AxB"), Ok(vec!['x']));
    assert_eq!(atlas.atlas().len(), 3);
    let real: Vec<bool> = (0..3).map(|i| !atlas.atlas().entry(i).unwrap().placeholder).collect();
    assert_eq!(real, vec![true, false, true]);
    let tofu = atlas.atlas().entry(1).unwrap();
    assert_eq!(tofu.glyph_id, 'x' as u32);
    assert_eq!(tofu.rect, Rect { x: 7, y: 0, width: 12, height: 12 });
    assert_eq!(tofu.advance, 12);
    assert_eq!(atlas.atlas().pixel(7, 0), Some(255));
    assert_eq!(atlas.atlas().pixel(18, 11), Some(255));
    let origin = Position { x: 0, y: 5 };
    assert_eq!(atlas.layout("AxB", origin), Ok(vec![at(0, 0, 5), at(1, 8, 5), at(2, 20, 5)]));
    assert_eq!(atlas.ensure_glyphs(&font, "xx"), Ok(vec![]));
    assert_eq!(atlas.atlas().len(), 3);
}

#[test]
fn placeholder_side_is_capped() {
    let font = Font::new();
    let mut atlas = FontAtlas::with_size(200, 64, 64).unwrap();
    assert_eq!(atlas.ensure_glyphs(&font, "?"), Ok(vec!['?']));
    assert_eq!(
        atlas.atlas().rect_of('?' as u32),
        Some(Rect { x: 0, y: 0, width: 64, height: 64 })
    );
    let mut none = FontAtlas::with_size(0, 4, 4).unwrap();
    assert_eq!(none.ensure_glyphs(&font, "?"), Ok(vec!['?']));
    assert_eq!(none.atlas().rect_of('?' as u32), Some(Rect { x: 0, y: 0, width: 0, height: 0 }));
}

#[test]
fn ensure_glyphs_stops_where_the_atlas_is_full() {
    let mut font = sample_font();
    font.add_glyph('W', 12, GlyphBitmap::filled(MAX_ATLAS_DIM + 1, 1, 1, 1));
    let mut atlas = FontAtlas::with_size(12, 16, 16).unwrap();
    assert_eq!(atlas.ensure_glyphs(&font, "AWB"), Err(AtlasError::AtlasFull));
    assert_eq!(atlas.atlas().len(), 1);
    assert_eq!(atlas.rect_id_of('A'), Some(0));
    assert_eq!(atlas.rect_id_of('B'), None);
    let before = pixels(&atlas);
    assert_eq!(atlas.ensure_glyphs(&font, "AWB"), Err(AtlasError::AtlasFull));
    assert_eq!(atlas.atlas().len(), 1);
    assert_eq!(pixels(&atlas), before);
}

#[test]
fn font_atlas_refuses_bad_sizes() {
    assert_eq!(FontAtlas::with_size(12, 0, 4).err(), Some(AtlasError::InvalidSize));
}
