use glyph_atlas::atlas::{AtlasError, GlyphBitmap, Rect, MAX_ATLAS_DIM};
use glyph_atlas::font::Font;
use glyph_atlas::font_atlas::{Position, INITIAL_ATLAS_DIM};
use glyph_atlas::label::{
    Color, DrawCommand, DrawError, Label, LabelItem, Node, PopulationOutcome, TextStyle, Transform,
    DEFAULT_FONT_SIZE,
};
use glyph_atlas::registry::{quantize, FontAtlasSet, FontAtlasSets, FontStore, Handle};

fn hi_font() -> Font {
    let mut font = Font::new();
    font.add_glyph('H', 12, GlyphBitmap::filled(8, 9, 9, 10));
    font.add_glyph('i', 12, GlyphBitmap::filled(2, 9, 3, 20));
    font
}

fn label(text: &str, font: u64, font_size: u32) -> Label {
    Label {
        text: text.to_string(),
        font: Handle { id: font },
        style: TextStyle { color: Color { r: 1, g: 2, b: 3, a: 4 }, font_size },
    }
}

fn item(label: Label, width: u32, height: u32, x: i32, y: i32) -> LabelItem {
    LabelItem { label, node: Node { width, height }, transform: Transform { x, y } }
}

#[test]
fn default_label_is_empty_white_twelve_pixels() {
    let label = Label::default();
    assert_eq!(label.text, "");
    assert_eq!(label.font, Handle { id: 0 });
    assert_eq!(label.style.color, Color { r: 255, g: 255, b: 255, a: 255 });
    assert_eq!(label.style.color, Color::white());
    assert_eq!(label.style.font_size, 768);
    assert_eq!(DEFAULT_FONT_SIZE, 768);
    assert_eq!(quantize(label.style.font_size), 12);
}

#[test]
fn font_sizes_round_to_the_nearest_pixel() {
    assert_eq!(quantize(0), 0);
    assert_eq!(quantize(31), 0);
    assert_eq!(quantize(32), 1);
    assert_eq!(quantize(767), 12);
    assert_eq!(quantize(768), 12);
    assert_eq!(quantize(799), 12);
    assert_eq!(quantize(800), 13);
    assert_eq!(quantize(u32::MAX), 67108864);
}

#[test]
fn get_atlas_shares_atlases_of_equal_pixel_size() {
    let mut set = FontAtlasSet::new(Handle { id: 3 });
    assert_eq!(set.font(), Handle { id: 3 });
    assert_eq!(set.atlas_count(), 0);
    assert_eq!(set.find_atlas(768), None);
    assert_eq!(set.get_atlas(768), 0);
    assert_eq!(set.get_atlas(770), 0);
    assert_eq!(set.get_atlas(800), 1);
    assert_eq!(set.get_atlas(799), 0);
    assert_eq!(set.atlas_count(), 2);
    assert_eq!(set.find_atlas(820), Some(1));
    assert_eq!(set.atlas_at(0).unwrap().font_size(), 12);
    assert_eq!(set.atlas_at(1).unwrap().font_size(), 13);
    assert!(set.atlas_at(2).is_none());
    assert_eq!(set.atlas_at(0).unwrap().atlas().width(), INITIAL_ATLAS_DIM);
    assert_eq!(set.atlas_at(0).unwrap().atlas().height(), INITIAL_ATLAS_DIM);
    assert_eq!(set.atlas_at(0).unwrap().atlas().len(), 0);
}

#[test]
fn add_glyphs_to_atlas_creates_then_fills() {
    let font = hi_font();
    let mut set = FontAtlasSet::new(Handle { id: 1 });
    assert_eq!(set.add_glyphs_to_atlas(&font, 768, "Hi"), Ok(vec![]));
    assert_eq!(set.atlas_count(), 1);
    assert_eq!(set.atlas_at(0).unwrap().atlas().len(), 2);
    assert_eq!(set.add_glyphs_to_atlas(&font, 1536, "H"), Ok(vec!['H']));
    assert_eq!(set.atlas_count(), 2);
    assert_eq!(set.atlas_at(1).unwrap().font_size(), 24);
    assert_eq!(set.atlas_at(0).unwrap().atlas().len(), 2);
}

#[test]
fn get_or_create_is_idempotent() {
    let mut sets = FontAtlasSets::new();
    assert_eq!(sets.len(), 0);
    assert!(sets.get(Handle { id: 5 }).is_none());
    assert_eq!(sets.get_or_create(Handle { id: 5 }), 0);
    assert_eq!(sets.get_or_create(Handle { id: 9 }), 1);
    assert_eq!(sets.get_or_create(Handle { id: 5 }), 0);
    assert_eq!(sets.len(), 2);
    assert_eq!(sets.find(Handle { id: 9 }), Some(1));
    assert_eq!(sets.find(Handle { id: 1 }), None);
    assert_eq!(sets.get(Handle { id: 9 }).unwrap().font(), Handle { id: 9 });
}

#[test]
fn font_store_finds_loaded_fonts() {
    let mut fonts = FontStore::new();
    assert!(fonts.get(Handle { id: 1 }).is_none());
    fonts.insert(Handle { id: 1 }, hi_font());
    fonts.insert(Handle { id: 2 }, Font::new());
    assert_eq!(fonts.get(Handle { id: 1 }).unwrap().glyph_count(), 2);
    assert_eq!(fonts.get(Handle { id: 2 }).unwrap().glyph_count(), 0);
    assert!(fonts.get(Handle { id: 3 }).is_none());
}

#[test]
fn hi_label_over_two_frames() {
    let mut fonts = FontStore::new();
    fonts.insert(Handle { id: 1 }, hi_font());
    let mut sets = FontAtlasSets::new();
    let labels = vec![label("Hi", 1, 768)];

    let first = Label::label_system(&fonts, &mut sets, &labels);
    assert_eq!(first, vec![PopulationOutcome::Populated { reserved: 2, placeholders: 0 }]);
    assert_eq!(labels[0].resident_glyphs(&sets), 2);
    assert_eq!(sets.len(), 1);
    let set = sets.get(Handle { id: 1 }).unwrap();
    assert_eq!(set.atlas_count(), 1);
    assert_eq!(set.atlas_at(0).unwrap().font_size(), 12);
    assert_eq!(set.atlas_at(0).unwrap().atlas().len(), 2);
    assert_eq!(set.atlas_at(0).unwrap().rect_id_of('H'), Some(0));
    assert_eq!(set.atlas_at(0).unwrap().rect_id_of('i'), Some(1));

    let second = Label::label_system(&fonts, &mut sets, &labels);
    assert_eq!(second, vec![PopulationOutcome::Populated { reserved: 0, placeholders: 0 }]);
    assert_eq!(sets.len(), 1);
    let set = sets.get(Handle { id: 1 }).unwrap();
    assert_eq!(set.atlas_count(), 1);
    assert_eq!(set.atlas_at(0).unwrap().atlas().len(), 2);

    let items = vec![item(label("Hi", 1, 768), 0, 0, 0, 0)];
    let mut draw_list = Vec::new();
    assert_eq!(Label::draw_label_system(&sets, &items, &mut draw_list), Ok(()));
    let color = Color { r: 1, g: 2, b: 3, a: 4 };
    assert_eq!(
        draw_list,
        vec![
            DrawCommand {
                font: Handle { id: 1 },
                pixel_size: 12,
                rect_id: 0,
                rect: Rect { x: 0, y: 0, width: 8, height: 9 },
                position: Position { x: 0, y: 0 },
                color,
            },
            DrawCommand {
                font: Handle { id: 1 },
                pixel_size: 12,
                rect_id: 1,
                rect: Rect { x: 8, y: 0, width: 2, height: 9 },
                position: Position { x: 9, y: 0 },
                color,
            },
        ]
    );
}

#[test]
fn draw_before_population_is_an_ordering_violation() {
    let sets = FontAtlasSets::new();
    let items = vec![item(label("Hi", 1, 768), 10, 10, 5, 5)];
    let mut draw_list = vec![];
    assert_eq!(
        Label::draw_label_system(&sets, &items, &mut draw_list),
        Err(DrawError::FontNotReady)
    );
    assert!(draw_list.is_empty());
    assert_eq!(
        items[0].label.draw(&sets, items[0].node, items[0].transform),
        Err(DrawError::FontNotReady)
    );
}

#[test]
fn draw_needs_the_atlas_of_the_size_and_every_glyph() {
    let mut fonts = FontStore::new();
    fonts.insert(Handle { id: 1 }, hi_font());
    let mut sets = FontAtlasSets::new();
    Label::label_system(&fonts, &mut sets, &vec![label("H", 1, 768)]);
    let node = Node { width: 0, height: 0 };
    let origin = Transform { x: 0, y: 0 };
    assert!(label("H", 1, 768).draw(&sets, node, origin).is_ok());
    assert_eq!(label("H", 1, 1536).draw(&sets, node, origin), Err(DrawError::FontNotReady));
    assert_eq!(label("Hi", 1, 768).draw(&sets, node, origin), Err(DrawError::FontNotReady));
    assert_eq!(label("H", 2, 768).draw(&sets, node, origin), Err(DrawError::FontNotReady));
}

#[test]
fn draw_pass_is_all_or_nothing() {
    let mut fonts = FontStore::new();
    fonts.insert(Handle { id: 1 }, hi_font());
    let mut sets = FontAtlasSets::new();
    Label::label_system(&fonts, &mut sets, &vec![label("Hi", 1, 768)]);
    let kept = DrawCommand {
        font: Handle { id: 7 },
        pixel_size: 1,
        rect_id: 0,
        rect: Rect { x: 0, y: 0, width: 1, height: 1 },
        position: Position { x: 0, y: 0 },
        color: Color::white(),
    };
    let mut draw_list = vec![kept];
    let items = vec![item(label("Hi", 1, 768), 0, 0, 0, 0), item(label("Hi", 2, 768), 0, 0, 0, 0)];
    assert_eq!(
        Label::draw_label_system(&sets, &items, &mut draw_list),
        Err(DrawError::FontNotReady)
    );
    assert_eq!(draw_list, vec![kept]);
    let ready = vec![item(label("i", 1, 768), 0, 0, 0, 0), item(label("H", 1, 768), 0, 0, 50, 0)];
    assert_eq!(Label::draw_label_system(&sets, &ready, &mut draw_list), Ok(()));
    assert_eq!(draw_list.len(), 3);
    assert_eq!(draw_list[0], kept);
    assert_eq!(draw_list[1].rect_id, 1);
    assert_eq!(draw_list[2].rect_id, 0);
    assert_eq!(draw_list[2].position, Position { x: 50, y: 0 });
}

#[test]
fn text_is_anchored_at_the_node_corner() {
    let mut fonts = FontStore::new();
    fonts.insert(Handle { id: 1 }, hi_font());
    let mut sets = FontAtlasSets::new();
    Label::label_system(&fonts, &mut sets, &vec![label("Hi", 1, 768)]);
    let commands = label("iH", 1, 768)
        .draw(&sets, Node { width: 100, height: 41 }, Transform { x: 60, y: 30 })
        .unwrap();
    assert_eq!(commands.len(), 2);
    assert_eq!(commands[0].position, Position { x: 10, y: 10 });
    assert_eq!(commands[1].position, Position { x: 13, y: 10 });
    let far = label("H", 1, 768)
        .draw(&sets, Node { width: u32::MAX, height: 2 }, Transform { x: i32::MIN, y: 0 })
        .unwrap();
    assert_eq!(far[0].position, Position { x: -2147483648 - 2147483647, y: -1 });
}

#[test]
fn unloaded_font_is_skipped_for_the_frame() {
    let mut fonts = FontStore::new();
    let mut sets = FontAtlasSets::new();
    let labels = vec![label("Hi", 1, 768), label("Hi", 2, 768)];
    fonts.insert(Handle { id: 2 }, hi_font());
    assert_eq!(
        Label::label_system(&fonts, &mut sets, &labels),
        vec![
            PopulationOutcome::AssetNotReady,
            PopulationOutcome::Populated { reserved: 2, placeholders: 0 }
        ]
    );
    assert_eq!(labels[0].resident_glyphs(&sets), 0);
    assert!(labels[0].atlas_in(&sets).is_none());
    assert_eq!(labels[1].atlas_in(&sets).unwrap().font_size(), 12);
    assert_eq!(sets.len(), 1);
    assert!(sets.get(Handle { id: 1 }).is_none());
    fonts.insert(Handle { id: 1 }, hi_font());
    assert_eq!(
        Label::label_system(&fonts, &mut sets, &labels),
        vec![
            PopulationOutcome::Populated { reserved: 2, placeholders: 0 },
            PopulationOutcome::Populated { reserved: 0, placeholders: 0 }
        ]
    );
    assert_eq!(sets.len(), 2);
}

#[test]
fn missing_codepoint_is_drawn_as_placeholder() {
    let mut fonts = FontStore::new();
    fonts.insert(Handle { id: 1 }, hi_font());
    let mut sets = FontAtlasSets::new();
    let labels = vec![label("H?i", 1, 768)];
    assert_eq!(
        Label::label_system(&fonts, &mut sets, &labels),
        vec![PopulationOutcome::Populated { reserved: 3, placeholders: 1 }]
    );
    let atlas = sets.get(Handle { id: 1 }).unwrap().atlas_at(0).unwrap();
    assert_eq!(atlas.atlas().len(), 3);
    let flags: Vec<bool> = (0..3).map(|i| atlas.atlas().entry(i).unwrap().placeholder).collect();
    assert_eq!(flags, vec![false, true, false]);
    let commands = labels[0]
        .draw(&sets, Node { width: 0, height: 0 }, Transform { x: 0, y: 0 })
        .unwrap();
    let xs: Vec<i64> = commands.iter().map(|c| c.position.x).collect();
    assert_eq!(xs, vec![0, 9, 21]);
    assert_eq!(
        Label::label_system(&fonts, &mut sets, &labels),
        vec![PopulationOutcome::Populated { reserved: 0, placeholders: 0 }]
    );
}

#[test]
fn full_atlas_is_reported_for_its_label_only() {
    let mut font = hi_font();
    font.add_glyph('W', 12, GlyphBitmap::filled(MAX_ATLAS_DIM + 1, 1, 1, 1));
    let mut fonts = FontStore::new();
    fonts.insert(Handle { id: 1 }, font);
    let mut sets = FontAtlasSets::new();
    let labels = vec![label("HW", 1, 768), label("i", 1, 768)];
    assert_eq!(
        Label::label_system(&fonts, &mut sets, &labels),
        vec![
            PopulationOutcome::Failed { error: AtlasError::AtlasFull },
            PopulationOutcome::Populated { reserved: 1, placeholders: 0 }
        ]
    );
    let atlas = sets.get(Handle { id: 1 }).unwrap().atlas_at(0).unwrap();
    assert_eq!(atlas.atlas().len(), 2);
    assert_eq!(atlas.rect_id_of('W'), None);
}
