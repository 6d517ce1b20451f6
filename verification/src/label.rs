//! Labels and the two passes that run over them every frame: the one that
//! makes their glyphs resident, and the one that turns them into quads.

use crate::atlas::{lemma_find_entry, AtlasError, GlyphEntry, Rect};
use crate::font_atlas::{all_present, layout_spec, text_chars, FontAtlas, Placement, Position};
use crate::registry::{
    atlas_sizes, loaded_font, populate_spec, position_of, quantize, quantized, set_handles,
    FontAssetView, FontAtlasSetView, FontAtlasSets, FontStore, Handle,
};
use vstd::prelude::*;

verus! {

/// The longest text, in codepoints, that the draw pass lays out.
pub const MAX_TEXT_LEN: usize = 0x7FFF_FFFF;

/// The font size of a label that sets none: 12 pixels, in 64ths of a pixel.
pub const DEFAULT_FONT_SIZE: u32 = 768;

/// A colour with eight bits each of red, green, blue and opacity.
#[derive(Clone, Copy, Debug, PartialEq, Eq, Structural)]
pub struct Color {
    pub r: u8,
    pub g: u8,
    pub b: u8,
    pub a: u8,
}

/// How a label's text looks. The font size is in 64ths of a pixel.
#[derive(Clone, Copy, Debug, PartialEq, Eq, Structural)]
pub struct TextStyle {
    pub color: Color,
    pub font_size: u32,
}

/// The size of a layout node, in pixels.
#[derive(Clone, Copy, Debug, PartialEq, Eq, Structural)]
pub struct Node {
    pub width: u32,
    pub height: u32,
}

/// The position of a node's centre in screen space, in pixels.
#[derive(Clone, Copy, Debug, PartialEq, Eq, Structural)]
pub struct Transform {
    pub x: i32,
    pub y: i32,
}

/// A piece of text shown by a UI entity.
#[derive(Clone, Debug)]
pub struct Label {
    pub text: String,
    pub font: Handle,
    pub style: TextStyle,
}

/// The mathematical content of a `Label`.
pub struct LabelView {
    pub text: Seq<char>,
    pub font: Handle,
    pub style: TextStyle,
}

/// A label together with the node and transform of its entity.
#[derive(Clone, Debug)]
pub struct LabelItem {
    pub label: Label,
    pub node: Node,
    pub transform: Transform,
}

/// The mathematical content of a `LabelItem`.
pub struct LabelItemView {
    pub label: LabelView,
    pub node: Node,
    pub transform: Transform,
}

/// What the population pass did for one label.
#[derive(Clone, Copy, Debug, PartialEq, Eq, Structural)]
pub enum PopulationOutcome {
    /// All glyphs are resident. `reserved` glyphs were packed by this step,
    /// `placeholders` of them as stand-ins for glyphs that the font lacks;
    /// the atlas pixels changed, and want uploading, exactly when
    /// `reserved` is not zero.
    Populated { reserved: usize, placeholders: usize },
    /// The label's font is not loaded yet; the label is tried again next frame.
    AssetNotReady,
    /// A glyph found no room; those before it are resident.
    Failed { error: AtlasError },
}

/// Why the draw pass refused.
#[derive(Clone, Copy, Debug, PartialEq, Eq, Structural)]
pub enum DrawError {
    /// A label was to be drawn before the population pass ran for it: its
    /// font has no atlas set, no atlas at its size, or a glyph is not packed.
    FontNotReady,
    /// A label's text has more than `MAX_TEXT_LEN` codepoints.
    TextTooLong,
}

/// One glyph quad of the frame's draw list.
#[derive(Clone, Copy, Debug, PartialEq, Eq, Structural)]
pub struct DrawCommand {
    pub font: Handle,
    pub pixel_size: u32,
    pub rect_id: usize,
    pub rect: Rect,
    pub position: Position,
    pub color: Color,
}

/// Opaque white.
pub open spec fn white() -> Color {
    Color { r: 255, g: 255, b: 255, a: 255 }
}

/// Where a label's text starts: the node's centre moved up and left by half
/// the node's size, halves rounded down.
pub open spec fn anchor_of(node: Node, transform: Transform) -> Position {
    Position {
        x: (transform.x - node.width / 2) as i64,
        y: (transform.y - node.height / 2) as i64,
    }
}

/// The number of glyphs packed in the atlas that a label is drawn from;
/// zero while there is no such atlas.
pub open spec fn resident_count(sets: Seq<FontAtlasSetView>, label: LabelView) -> nat {
    match entries_for(sets, label) {
        Some(entries) => entries.len(),
        None => 0,
    }
}

/// By how much a count has grown; zero if it has not.
pub open spec fn growth(before: nat, after: nat) -> usize {
    if after >= before {
        (after - before) as usize
    } else {
        0
    }
}

/// What the population pass does for one label: nothing while its font is
/// not loaded, else `populate` with the label's font, size and text.
pub open spec fn population_step(
    sets: Seq<FontAtlasSetView>,
    fonts: Seq<FontAssetView>,
    label: LabelView,
) -> (Seq<FontAtlasSetView>, PopulationOutcome) {
    match loaded_font(fonts, label.font) {
        None => (sets, PopulationOutcome::AssetNotReady),
        Some(glyphs) => {
            let (s1, r) = populate_spec(sets, label.font, glyphs, label.style.font_size, label.text);
            (
                s1,
                match r {
                    Ok(missing) => PopulationOutcome::Populated {
                        reserved: growth(resident_count(sets, label), resident_count(s1, label)),
                        placeholders: missing.len() as usize,
                    },
                    Err(error) => PopulationOutcome::Failed { error },
                },
            )
        },
    }
}

/// What the population pass does: one step per label, in order.
pub open spec fn population_spec(
    sets: Seq<FontAtlasSetView>,
    fonts: Seq<FontAssetView>,
    labels: Seq<LabelView>,
) -> (Seq<FontAtlasSetView>, Seq<PopulationOutcome>)
    decreases labels.len(),
{
    if labels.len() == 0 {
        (sets, Seq::empty())
    } else {
        let (s1, outcomes) = population_spec(sets, fonts, labels.drop_last());
        let (s2, outcome) = population_step(s1, fonts, labels.last());
        (s2, outcomes.push(outcome))
    }
}

/// The packed glyphs that a label is drawn from: those of the atlas for its
/// quantized font size in its font's set, if both exist.
pub open spec fn entries_for(sets: Seq<FontAtlasSetView>, label: LabelView) -> Option<
    Seq<GlyphEntry>,
> {
    match position_of(set_handles(sets), label.font.id) {
        None => None,
        Some(si) => match position_of(
            atlas_sizes(sets[si as int].atlases),
            quantized(label.style.font_size) as u64,
        ) {
            None => None,
            Some(ai) => Some(sets[si as int].atlases[ai as int].atlas.entries),
        },
    }
}

/// The quads of a laid-out label: one per placement, in order.
pub open spec fn commands_of(
    entries: Seq<GlyphEntry>,
    placements: Seq<Placement>,
    label: LabelView,
) -> Seq<DrawCommand> {
    Seq::new(
        placements.len(),
        |i: int|
            DrawCommand {
                font: label.font,
                pixel_size: quantized(label.style.font_size),
                rect_id: placements[i].rect_id,
                rect: entries[placements[i].rect_id as int].rect,
                position: placements[i].offset,
                color: label.style.color,
            },
    )
}

/// What drawing one label gives: its quads from the anchor on;
/// `TextTooLong` for a text beyond the limit, else `FontNotReady` where its
/// atlas is missing or lacks one of its glyphs.
pub open spec fn draw_spec(sets: Seq<FontAtlasSetView>, item: LabelItemView) -> Result<
    Seq<DrawCommand>,
    DrawError,
> {
    if item.label.text.len() > MAX_TEXT_LEN {
        Err(DrawError::TextTooLong)
    } else {
        match entries_for(sets, item.label) {
            None => Err(DrawError::FontNotReady),
            Some(entries) => if all_present(entries, item.label.text) {
                Ok(
                    commands_of(
                        entries,
                        layout_spec(entries, item.label.text, anchor_of(item.node, item.transform)),
                        item.label,
                    ),
                )
            } else {
                Err(DrawError::FontNotReady)
            },
        }
    }
}

/// What the draw pass gives: the quads of all labels, in order, or the
/// error of the first label that cannot be drawn.
pub open spec fn draw_all_spec(sets: Seq<FontAtlasSetView>, items: Seq<LabelItemView>) -> Result<
    Seq<DrawCommand>,
    DrawError,
>
    decreases items.len(),
{
    if items.len() == 0 {
        Ok(Seq::empty())
    } else {
        match draw_all_spec(sets, items.drop_last()) {
            Err(e) => Err(e),
            Ok(before) => match draw_spec(sets, items.last()) {
                Err(e) => Err(e),
                Ok(commands) => Ok(before + commands),
            },
        }
    }
}

/// Once the draw pass has failed on a prefix of the labels, it fails on all.
pub proof fn lemma_draw_error_sticks(
    sets: Seq<FontAtlasSetView>,
    items: Seq<LabelItemView>,
    n: int,
)
    requires
        0 <= n <= items.len(),
        draw_all_spec(sets, items.take(n)) is Err,
    ensures
        draw_all_spec(sets, items) == draw_all_spec(sets, items.take(n)),
    decreases items.len() - n,
{
    if n < items.len() {
        assert(items.take(n + 1).drop_last() =~= items.take(n));
        lemma_draw_error_sticks(sets, items, n + 1);
    } else {
        assert(items.take(n) =~= items);
    }
}

/// The labels of a list as plain mathematical values.
pub open spec fn label_views(labels: Seq<Label>) -> Seq<LabelView> {
    Seq::new(labels.len(), |i: int| labels[i]@)
}

/// The label items of a list as plain mathematical values.
pub open spec fn item_views(items: Seq<LabelItem>) -> Seq<LabelItemView> {
    Seq::new(items.len(), |i: int| items[i]@)
}

impl Color {
    /// Opaque white.
    pub fn white() -> (c: Color)
        ensures
            c == white(),
    {
        Color { r: 255, g: 255, b: 255, a: 255 }
    }
}

impl LabelItem {
    /// The item as plain mathematical values.
    pub open spec fn view(&self) -> LabelItemView {
        LabelItemView { label: self.label@, node: self.node, transform: self.transform }
    }
}

impl Default for Label {
    /// An empty white label of 12 pixels in the font with handle 0.
    fn default() -> (label: Self)
        ensures
            label@ == (LabelView {
                text: Seq::empty(),
                font: Handle { id: 0 },
                style: TextStyle { color: white(), font_size: DEFAULT_FONT_SIZE },
            }),
    {
        let label = Label {
            text: String::new(),
            style: TextStyle { color: Color::white(), font_size: DEFAULT_FONT_SIZE },
            font: Handle { id: 0 },
        };
        assert(label@.text =~= Seq::empty());
        label
    }
}

impl Label {
    /// The label as plain mathematical values.
    pub open spec fn view(&self) -> LabelView {
        LabelView { text: self.text@, font: self.font, style: self.style }
    }

    /// The font atlas that the label is drawn from: the one for its
    /// quantized font size in its font's set; `None` exactly when the set
    /// or the atlas does not exist.
    pub fn atlas_in<'a>(&self, font_atlas_sets: &'a FontAtlasSets) -> (res: Option<&'a FontAtlas>)
        requires
            font_atlas_sets.wf(),
        ensures
            match res {
                Some(fa) => entries_for(font_atlas_sets@, self@) == Some(fa@.atlas.entries)
                    && fa.wf() && fa@.font_size == quantized(self.style.font_size),
                None => entries_for(font_atlas_sets@, self@) is None,
            },
    {
        let set = match font_atlas_sets.get(self.font) {
            Some(set) => set,
            None => {
                return None;
            },
        };
        match set.find_atlas(self.style.font_size) {
            Some(index) => set.atlas_at(index),
            None => None,
        }
    }

    /// The number of glyphs packed in the atlas that the label is drawn
    /// from; zero while there is no such atlas.
    pub fn resident_glyphs(&self, font_atlas_sets: &FontAtlasSets) -> (n: usize)
        requires
            font_atlas_sets.wf(),
        ensures
            n == resident_count(font_atlas_sets@, self@),
    {
        match self.atlas_in(font_atlas_sets) {
            Some(font_atlas) => font_atlas.atlas().len(),
            None => 0,
        }
    }

    /// The glyph population pass. For each label in order: while its font
    /// is not loaded the label is skipped; else the font's atlas set and the
    /// atlas for the label's size are found or created, and the glyphs of
    /// its text are made resident. The answer holds one outcome per label.
    pub fn label_system(
        fonts: &FontStore,
        font_atlas_sets: &mut FontAtlasSets,
        labels: &Vec<Label>,
    ) -> (outcomes: Vec<PopulationOutcome>)
        requires
            fonts.wf(),
            old(font_atlas_sets).wf(),
        ensures
            final(font_atlas_sets).wf(),
            (final(font_atlas_sets)@, outcomes@) == population_spec(
                old(font_atlas_sets)@,
                fonts@,
                label_views(labels@),
            ),
    {
        let ghost start = font_atlas_sets@;
        let ghost views = label_views(labels@);
        let mut outcomes: Vec<PopulationOutcome> = Vec::new();
        let mut i: usize = 0;
        while i < labels.len()
            invariant
                i <= labels.len(),
                fonts.wf(),
                font_atlas_sets.wf(),
                views == label_views(labels@),
                (font_atlas_sets@, outcomes@) == population_spec(start, fonts@, views.take(i as int)),
            decreases labels.len() - i,
        {
            let label = &labels[i];
            proof {
                assert(views.take(i + 1).drop_last() =~= views.take(i as int));
                assert(views.take(i + 1).last() == label@);
            }
            let outcome = match fonts.get(label.font) {
                None => PopulationOutcome::AssetNotReady,
                Some(font) => {
                    let before = label.resident_glyphs(font_atlas_sets);
                    match font_atlas_sets.populate(
                        label.font,
                        font,
                        label.style.font_size,
                        label.text.as_str(),
                    ) {
                        Ok(missing) => {
                            let after = label.resident_glyphs(font_atlas_sets);
                            let reserved: usize = if after >= before {
                                after - before
                            } else {
                                0
                            };
                            PopulationOutcome::Populated { reserved, placeholders: missing.len() }
                        },
                        Err(error) => PopulationOutcome::Failed { error },
                    }
                },
            };
            outcomes.push(outcome);
            i += 1;
        }
        assert(views.take(i as int) =~= views);
        outcomes
    }

    /// The quads of one label: its text laid out from the anchor of its
    /// node, one quad per codepoint, left to right, in the label's colour.
    /// Refused with `TextTooLong` exactly when the text has more than
    /// `MAX_TEXT_LEN` codepoints; else with `FontNotReady` exactly when the
    /// label's font has no atlas set, the set no atlas at the label's size,
    /// or the atlas lacks a glyph of the text.
    pub fn draw(&self, font_atlas_sets: &FontAtlasSets, node: Node, transform: Transform) -> (res:
        Result<Vec<DrawCommand>, DrawError>)
        requires
            font_atlas_sets.wf(),
        ensures
            (match res {
                Ok(commands) => Ok(commands@),
                Err(e) => Err(e),
            }) == draw_spec(
                font_atlas_sets@,
                LabelItemView { label: self@, node, transform },
            ),
    {
        let chars = text_chars(self.text.as_str());
        if chars.len() > MAX_TEXT_LEN {
            return Err(DrawError::TextTooLong);
        }
        let font_atlas = match self.atlas_in(font_atlas_sets) {
            Some(font_atlas) => font_atlas,
            None => {
                return Err(DrawError::FontNotReady);
            },
        };
        let ghost entries = font_atlas@.atlas.entries;
        let half_width: i64 = (node.width / 2) as i64;
        let half_height: i64 = (node.height / 2) as i64;
        let anchor = Position {
            x: transform.x as i64 - half_width,
            y: transform.y as i64 - half_height,
        };
        assert(anchor == anchor_of(node, transform));
        let placements = match font_atlas.layout_chars(&chars, anchor) {
            Ok(placements) => placements,
            Err(_) => {
                return Err(DrawError::FontNotReady);
            },
        };
        let pixel_size = quantize(self.style.font_size);
        let mut commands: Vec<DrawCommand> = Vec::new();
        let mut i: usize = 0;
        while i < placements.len()
            invariant
                i <= placements.len(),
                commands.len() == i,
                entries == font_atlas@.atlas.entries,
                font_atlas.wf(),
                pixel_size == quantized(self.style.font_size),
                all_present(entries, self.text@),
                placements@ == layout_spec(entries, self.text@, anchor),
                forall|k: int|
                    0 <= k < i ==> (#[trigger] commands[k]) == commands_of(
                        entries,
                        placements@,
                        self@,
                    )[k],
            decreases placements.len() - i,
        {
            let placement = placements[i];
            proof {
                assert(placement == layout_spec(entries, self.text@, anchor)[i as int]);
                lemma_find_entry(entries, crate::font_atlas::glyph_id_of(self.text@[i as int]));
            }
            let rect = match font_atlas.atlas().entry(placement.rect_id) {
                Some(entry) => entry.rect,
                None => Rect { x: 0, y: 0, width: 0, height: 0 },
            };
            commands.push(
                DrawCommand {
                    font: self.font,
                    pixel_size,
                    rect_id: placement.rect_id,
                    rect,
                    position: placement.offset,
                    color: self.style.color,
                },
            );
            i += 1;
        }
        assert(commands@ =~= commands_of(entries, placements@, self@));
        Ok(commands)
    }

    /// The draw pass: the quads of every label, in order, appended to the
    /// frame's draw list. If any label cannot be drawn the pass answers
    /// with the error of the first such label and leaves the draw list as
    /// it was.
    pub fn draw_label_system(
        font_atlas_sets: &FontAtlasSets,
        items: &Vec<LabelItem>,
        draw_list: &mut Vec<DrawCommand>,
    ) -> (res: Result<(), DrawError>)
        requires
            font_atlas_sets.wf(),
        ensures
            match draw_all_spec(font_atlas_sets@, item_views(items@)) {
                Ok(commands) => res is Ok && final(draw_list)@ == old(draw_list)@ + commands,
                Err(e) => res == Err::<(), DrawError>(e) && final(draw_list)@ == old(draw_list)@,
            },
    {
        let ghost views = item_views(items@);
        let mut frame: Vec<DrawCommand> = Vec::new();
        let mut i: usize = 0;
        while i < items.len()
            invariant
                i <= items.len(),
                font_atlas_sets.wf(),
                views == item_views(items@),
                draw_all_spec(font_atlas_sets@, views.take(i as int)) == Ok::<
                    Seq<DrawCommand>,
                    DrawError,
                >(frame@),
            decreases items.len() - i,
        {
            let item = &items[i];
            proof {
                assert(views.take(i + 1).drop_last() =~= views.take(i as int));
                assert(views.take(i + 1).last() == item@);
            }
            match item.label.draw(font_atlas_sets, item.node, item.transform) {
                Ok(mut commands) => {
                    frame.append(&mut commands);
                },
                Err(e) => {
                    proof {
                        lemma_draw_error_sticks(font_atlas_sets@, views, i + 1);
                    }
                    return Err(e);
                },
            }
            i += 1;
        }
        assert(views.take(i as int) =~= views);
        draw_list.append(&mut frame);
        Ok(())
    }
}

} // verus!
