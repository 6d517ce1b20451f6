//! The font atlas: the glyphs of one font at one pixel size, packed into one
//! texture atlas, and the layout of text against them.

use crate::atlas::{
    atlas_wf, entries_kept, filled_grid, find_entry, lemma_find_entry, reserve_spec, AtlasError, AtlasView,
    BitmapView, GlyphBitmap, GlyphEntry, TextureAtlas,
};
use crate::font::{rasterized, Font, FontGlyphView};
use crate::laws::lemma_ensure_monotone;
use vstd::prelude::*;

verus! {

/// The side of the atlas that a new font atlas starts with.
pub const INITIAL_ATLAS_DIM: u32 = 256;

/// The largest side of the box that stands in for a missing glyph.
pub const MAX_PLACEHOLDER_DIM: u32 = 64;

/// The largest advance width that a glyph can have.
pub const MAX_ADVANCE: u64 = 0xFFFF_FFFF;

/// A point in screen space, in whole pixels.
#[derive(Clone, Copy, Debug, PartialEq, Eq, Structural)]
pub struct Position {
    pub x: i64,
    pub y: i64,
}

/// One glyph of a laid-out text: its rectangle id and where it goes.
#[derive(Clone, Copy, Debug, PartialEq, Eq, Structural)]
pub struct Placement {
    pub rect_id: usize,
    pub offset: Position,
}

/// Why a text could not be laid out.
#[derive(Clone, Copy, Debug, PartialEq, Eq, Structural)]
pub enum LayoutError {
    /// A codepoint of the text was never given to `ensure_glyphs`.
    MissingGlyph,
}

/// The glyph id under which a codepoint is packed.
pub open spec fn glyph_id_of(c: char) -> u32 {
    c as u32
}

/// The side of the placeholder box at a font size.
pub open spec fn placeholder_side(font_size: u32) -> u32 {
    if font_size <= MAX_PLACEHOLDER_DIM {
        font_size
    } else {
        MAX_PLACEHOLDER_DIM
    }
}

/// The solid box that stands in for a glyph that the font lacks.
pub open spec fn placeholder_bitmap(font_size: u32) -> BitmapView {
    BitmapView {
        width: placeholder_side(font_size),
        height: placeholder_side(font_size),
        advance: placeholder_side(font_size),
        placeholder: true,
        pixels: filled_grid(
            placeholder_side(font_size) as int,
            placeholder_side(font_size) as int,
            255,
        ),
    }
}

/// What making one codepoint resident does: nothing if it is packed already;
/// else its bitmap from the font is reserved, or the placeholder where the
/// font has none, in which case the codepoint is reported.
pub open spec fn ensure_one(a: AtlasView, font: Seq<FontGlyphView>, font_size: u32, c: char) -> (
    AtlasView,
    Result<Seq<char>, AtlasError>,
) {
    if find_entry(a.entries, glyph_id_of(c)) is Some {
        (a, Ok(Seq::empty()))
    } else {
        match rasterized(font, c, font_size) {
            Some(b) => {
                let (a1, r) = reserve_spec(a, glyph_id_of(c), b);
                match r {
                    Ok(_) => (a1, Ok(Seq::empty())),
                    Err(e) => (a1, Err(e)),
                }
            },
            None => {
                let (a1, r) = reserve_spec(a, glyph_id_of(c), placeholder_bitmap(font_size));
                match r {
                    Ok(_) => (a1, Ok(seq![c])),
                    Err(e) => (a1, Err(e)),
                }
            },
        }
    }
}

/// What `ensure_glyphs` does: the codepoints of the text are made resident
/// one after the other, from the left, until one finds no room. The answer
/// lists the codepoints that got a placeholder, in the order they came.
pub open spec fn ensure_spec(
    a: AtlasView,
    font: Seq<FontGlyphView>,
    font_size: u32,
    text: Seq<char>,
) -> (AtlasView, Result<Seq<char>, AtlasError>)
    decreases text.len(),
{
    if text.len() == 0 {
        (a, Ok(Seq::empty()))
    } else {
        let (a1, r1) = ensure_spec(a, font, font_size, text.drop_last());
        match r1 {
            Err(e) => (a1, Err(e)),
            Ok(m1) => {
                let (a2, r2) = ensure_one(a1, font, font_size, text.last());
                match r2 {
                    Err(e) => (a2, Err(e)),
                    Ok(m2) => (a2, Ok(m1 + m2)),
                }
            },
        }
    }
}

/// Whether every codepoint of the text is packed.
pub open spec fn all_present(entries: Seq<GlyphEntry>, text: Seq<char>) -> bool {
    forall|i: int| 0 <= i < text.len() ==> find_entry(entries, glyph_id_of(#[trigger] text[i])) is Some
}

/// The advance width of a codepoint's glyph; zero where it is not packed.
pub open spec fn advance_of(entries: Seq<GlyphEntry>, c: char) -> int {
    match find_entry(entries, glyph_id_of(c)) {
        Some(i) => entries[i as int].advance as int,
        None => 0,
    }
}

/// The sum of the advance widths of a text's glyphs.
pub open spec fn advance_sum(entries: Seq<GlyphEntry>, text: Seq<char>) -> int
    decreases text.len(),
{
    if text.len() == 0 {
        0
    } else {
        advance_sum(entries, text.drop_last()) + advance_of(entries, text.last())
    }
}

/// The placements of a text whose glyphs are all packed: one per codepoint,
/// each at the start position moved right by the advance widths of the
/// glyphs before it.
pub open spec fn layout_spec(entries: Seq<GlyphEntry>, text: Seq<char>, start: Position) -> Seq<
    Placement,
> {
    Seq::new(
        text.len(),
        |i: int|
            Placement {
                rect_id: find_entry(entries, glyph_id_of(text[i]))->0,
                offset: Position {
                    x: (start.x + advance_sum(entries, text.take(i))) as i64,
                    y: start.y,
                },
            },
    )
}

/// The advance widths of `n` glyphs sum to at most `n` times the largest.
pub proof fn lemma_advance_sum_bound(entries: Seq<GlyphEntry>, text: Seq<char>)
    ensures
        0 <= advance_sum(entries, text) <= text.len() * MAX_ADVANCE,
    decreases text.len(),
{
    if text.len() > 0 {
        lemma_advance_sum_bound(entries, text.drop_last());
    }
}

/// Once making the codepoints resident has failed on a prefix of a text, it
/// fails in the same way, at the same point, on the whole text.
pub proof fn lemma_ensure_error_sticks(
    a: AtlasView,
    font: Seq<FontGlyphView>,
    font_size: u32,
    text: Seq<char>,
    n: int,
)
    requires
        0 <= n <= text.len(),
        ensure_spec(a, font, font_size, text.take(n)).1 is Err,
    ensures
        ensure_spec(a, font, font_size, text) == ensure_spec(a, font, font_size, text.take(n)),
    decreases text.len() - n,
{
    if n < text.len() {
        assert(text.take(n + 1).drop_last() =~= text.take(n));
        lemma_ensure_error_sticks(a, font, font_size, text, n + 1);
    } else {
        assert(text.take(n) =~= text);
    }
}

/// The codepoints of a text, in order.
pub fn text_chars(text: &str) -> (out: Vec<char>)
    ensures
        out@ == text@,
{
    let mut out: Vec<char> = Vec::new();
    for c in it: text.chars()
        invariant
            it.seq() == text@,
            out@ == it.seq().take(it.index()),
    {
        out.push(c);
        assert(it.seq().take(it.index() + 1) =~= it.seq().take(it.index()).push(c));
    }
    out
}

/// The glyphs of one font at one pixel size.
#[derive(Debug)]
pub struct FontAtlas {
    font_size: u32,
    atlas: TextureAtlas,
}

/// The mathematical content of a `FontAtlas`.
pub struct FontAtlasView {
    pub font_size: u32,
    pub atlas: AtlasView,
}

impl FontAtlas {
    /// The font atlas as plain mathematical values.
    pub closed spec fn view(&self) -> FontAtlasView {
        FontAtlasView { font_size: self.font_size, atlas: self.atlas@ }
    }

    /// The invariant of every font atlas: that of its texture atlas.
    pub open spec fn wf(&self) -> bool {
        atlas_wf(self@.atlas)
    }

    /// An empty font atlas for a pixel size, on a texture atlas of the
    /// given size. Refused as `TextureAtlas::new` refuses the size.
    pub fn with_size(font_size: u32, width: u32, height: u32) -> (res: Result<Self, AtlasError>)
        ensures
            match res {
                Ok(fa) => {
                    &&& fa.wf()
                    &&& 1 <= width <= crate::atlas::MAX_ATLAS_DIM
                    &&& 1 <= height <= crate::atlas::MAX_ATLAS_DIM
                    &&& fa@.font_size == font_size
                    &&& fa@.atlas == (AtlasView {
                        width,
                        height,
                        pixels: filled_grid(width as int, height as int, 0),
                        entries: Seq::empty(),
                        shelf: crate::atlas::Shelf { x: 0, y: 0, height: 0 },
                    })
                },
                Err(e) => e == AtlasError::InvalidSize && !(1 <= width
                    <= crate::atlas::MAX_ATLAS_DIM && 1 <= height <= crate::atlas::MAX_ATLAS_DIM),
            },
    {
        match TextureAtlas::new(width, height) {
            Ok(atlas) => Ok(FontAtlas { font_size, atlas }),
            Err(e) => Err(e),
        }
    }

    /// The pixel size that this atlas holds glyphs for.
    pub fn font_size(&self) -> (s: u32)
        ensures
            s == self@.font_size,
    {
        self.font_size
    }

    /// The texture atlas that holds the glyphs.
    pub fn atlas(&self) -> (a: &TextureAtlas)
        ensures
            a@ == self@.atlas,
    {
        &self.atlas
    }

    /// The rectangle id of a codepoint's glyph, if it is packed.
    pub fn rect_id_of(&self, c: char) -> (res: Option<usize>)
        ensures
            res == find_entry(self@.atlas.entries, glyph_id_of(c)),
    {
        self.atlas.find(c as u32)
    }

    /// Makes every codepoint of `text` resident, from the left: one that is
    /// packed already is left alone, one that the font offers at this size
    /// is packed, one that it lacks gets the placeholder box and is listed
    /// in the answer. Stops at the first glyph that finds no room, keeping
    /// those packed before it.
    pub fn ensure_glyphs(&mut self, font: &Font, text: &str) -> (res: Result<Vec<char>, AtlasError>)
        requires
            old(self).wf(),
            font.wf(),
        ensures
            final(self).wf(),
            final(self)@.font_size == old(self)@.font_size,
            (
                final(self)@.atlas,
                match res {
                    Ok(missing) => Ok(missing@),
                    Err(e) => Err(e),
                },
            ) == ensure_spec(old(self)@.atlas, font@, old(self)@.font_size, text@),
            entries_kept(old(self)@.atlas.entries, final(self)@.atlas.entries),
    {
        let chars = text_chars(text);
        let ghost start = self@.atlas;
        let mut missing: Vec<char> = Vec::new();
        let mut i: usize = 0;
        while i < chars.len()
            invariant
                i <= chars.len(),
                chars@ == text@,
                self.wf(),
                font.wf(),
                self.font_size == old(self).font_size,
                start == old(self)@.atlas,
                ensure_spec(start, font@, self.font_size, chars@.take(i as int)) == (
                    self@.atlas,
                    Ok::<Seq<char>, AtlasError>(missing@),
                ),
            decreases chars.len() - i,
        {
            let c: char = chars[i];
            let ghost prefix = chars@.take(i + 1);
            assert(prefix.drop_last() =~= chars@.take(i as int));
            assert(prefix.last() == c);
            let mut failed: Option<AtlasError> = None;
            if self.atlas.find(c as u32).is_none() {
                match font.rasterize(c, self.font_size) {
                    Ok(bitmap) => {
                        match self.atlas.reserve(c as u32, bitmap) {
                            Ok(_) => {},
                            Err(e) => {
                                failed = Some(e);
                            },
                        }
                    },
                    Err(_) => {
                        let side: u32 = if self.font_size <= MAX_PLACEHOLDER_DIM {
                            self.font_size
                        } else {
                            MAX_PLACEHOLDER_DIM
                        };
                        let tofu = GlyphBitmap::solid(side, side, side, 255, true);
                        assert(tofu@ == placeholder_bitmap(self.font_size));
                        match self.atlas.reserve(c as u32, &tofu) {
                            Ok(_) => {
                                missing.push(c);
                            },
                            Err(e) => {
                                failed = Some(e);
                            },
                        }
                    },
                }
            } else {
                assert(missing@ + Seq::<char>::empty() =~= missing@);
            }
            if let Some(e) = failed {
                proof {
                    assert(ensure_spec(start, font@, self.font_size, prefix) == (
                        self@.atlas,
                        Err::<Seq<char>, AtlasError>(e),
                    ));
                    lemma_ensure_error_sticks(start, font@, self.font_size, chars@, i + 1);
                    lemma_ensure_monotone(start, font@, self.font_size, chars@, 0);
                }
                return Err(e);
            }
            assert(ensure_spec(start, font@, self.font_size, prefix).1->Ok_0 =~= missing@);
            i += 1;
        }
        proof {
            assert(chars@.take(i as int) =~= chars@);
            lemma_ensure_monotone(start, font@, self.font_size, chars@, 0);
        }
        Ok(missing)
    }

    /// The placements of `text` from `start`: one per codepoint, left to
    /// right, each moved on by the advance widths of the glyphs before it,
    /// all at the height of `start`. Changes nothing. Refused with
    /// `MissingGlyph` exactly when a codepoint of the text is not packed.
    pub fn layout(&self, text: &str, start: Position) -> (res: Result<Vec<Placement>, LayoutError>)
        requires
            self.wf(),
            start.x + text@.len() * MAX_ADVANCE <= i64::MAX,
        ensures
            match res {
                Ok(placements) => all_present(self@.atlas.entries, text@) && placements@
                    == layout_spec(self@.atlas.entries, text@, start),
                Err(e) => e == LayoutError::MissingGlyph && !all_present(
                    self@.atlas.entries,
                    text@,
                ),
            },
    {
        let chars = text_chars(text);
        self.layout_chars(&chars, start)
    }

    /// `layout` for a text that is given as its codepoints.
    pub fn layout_chars(&self, chars: &Vec<char>, start: Position) -> (res: Result<
        Vec<Placement>,
        LayoutError,
    >)
        requires
            self.wf(),
            start.x + chars@.len() * MAX_ADVANCE <= i64::MAX,
        ensures
            match res {
                Ok(placements) => all_present(self@.atlas.entries, chars@) && placements@
                    == layout_spec(self@.atlas.entries, chars@, start),
                Err(e) => e == LayoutError::MissingGlyph && !all_present(
                    self@.atlas.entries,
                    chars@,
                ),
            },
    {
        let ghost entries = self@.atlas.entries;
        let mut out: Vec<Placement> = Vec::new();
        let mut cursor: i64 = start.x;
        let mut i: usize = 0;
        while i < chars.len()
            invariant
                i <= chars.len(),
                entries == self@.atlas.entries,
                self.wf(),
                start.x + chars@.len() * MAX_ADVANCE <= i64::MAX,
                cursor == start.x + advance_sum(entries, chars@.take(i as int)),
                out.len() == i,
                forall|k: int| 0 <= k < i ==> find_entry(entries, glyph_id_of(#[trigger] chars@[k])) is Some,
                forall|k: int| 0 <= k < i ==> (#[trigger] out[k]) == layout_spec(entries, chars@, start)[k],
            decreases chars.len() - i,
        {
            let c: char = chars[i];
            proof {
                lemma_advance_sum_bound(entries, chars@.take(i as int));
                lemma_advance_sum_bound(entries, chars@.take(i + 1));
                assert(chars@.take(i + 1).drop_last() =~= chars@.take(i as int));
                assert(chars@.take(i + 1).last() == c);
                lemma_find_entry(entries, glyph_id_of(c));
            }
            match self.atlas.find(c as u32) {
                Some(id) => {
                    let entry = self.atlas.entry(id);
                    let advance: u32 = match entry {
                        Some(e) => e.advance,
                        None => 0,
                    };
                    out.push(Placement { rect_id: id, offset: Position { x: cursor, y: start.y } });
                    assert((i + 1) * MAX_ADVANCE <= chars@.len() * MAX_ADVANCE);
                    cursor = cursor + advance as i64;
                },
                None => {
                    return Err(LayoutError::MissingGlyph);
                },
            }
            i += 1;
        }
        assert(out@ =~= layout_spec(entries, chars@, start));
        Ok(out)
    }
}

} // verus!
