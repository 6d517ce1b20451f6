//! The font asset: the glyph bitmaps that a typeface offers, by codepoint
//! and pixel size.

use crate::atlas::{is_grid, BitmapView, GlyphBitmap};
use vstd::prelude::*;

verus! {

/// Why a glyph could not be rasterized.
#[derive(Clone, Copy, Debug, PartialEq, Eq, Structural)]
pub enum RasterizeError {
    /// The font has no glyph for the codepoint at the size asked for.
    MissingGlyph,
}

/// One glyph of a font at one pixel size.
#[derive(Debug)]
pub struct FontGlyph {
    codepoint: char,
    size: u32,
    bitmap: GlyphBitmap,
}

/// The mathematical content of a `FontGlyph`.
pub struct FontGlyphView {
    pub codepoint: char,
    pub size: u32,
    pub bitmap: BitmapView,
}

/// An immutable source of glyph bitmaps.
#[derive(Debug)]
pub struct Font {
    glyphs: Vec<FontGlyph>,
}

/// The bitmap of the first glyph in `glyphs` for the codepoint and size.
pub open spec fn rasterized(glyphs: Seq<FontGlyphView>, codepoint: char, size: u32) -> Option<
    BitmapView,
>
    decreases glyphs.len(),
{
    if glyphs.len() == 0 {
        None
    } else {
        match rasterized(glyphs.drop_last(), codepoint, size) {
            Some(b) => Some(b),
            None => if glyphs.last().codepoint == codepoint && glyphs.last().size == size {
                Some(glyphs.last().bitmap)
            } else {
                None
            },
        }
    }
}

/// Whether a bitmap value is a grid of its stated size that is not marked
/// as a placeholder.
pub open spec fn real_bitmap(b: BitmapView) -> bool {
    &&& is_grid(b.pixels, b.width as int, b.height as int)
    &&& !b.placeholder
}

/// Whether every glyph bitmap is a grid of its stated size, and none a
/// placeholder.
pub open spec fn font_wf(glyphs: Seq<FontGlyphView>) -> bool {
    forall|i: int| 0 <= i < glyphs.len() ==> real_bitmap((#[trigger] glyphs[i]).bitmap)
}

/// Every bitmap that `rasterized` answers with is one of the glyphs'.
pub proof fn lemma_rasterized_real(glyphs: Seq<FontGlyphView>, codepoint: char, size: u32)
    requires
        forall|i: int| 0 <= i < glyphs.len() ==> real_bitmap((#[trigger] glyphs[i]).bitmap),
    ensures
        rasterized(glyphs, codepoint, size) matches Some(b) ==> real_bitmap(b),
    decreases glyphs.len(),
{
    if glyphs.len() > 0 {
        let front = glyphs.drop_last();
        assert forall|i: int| 0 <= i < front.len() implies real_bitmap(
            (#[trigger] front[i]).bitmap,
        ) by {
            assert(front[i] == glyphs[i]);
        }
        lemma_rasterized_real(front, codepoint, size);
    }
}

impl FontGlyph {
    /// The glyph as plain mathematical values.
    pub closed spec fn view(&self) -> FontGlyphView {
        FontGlyphView { codepoint: self.codepoint, size: self.size, bitmap: self.bitmap@ }
    }
}

impl Font {
    /// The font as the sequence of its glyphs, in the order they were added.
    pub closed spec fn view(&self) -> Seq<FontGlyphView> {
        Seq::new(self.glyphs@.len(), |i: int| self.glyphs@[i]@)
    }

    /// Every glyph bitmap is a grid of its stated size, and none is a
    /// placeholder.
    pub open spec fn wf(&self) -> bool {
        font_wf(self@)
    }

    /// A font without glyphs.
    pub fn new() -> (f: Self)
        ensures
            f.wf(),
            f@ == Seq::<FontGlyphView>::empty(),
    {
        let f = Font { glyphs: Vec::new() };
        assert(f@ =~= Seq::<FontGlyphView>::empty());
        f
    }

    /// Adds a glyph for a codepoint at a pixel size. A glyph added earlier
    /// for the same codepoint and size stays the one that is rasterized.
    pub fn add_glyph(&mut self, codepoint: char, size: u32, bitmap: GlyphBitmap)
        requires
            old(self).wf(),
            real_bitmap(bitmap@),
        ensures
            final(self).wf(),
            final(self)@ == old(self)@.push(FontGlyphView { codepoint, size, bitmap: bitmap@ }),
    {
        let ghost before = self@;
        self.glyphs.push(FontGlyph { codepoint, size, bitmap });
        assert(self@ =~= before.push(FontGlyphView { codepoint, size, bitmap: bitmap@ }));
    }

    /// The number of glyphs in the font.
    pub fn glyph_count(&self) -> (n: usize)
        ensures
            n == self@.len(),
    {
        self.glyphs.len()
    }

    /// The bitmap for a codepoint at a pixel size, or `MissingGlyph` exactly
    /// when the font has none.
    pub fn rasterize(&self, codepoint: char, size: u32) -> (res: Result<
        &GlyphBitmap,
        RasterizeError,
    >)
        requires
            self.wf(),
        ensures
            match res {
                Ok(b) => rasterized(self@, codepoint, size) == Some(b@) && b.wf() && !b@.placeholder,
                Err(e) => e == RasterizeError::MissingGlyph && rasterized(self@, codepoint, size)
                    is None,
            },
    {
        let mut i: usize = 0;
        while i < self.glyphs.len()
            invariant
                i <= self.glyphs.len(),
                self.wf(),
                self@.len() == self.glyphs.len(),
                rasterized(self@.take(i as int), codepoint, size) is None,
            decreases self.glyphs.len() - i,
        {
            assert(self@.take(i + 1).drop_last() =~= self@.take(i as int));
            assert(self@.take(i + 1).last() == self.glyphs[i as int]@);
            if self.glyphs[i].codepoint == codepoint && self.glyphs[i].size == size {
                proof {
                    lemma_rasterized_prefix(self@, i + 1, codepoint, size);
                    assert(self@[i as int] == self.glyphs[i as int]@);
                    assert(real_bitmap(self@[i as int].bitmap));
                    assert(self.glyphs[i as int]@.bitmap == self.glyphs[i as int].bitmap@);
                    assert(rasterized(self@.take(i + 1), codepoint, size) == Some(
                        self.glyphs[i as int].bitmap@,
                    ));
                }
                return Ok(&self.glyphs[i].bitmap);
            }
            i += 1;
        }
        assert(self@.take(i as int) =~= self@);
        Err(RasterizeError::MissingGlyph)
    }
}

/// What a prefix of the glyphs already offers, the whole list offers too.
pub proof fn lemma_rasterized_prefix(
    glyphs: Seq<FontGlyphView>,
    n: int,
    codepoint: char,
    size: u32,
)
    requires
        0 <= n <= glyphs.len(),
        rasterized(glyphs.take(n), codepoint, size) is Some,
    ensures
        rasterized(glyphs, codepoint, size) == rasterized(glyphs.take(n), codepoint, size),
    decreases glyphs.len() - n,
{
    if n < glyphs.len() {
        assert(glyphs.take(n + 1).drop_last() =~= glyphs.take(n));
        lemma_rasterized_prefix(glyphs, n + 1, codepoint, size);
    } else {
        assert(glyphs.take(n) =~= glyphs);
    }
}

} // verus!
