//! The owned tables that both passes work on: the loaded fonts, and for each
//! font its atlases by pixel size.

use crate::atlas::{atlas_wf, filled_grid, AtlasError, AtlasView, Shelf};
use crate::font::{font_wf, Font, FontGlyphView};
use crate::font_atlas::{ensure_spec, FontAtlas, FontAtlasView, INITIAL_ATLAS_DIM};
use vstd::prelude::*;

verus! {

/// The identity of a font asset.
#[derive(Clone, Copy, Debug, PartialEq, Eq, Structural)]
pub struct Handle {
    pub id: u64,
}

/// The first position at which `key` stands in `keys`, if it stands there.
pub open spec fn position_of(keys: Seq<u64>, key: u64) -> Option<usize> {
    if exists|i: int| 0 <= i < keys.len() && keys[i] == key {
        Some(
            (choose|i: int|
                0 <= i < keys.len() && keys[i] == key && forall|j: int|
                    0 <= j < i ==> keys[j] != key) as usize,
        )
    } else {
        None
    }
}

/// Whether no key stands twice in `keys`.
pub open spec fn keys_distinct(keys: Seq<u64>) -> bool {
    forall|i: int, j: int| 0 <= i < j < keys.len() ==> keys[i] != keys[j]
}

/// A position that holds the key, with no earlier one that does, is the one
/// that `position_of` names.
pub proof fn lemma_position_of(keys: Seq<u64>, key: u64, i: int)
    requires
        0 <= i < keys.len() <= usize::MAX,
        keys[i] == key,
        forall|j: int| 0 <= j < i ==> keys[j] != key,
    ensures
        position_of(keys, key) == Some(i as usize),
{
    let k = choose|k: int|
        0 <= k < keys.len() && keys[k] == key && forall|j: int| 0 <= j < k ==> keys[j] != key;
    if k < i {
        assert(keys[k] != key);
    } else if i < k {
        assert(keys[i] != key);
    }
}

/// The first position of a key that stands at `at`.
pub proof fn lemma_first_position(keys: Seq<u64>, key: u64, at: int) -> (first: int)
    requires
        0 <= at < keys.len(),
        keys[at] == key,
    ensures
        0 <= first <= at,
        keys[first] == key,
        forall|j: int| 0 <= j < first ==> keys[j] != key,
    decreases at,
{
    if exists|j: int| 0 <= j < at && keys[j] == key {
        let j = choose|j: int| 0 <= j < at && keys[j] == key;
        lemma_first_position(keys, key, j)
    } else {
        at
    }
}

/// What `position_of` answers, said without a choice: the first position
/// that holds the key, or `None` where no position holds it.
pub proof fn lemma_position_found(keys: Seq<u64>, key: u64)
    requires
        keys.len() <= usize::MAX,
    ensures
        match position_of(keys, key) {
            Some(i) => {
                &&& i < keys.len()
                &&& keys[i as int] == key
                &&& forall|j: int| 0 <= j < i ==> keys[j] != key
            },
            None => forall|j: int| 0 <= j < keys.len() ==> keys[j] != key,
        },
{
    if exists|i: int| 0 <= i < keys.len() && keys[i] == key {
        let at = choose|i: int| 0 <= i < keys.len() && keys[i] == key;
        let first = lemma_first_position(keys, key, at);
        lemma_position_of(keys, key, first);
    }
}

/// The pixel size that a font size, given in 64ths of a pixel, is packed at:
/// the nearest whole pixel, halves rounded up.
pub open spec fn quantized(font_size: u32) -> u32 {
    ((font_size + 32) / 64) as u32
}

/// The pixel size that a font size in 64ths of a pixel is packed at.
pub fn quantize(font_size: u32) -> (px: u32)
    ensures
        px == quantized(font_size),
{
    let wide: u64 = font_size as u64 + 32;
    (wide / 64) as u32
}

/// The pixel sizes of a set's atlases, in order.
pub open spec fn atlas_sizes(atlases: Seq<FontAtlasView>) -> Seq<u64> {
    Seq::new(atlases.len(), |i: int| atlases[i].font_size as u64)
}

/// The font atlas that `get_atlas` creates for a pixel size.
pub open spec fn empty_font_atlas(px: u32) -> FontAtlasView {
    FontAtlasView {
        font_size: px,
        atlas: AtlasView {
            width: INITIAL_ATLAS_DIM,
            height: INITIAL_ATLAS_DIM,
            pixels: filled_grid(INITIAL_ATLAS_DIM as int, INITIAL_ATLAS_DIM as int, 0),
            entries: Seq::empty(),
            shelf: Shelf { x: 0, y: 0, height: 0 },
        },
    }
}

/// The mathematical content of a `FontAtlasSet`.
pub struct FontAtlasSetView {
    pub font: Handle,
    pub atlases: Seq<FontAtlasView>,
}

/// Whether a set holds at most one atlas per pixel size, each well formed.
pub open spec fn set_wf(s: FontAtlasSetView) -> bool {
    &&& s.atlases.len() <= usize::MAX
    &&& keys_distinct(atlas_sizes(s.atlases))
    &&& forall|i: int| 0 <= i < s.atlases.len() ==> atlas_wf((#[trigger] s.atlases[i]).atlas)
}

/// What `get_atlas` does: the position of the atlas for the quantized size,
/// which is appended, empty, where the set has none yet.
pub open spec fn get_atlas_spec(s: FontAtlasSetView, font_size: u32) -> (FontAtlasSetView, usize) {
    match position_of(atlas_sizes(s.atlases), quantized(font_size) as u64) {
        Some(i) => (s, i),
        None => (
            FontAtlasSetView {
                font: s.font,
                atlases: s.atlases.push(empty_font_atlas(quantized(font_size))),
            },
            s.atlases.len() as usize,
        ),
    }
}

/// What `add_glyphs_to_atlas` does: `get_atlas`, then `ensure_glyphs` on
/// the atlas it names.
pub open spec fn add_glyphs_spec(
    s: FontAtlasSetView,
    font: Seq<FontGlyphView>,
    font_size: u32,
    text: Seq<char>,
) -> (FontAtlasSetView, Result<Seq<char>, AtlasError>) {
    let (s1, i) = get_atlas_spec(s, font_size);
    let (a, r) = ensure_spec(s1.atlases[i as int].atlas, font, quantized(font_size), text);
    (
        FontAtlasSetView {
            font: s1.font,
            atlases: s1.atlases.update(
                i as int,
                FontAtlasView { font_size: quantized(font_size), atlas: a },
            ),
        },
        r,
    )
}

/// The atlases of one font, one per pixel size.
#[derive(Debug)]
pub struct FontAtlasSet {
    font: Handle,
    atlases: Vec<FontAtlas>,
}

impl FontAtlasSet {
    /// The set as plain mathematical values.
    pub closed spec fn view(&self) -> FontAtlasSetView {
        FontAtlasSetView {
            font: self.font,
            atlases: Seq::new(self.atlases@.len(), |i: int| self.atlases@[i]@),
        }
    }

    /// The invariant of every set that this library hands out.
    pub open spec fn wf(&self) -> bool {
        set_wf(self@)
    }

    /// A set without atlases for a font.
    pub fn new(font: Handle) -> (s: Self)
        ensures
            s.wf(),
            s@ == (FontAtlasSetView { font, atlases: Seq::empty() }),
    {
        let s = FontAtlasSet { font, atlases: Vec::new() };
        assert(s@.atlases =~= Seq::empty());
        s
    }

    /// The font that the set belongs to.
    pub fn font(&self) -> (h: Handle)
        ensures
            h == self@.font,
    {
        self.font
    }

    /// The number of atlases in the set.
    pub fn atlas_count(&self) -> (n: usize)
        ensures
            n == self@.atlases.len(),
    {
        self.atlases.len()
    }

    /// The position of the atlas for a font size, if the set has one.
    pub fn find_atlas(&self, font_size: u32) -> (res: Option<usize>)
        ensures
            res == position_of(atlas_sizes(self@.atlases), quantized(font_size) as u64),
            res matches Some(i) ==> i < self@.atlases.len() && self@.atlases[i as int].font_size
                == quantized(font_size),
    {
        let px = quantize(font_size);
        let ghost keys = atlas_sizes(self@.atlases);
        let mut i: usize = 0;
        while i < self.atlases.len()
            invariant
                i <= self.atlases.len(),
                keys == atlas_sizes(self@.atlases),
                keys.len() == self.atlases.len(),
                px == quantized(font_size),
                forall|j: int| 0 <= j < i ==> keys[j] != px as u64,
            decreases self.atlases.len() - i,
        {
            assert(keys[i as int] == self.atlases[i as int]@.font_size as u64);
            if self.atlases[i].font_size() == px {
                proof {
                    lemma_position_of(keys, px as u64, i as int);
                }
                return Some(i);
            }
            i += 1;
        }
        None
    }

    /// The atlas at a position, if there is one.
    pub fn atlas_at(&self, index: usize) -> (res: Option<&FontAtlas>)
        ensures
            match res {
                Some(fa) => index < self@.atlases.len() && fa@ == self@.atlases[index as int],
                None => index >= self@.atlases.len(),
            },
    {
        if index < self.atlases.len() {
            Some(&self.atlases[index])
        } else {
            None
        }
    }

    /// The position of the atlas for a font size, which is created, empty,
    /// where the set has none for the quantized size yet.
    pub fn get_atlas(&mut self, font_size: u32) -> (index: usize)
        requires
            old(self).wf(),
        ensures
            final(self).wf(),
            (final(self)@, index) == get_atlas_spec(old(self)@, font_size),
            index < final(self)@.atlases.len(),
            final(self)@.atlases[index as int].font_size == quantized(font_size),
    {
        match self.find_atlas(font_size) {
            Some(i) => i,
            None => {
                let px = quantize(font_size);
                let index: usize = self.atlases.len();
                let ghost before = self@;
                match FontAtlas::with_size(px, INITIAL_ATLAS_DIM, INITIAL_ATLAS_DIM) {
                    Ok(fa) => {
                        assert(fa@ == empty_font_atlas(px));
                        self.atlases.push(fa);
                    },
                    Err(_) => {
                        assert(false);
                    },
                }
                proof {
                    assert(self@.atlases =~= before.atlases.push(empty_font_atlas(px)));
                    let keys = atlas_sizes(self@.atlases);
                    let old_keys = atlas_sizes(before.atlases);
                    assert(self@.atlases.len() == self.atlases.len());
                    assert forall|i: int, j: int| 0 <= i < j < keys.len() implies keys[i]
                        != keys[j] by {
                        assert(keys[i] == old_keys[i]);
                        if j < old_keys.len() {
                            assert(keys[j] == old_keys[j]);
                        } else {
                            assert(keys[j] == px as u64);
                            assert(0 <= i < old_keys.len() && old_keys[i] != px as u64);
                        }
                    }
                    assert forall|i: int| 0 <= i < self@.atlases.len() implies atlas_wf(
                        (#[trigger] self@.atlases[i]).atlas,
                    ) by {
                        if i < before.atlases.len() {
                            assert(self@.atlases[i] == before.atlases[i]);
                        }
                    }
                }
                index
            },
        }
    }

    /// Makes the glyphs of `text` resident in the atlas for `font_size`,
    /// creating that atlas where the set has none yet.
    pub fn add_glyphs_to_atlas(&mut self, font: &Font, font_size: u32, text: &str) -> (res: Result<
        Vec<char>,
        AtlasError,
    >)
        requires
            old(self).wf(),
            font.wf(),
        ensures
            final(self).wf(),
            (
                final(self)@,
                match res {
                    Ok(missing) => Ok(missing@),
                    Err(e) => Err(e),
                },
            ) == add_glyphs_spec(old(self)@, font@, font_size, text@),
    {
        let index = self.get_atlas(font_size);
        let ghost mid = self@;
        let res = self.atlases[index].ensure_glyphs(font, text);
        proof {
            assert(self@.atlases =~= mid.atlases.update(index as int, self.atlases[index as int]@));
            let keys = atlas_sizes(self@.atlases);
            let mid_keys = atlas_sizes(mid.atlases);
            assert(keys =~= mid_keys);
        }
        res
    }
}

/// The mathematical content of a loaded font asset.
pub struct FontAssetView {
    pub handle: Handle,
    pub glyphs: Seq<FontGlyphView>,
}

/// The handle ids of the loaded fonts, in order.
pub open spec fn font_handles(assets: Seq<FontAssetView>) -> Seq<u64> {
    Seq::new(assets.len(), |i: int| assets[i].handle.id)
}

/// The glyphs of the font loaded under a handle, if one is.
pub open spec fn loaded_font(assets: Seq<FontAssetView>, handle: Handle) -> Option<
    Seq<FontGlyphView>,
> {
    match position_of(font_handles(assets), handle.id) {
        Some(i) => Some(assets[i as int].glyphs),
        None => None,
    }
}

/// Whether every loaded font is well formed.
pub open spec fn store_wf(assets: Seq<FontAssetView>) -> bool {
    &&& assets.len() <= usize::MAX
    &&& forall|i: int| 0 <= i < assets.len() ==> font_wf((#[trigger] assets[i]).glyphs)
}

/// A font together with the handle it was loaded under.
#[derive(Debug)]
pub struct FontAsset {
    handle: Handle,
    font: Font,
}

/// The fonts that have been loaded so far.
#[derive(Debug)]
pub struct FontStore {
    assets: Vec<FontAsset>,
}

impl FontStore {
    /// The store as plain mathematical values.
    pub closed spec fn view(&self) -> Seq<FontAssetView> {
        Seq::new(
            self.assets@.len(),
            |i: int| FontAssetView { handle: self.assets@[i].handle, glyphs: self.assets@[i].font@ },
        )
    }

    /// The invariant of every store that this library hands out.
    pub open spec fn wf(&self) -> bool {
        store_wf(self@)
    }

    /// A store without fonts.
    pub fn new() -> (s: Self)
        ensures
            s.wf(),
            s@ == Seq::<FontAssetView>::empty(),
    {
        let s = FontStore { assets: Vec::new() };
        assert(s@ =~= Seq::<FontAssetView>::empty());
        s
    }

    /// Records a font as loaded under a handle. A font loaded earlier under
    /// the same handle stays the one that is found.
    pub fn insert(&mut self, handle: Handle, font: Font)
        requires
            old(self).wf(),
            font.wf(),
        ensures
            final(self).wf(),
            final(self)@ == old(self)@.push(FontAssetView { handle, glyphs: font@ }),
    {
        let ghost before = self@;
        let ghost glyphs = font@;
        self.assets.push(FontAsset { handle, font });
        proof {
            assert(self@ =~= before.push(FontAssetView { handle, glyphs }));
            assert(self@.len() == self.assets.len());
            assert forall|i: int| 0 <= i < self@.len() implies font_wf(
                (#[trigger] self@[i]).glyphs,
            ) by {
                if i < before.len() {
                    assert(self@[i] == before[i]);
                }
            }
        }
    }

    /// The font loaded under a handle; `None` exactly when none is.
    pub fn get(&self, handle: Handle) -> (res: Option<&Font>)
        requires
            self.wf(),
        ensures
            match res {
                Some(f) => loaded_font(self@, handle) == Some(f@) && f.wf(),
                None => loaded_font(self@, handle) is None,
            },
    {
        let ghost keys = font_handles(self@);
        let mut i: usize = 0;
        while i < self.assets.len()
            invariant
                i <= self.assets.len(),
                self.wf(),
                keys == font_handles(self@),
                keys.len() == self.assets.len(),
                forall|j: int| 0 <= j < i ==> keys[j] != handle.id,
            decreases self.assets.len() - i,
        {
            assert(keys[i as int] == self.assets[i as int].handle.id);
            if self.assets[i].handle.id == handle.id {
                proof {
                    lemma_position_of(keys, handle.id, i as int);
                    assert(self@[i as int].glyphs == self.assets[i as int].font@);
                }
                return Some(&self.assets[i].font);
            }
            i += 1;
        }
        None
    }
}

/// The handle ids of the sets, in order.
pub open spec fn set_handles(sets: Seq<FontAtlasSetView>) -> Seq<u64> {
    Seq::new(sets.len(), |i: int| sets[i].font.id)
}

/// Whether a table holds at most one set per font, each well formed.
pub open spec fn sets_wf(sets: Seq<FontAtlasSetView>) -> bool {
    &&& sets.len() <= usize::MAX
    &&& keys_distinct(set_handles(sets))
    &&& forall|i: int| 0 <= i < sets.len() ==> set_wf(#[trigger] sets[i])
}

/// What `get_or_create` does: the position of the font's set, which is
/// appended, empty, where the table has none yet.
pub open spec fn get_or_create_spec(sets: Seq<FontAtlasSetView>, handle: Handle) -> (
    Seq<FontAtlasSetView>,
    usize,
) {
    match position_of(set_handles(sets), handle.id) {
        Some(i) => (sets, i),
        None => (
            sets.push(FontAtlasSetView { font: handle, atlases: Seq::empty() }),
            sets.len() as usize,
        ),
    }
}

/// What `populate` does: `get_or_create`, then `add_glyphs_to_atlas` on the
/// set it names.
pub open spec fn populate_spec(
    sets: Seq<FontAtlasSetView>,
    handle: Handle,
    font: Seq<FontGlyphView>,
    font_size: u32,
    text: Seq<char>,
) -> (Seq<FontAtlasSetView>, Result<Seq<char>, AtlasError>) {
    let (s1, i) = get_or_create_spec(sets, handle);
    let (set, r) = add_glyphs_spec(s1[i as int], font, font_size, text);
    (s1.update(i as int, set), r)
}

/// The font atlas sets of all fonts seen so far. Sets are created on first
/// use and never removed.
#[derive(Debug)]
pub struct FontAtlasSets {
    sets: Vec<FontAtlasSet>,
}

impl FontAtlasSets {
    /// The table as plain mathematical values.
    pub closed spec fn view(&self) -> Seq<FontAtlasSetView> {
        Seq::new(self.sets@.len(), |i: int| self.sets@[i]@)
    }

    /// The invariant of every table that this library hands out.
    pub open spec fn wf(&self) -> bool {
        sets_wf(self@)
    }

    /// A table without sets.
    pub fn new() -> (s: Self)
        ensures
            s.wf(),
            s@ == Seq::<FontAtlasSetView>::empty(),
    {
        let s = FontAtlasSets { sets: Vec::new() };
        assert(s@ =~= Seq::<FontAtlasSetView>::empty());
        s
    }

    /// The number of sets in the table.
    pub fn len(&self) -> (n: usize)
        ensures
            n == self@.len(),
    {
        self.sets.len()
    }

    /// The position of a font's set, if the table has one.
    pub fn find(&self, handle: Handle) -> (res: Option<usize>)
        ensures
            res == position_of(set_handles(self@), handle.id),
            res matches Some(i) ==> i < self@.len() && self@[i as int].font.id == handle.id,
    {
        let ghost keys = set_handles(self@);
        let mut i: usize = 0;
        while i < self.sets.len()
            invariant
                i <= self.sets.len(),
                keys == set_handles(self@),
                keys.len() == self.sets.len(),
                forall|j: int| 0 <= j < i ==> keys[j] != handle.id,
            decreases self.sets.len() - i,
        {
            assert(keys[i as int] == self.sets[i as int]@.font.id);
            if self.sets[i].font().id == handle.id {
                proof {
                    lemma_position_of(keys, handle.id, i as int);
                }
                return Some(i);
            }
            i += 1;
        }
        None
    }

    /// The set of a font; `None` exactly when the table has none for it.
    pub fn get(&self, handle: Handle) -> (res: Option<&FontAtlasSet>)
        ensures
            match res {
                Some(s) => position_of(set_handles(self@), handle.id) matches Some(i) && s@
                    == self@[i as int],
                None => position_of(set_handles(self@), handle.id) is None,
            },
    {
        match self.find(handle) {
            Some(i) => Some(&self.sets[i]),
            None => None,
        }
    }

    /// The position of a font's set, which is created, empty, where the
    /// table has none yet. Nothing else changes.
    pub fn get_or_create(&mut self, handle: Handle) -> (index: usize)
        requires
            old(self).wf(),
        ensures
            final(self).wf(),
            (final(self)@, index) == get_or_create_spec(old(self)@, handle),
            index < final(self)@.len(),
    {
        match self.find(handle) {
            Some(i) => i,
            None => {
                let index: usize = self.sets.len();
                let ghost before = self@;
                self.sets.push(FontAtlasSet::new(handle));
                proof {
                    assert(self@ =~= before.push(
                        FontAtlasSetView { font: handle, atlases: Seq::empty() },
                    ));
                    assert(self@.len() == self.sets.len());
                    let keys = set_handles(self@);
                    let old_keys = set_handles(before);
                    assert forall|i: int, j: int| 0 <= i < j < keys.len() implies keys[i]
                        != keys[j] by {
                        assert(keys[i] == old_keys[i]);
                        if j < old_keys.len() {
                            assert(keys[j] == old_keys[j]);
                        } else {
                            assert(0 <= i < old_keys.len() && old_keys[i] != handle.id);
                        }
                    }
                    assert forall|i: int| 0 <= i < self@.len() implies set_wf(
                        #[trigger] self@[i],
                    ) by {
                        if i < before.len() {
                            assert(self@[i] == before[i]);
                        }
                    }
                }
                index
            },
        }
    }

    /// Makes the glyphs of `text` resident for a font at a font size,
    /// creating the font's set and the size's atlas where they are missing.
    pub fn populate(&mut self, handle: Handle, font: &Font, font_size: u32, text: &str) -> (res:
        Result<Vec<char>, AtlasError>)
        requires
            old(self).wf(),
            font.wf(),
        ensures
            final(self).wf(),
            (
                final(self)@,
                match res {
                    Ok(missing) => Ok(missing@),
                    Err(e) => Err(e),
                },
            ) == populate_spec(old(self)@, handle, font@, font_size, text@),
    {
        let index = self.get_or_create(handle);
        let ghost mid = self@;
        assert(self.sets[index as int]@ == mid[index as int]);
        let res = self.sets[index].add_glyphs_to_atlas(font, font_size, text);
        proof {
            assert(self@ =~= mid.update(index as int, self.sets[index as int]@));
            assert(self@.len() == self.sets.len());
            let keys = set_handles(self@);
            let mid_keys = set_handles(mid);
            assert(self.sets[index as int]@.font == mid[index as int].font);
            assert(keys =~= mid_keys);
            assert forall|i: int| 0 <= i < self@.len() implies set_wf(#[trigger] self@[i]) by {
                if i != index {
                    assert(self@[i] == mid[i]);
                }
            }
        }
        res
    }
}

} // verus!
