//! What holds of the atlas cache as a whole, proved from the definitions
//! that the contracts of the operations use.

use crate::atlas::{
    atlas_wf, entries_kept, find_entry, fitting_size, is_grid, lemma_find_entry, lemma_find_entry_push, place,
    rect_contains, rects_disjoint, reserve_spec, AtlasError, AtlasView, BitmapView, GlyphEntry,
    Shelf, MAX_ATLAS_DIM,
};
use crate::font::{font_wf, lemma_rasterized_real, rasterized, FontGlyphView};
use crate::font_atlas::{
    advance_of, all_present, ensure_one, ensure_spec, glyph_id_of, layout_spec,
    lemma_advance_sum_bound, Position, MAX_ADVANCE,
};
use crate::font_atlas::FontAtlasView;
use crate::label::{population_step, LabelView, PopulationOutcome};
use crate::registry::{
    atlas_sizes, get_atlas_spec, get_or_create_spec, lemma_position_found, lemma_position_of,
    populate_spec, quantized, set_handles, FontAssetView, FontAtlasSetView, Handle,
};
use vstd::prelude::*;

verus! {

/// Reserving a glyph keeps every entry that the atlas had, under its id,
/// and never shrinks the atlas. A glyph that was found is still found, at
/// the same id, and the reserved glyph is found afterwards unless the
/// atlas was full. Reserving it a second time changes nothing and answers
/// with the same id.
pub proof fn lemma_reserve_monotone(a: AtlasView, glyph_id: u32, b: BitmapView, other: u32)
    ensures
        entries_kept(a.entries, reserve_spec(a, glyph_id, b).0.entries),
        find_entry(a.entries, other) is Some ==> find_entry(
            reserve_spec(a, glyph_id, b).0.entries,
            other,
        ) == find_entry(a.entries, other),
        reserve_spec(a, glyph_id, b).1 matches Ok(id) ==> find_entry(
            reserve_spec(a, glyph_id, b).0.entries,
            glyph_id,
        ) == Some(id),
        reserve_spec(a, glyph_id, b).1 is Err ==> reserve_spec(a, glyph_id, b).0 == a,
        reserve_spec(reserve_spec(a, glyph_id, b).0, glyph_id, b) == (
            reserve_spec(a, glyph_id, b).0,
            reserve_spec(a, glyph_id, b).1,
        ),
{
    let after = reserve_spec(a, glyph_id, b).0;
    if after.entries.len() > a.entries.len() {
        let e = after.entries.last();
        assert(after.entries =~= a.entries.push(e));
        lemma_find_entry_push(a.entries, e, other);
        lemma_find_entry_push(a.entries, e, glyph_id);
    }
}

/// Making one codepoint resident keeps every entry, keeps every glyph that
/// was found where it was, leaves the atlas alone when it fails, and when
/// it succeeds the codepoint is packed.
pub proof fn lemma_ensure_one_monotone(
    a: AtlasView,
    font: Seq<FontGlyphView>,
    font_size: u32,
    c: char,
    other: u32,
)
    ensures
        entries_kept(a.entries, ensure_one(a, font, font_size, c).0.entries),
        find_entry(a.entries, other) is Some ==> find_entry(
            ensure_one(a, font, font_size, c).0.entries,
            other,
        ) == find_entry(a.entries, other),
        ensure_one(a, font, font_size, c).1 is Ok ==> find_entry(
            ensure_one(a, font, font_size, c).0.entries,
            glyph_id_of(c),
        ) is Some,
        ensure_one(a, font, font_size, c).1 is Err ==> ensure_one(a, font, font_size, c).0 == a,
{
    if find_entry(a.entries, glyph_id_of(c)) is None {
        match crate::font::rasterized(font, c, font_size) {
            Some(b) => {
                lemma_reserve_monotone(a, glyph_id_of(c), b, other);
            },
            None => {
                lemma_reserve_monotone(
                    a,
                    glyph_id_of(c),
                    crate::font_atlas::placeholder_bitmap(font_size),
                    other,
                );
            },
        }
    }
}

/// No call of `ensure_glyphs` takes an entry away or moves it: every
/// rectangle id handed out before the call names the same glyph, rectangle
/// and advance width after it, and a glyph that was found is found at the
/// same id.
pub proof fn lemma_ensure_monotone(
    a: AtlasView,
    font: Seq<FontGlyphView>,
    font_size: u32,
    text: Seq<char>,
    other: u32,
)
    ensures
        entries_kept(a.entries, ensure_spec(a, font, font_size, text).0.entries),
        find_entry(a.entries, other) is Some ==> find_entry(
            ensure_spec(a, font, font_size, text).0.entries,
            other,
        ) == find_entry(a.entries, other),
    decreases text.len(),
{
    if text.len() > 0 {
        lemma_ensure_monotone(a, font, font_size, text.drop_last(), other);
        let (a1, r1) = ensure_spec(a, font, font_size, text.drop_last());
        if r1 is Ok {
            lemma_ensure_one_monotone(a1, font, font_size, text.last(), other);
        }
    }
}

/// What a list of `ensure_glyphs` calls, one per text, makes of an atlas.
pub open spec fn ensure_each(
    a: AtlasView,
    font: Seq<FontGlyphView>,
    font_size: u32,
    texts: Seq<Seq<char>>,
) -> AtlasView
    decreases texts.len(),
{
    if texts.len() == 0 {
        a
    } else {
        ensure_spec(ensure_each(a, font, font_size, texts.drop_last()), font, font_size, texts.last()).0
    }
}

/// Over any sequence of `ensure_glyphs` calls the rectangle ids only grow
/// in number: each one that existed before names the same entry after.
pub proof fn lemma_ensure_each_monotone(
    a: AtlasView,
    font: Seq<FontGlyphView>,
    font_size: u32,
    texts: Seq<Seq<char>>,
)
    ensures
        entries_kept(a.entries, ensure_each(a, font, font_size, texts).entries),
    decreases texts.len(),
{
    if texts.len() > 0 {
        lemma_ensure_each_monotone(a, font, font_size, texts.drop_last());
        lemma_ensure_monotone(
            ensure_each(a, font, font_size, texts.drop_last()),
            font,
            font_size,
            texts.last(),
            0,
        );
    }
}

/// After a call of `ensure_glyphs` that succeeded, every codepoint of the
/// text is packed.
pub proof fn lemma_ensure_makes_present(
    a: AtlasView,
    font: Seq<FontGlyphView>,
    font_size: u32,
    text: Seq<char>,
)
    requires
        ensure_spec(a, font, font_size, text).1 is Ok,
    ensures
        all_present(ensure_spec(a, font, font_size, text).0.entries, text),
    decreases text.len(),
{
    if text.len() > 0 {
        let front = text.drop_last();
        let (a1, r1) = ensure_spec(a, font, font_size, front);
        lemma_ensure_makes_present(a, font, font_size, front);
        let a2 = ensure_one(a1, font, font_size, text.last()).0;
        assert forall|i: int| 0 <= i < text.len() implies find_entry(
            a2.entries,
            glyph_id_of(#[trigger] text[i]),
        ) is Some by {
            lemma_ensure_one_monotone(a1, font, font_size, text.last(), glyph_id_of(text[i]));
            if i < front.len() {
                assert(front[i] == text[i]);
            }
        }
    }
}

/// A call of `ensure_glyphs` with a text whose codepoints are all packed
/// changes nothing and reports no placeholder.
pub proof fn lemma_ensure_present_is_noop(
    a: AtlasView,
    font: Seq<FontGlyphView>,
    font_size: u32,
    text: Seq<char>,
)
    requires
        all_present(a.entries, text),
    ensures
        ensure_spec(a, font, font_size, text) == (a, Ok::<Seq<char>, AtlasError>(Seq::empty())),
    decreases text.len(),
{
    if text.len() > 0 {
        let front = text.drop_last();
        assert forall|i: int| 0 <= i < front.len() implies find_entry(
            a.entries,
            glyph_id_of(#[trigger] front[i]),
        ) is Some by {
            assert(front[i] == text[i]);
        }
        lemma_ensure_present_is_noop(a, font, font_size, front);
        assert(text.last() == text[text.len() - 1]);
        assert(Seq::<char>::empty() + Seq::<char>::empty() =~= Seq::<char>::empty());
    }
}

/// Idempotence: a second call of `ensure_glyphs` with the same text leaves
/// the atlas, pixels and rectangles alike, exactly as the first call left
/// it. It adds no rectangle and reports no placeholder; where the first
/// call found no room, the second fails in the same way.
pub proof fn lemma_ensure_idempotent(
    a: AtlasView,
    font: Seq<FontGlyphView>,
    font_size: u32,
    text: Seq<char>,
)
    ensures
        ensure_spec(ensure_spec(a, font, font_size, text).0, font, font_size, text) == (
            ensure_spec(a, font, font_size, text).0,
            match ensure_spec(a, font, font_size, text).1 {
                Ok(_) => Ok::<Seq<char>, AtlasError>(Seq::empty()),
                Err(e) => Err(e),
            },
        ),
    decreases text.len(),
{
    let (a1, r1) = ensure_spec(a, font, font_size, text);
    if r1 is Ok {
        lemma_ensure_makes_present(a, font, font_size, text);
        lemma_ensure_present_is_noop(a1, font, font_size, text);
    } else {
        let front = text.drop_last();
        let (f1, fr) = ensure_spec(a, font, font_size, front);
        if fr is Err {
            lemma_ensure_idempotent(a, font, font_size, front);
        } else {
            lemma_ensure_makes_present(a, font, font_size, front);
            lemma_ensure_one_monotone(f1, font, font_size, text.last(), 0);
            lemma_ensure_present_is_noop(f1, font, font_size, front);
        }
    }
}

/// Packing is settled by the first insertion: once the glyphs of `glyphs`
/// are resident, a call of `ensure_glyphs` with any text made of those
/// codepoints alone changes nothing, so each glyph keeps its rectangle
/// however often and in whatever subsets it is asked for again.
pub proof fn lemma_packing_settled(
    a: AtlasView,
    font: Seq<FontGlyphView>,
    font_size: u32,
    glyphs: Seq<char>,
    text: Seq<char>,
)
    requires
        ensure_spec(a, font, font_size, glyphs).1 is Ok,
        forall|i: int| 0 <= i < text.len() ==> glyphs.contains(#[trigger] text[i]),
    ensures
        ensure_spec(ensure_spec(a, font, font_size, glyphs).0, font, font_size, text) == (
            ensure_spec(a, font, font_size, glyphs).0,
            Ok::<Seq<char>, AtlasError>(Seq::empty()),
        ),
{
    let a1 = ensure_spec(a, font, font_size, glyphs).0;
    lemma_ensure_makes_present(a, font, font_size, glyphs);
    assert forall|i: int| 0 <= i < text.len() implies find_entry(
        a1.entries,
        glyph_id_of(#[trigger] text[i]),
    ) is Some by {
        assert(glyphs.contains(text[i]));
        let j = choose|j: int| 0 <= j < glyphs.len() && glyphs[j] == text[i];
        assert(find_entry(a1.entries, glyph_id_of(glyphs[j])) is Some);
    }
    lemma_ensure_present_is_noop(a1, font, font_size, text);
}

/// In a layout, each placement stands at the height of the start position,
/// the first at the start position itself, and each next one to the right
/// of the one before it by exactly that glyph's advance width.
pub proof fn lemma_layout_advances(
    entries: Seq<GlyphEntry>,
    text: Seq<char>,
    start: Position,
    i: int,
)
    requires
        0 <= i < text.len(),
        start.x + text.len() * MAX_ADVANCE <= i64::MAX,
    ensures
        layout_spec(entries, text, start).len() == text.len(),
        layout_spec(entries, text, start)[i].offset.y == start.y,
        layout_spec(entries, text, start)[0].offset.x == start.x,
        i + 1 < text.len() ==> layout_spec(entries, text, start)[i + 1].offset.x == layout_spec(
            entries,
            text,
            start,
        )[i].offset.x + advance_of(entries, text[i]),
{
    lemma_advance_sum_bound(entries, text.take(i));
    assert(text.take(0).len() == 0);
    if i + 1 < text.len() {
        lemma_advance_sum_bound(entries, text.take(i + 1));
        assert(text.take(i + 1).drop_last() =~= text.take(i));
        assert(text.take(i + 1).last() == text[i]);
        assert((i + 1) * MAX_ADVANCE <= text.len() * MAX_ADVANCE) by (nonlinear_arith)
            requires
                i + 1 <= text.len(),
        ;
    }
    assert(i * MAX_ADVANCE <= text.len() * MAX_ADVANCE) by (nonlinear_arith)
        requires
            0 <= i <= text.len(),
    ;
}

/// The size that the packer settles on has room for the bitmap, is no
/// smaller than the size it started from and no larger than the limit.
pub proof fn lemma_fitting_size(shelf: Shelf, width: int, height: int, bw: u32, bh: u32)
    requires
        1 <= width <= MAX_ATLAS_DIM,
        1 <= height <= MAX_ATLAS_DIM,
    ensures
        fitting_size(shelf, width, height, bw, bh) matches Some((w, h)) ==> {
            &&& place(shelf, w as int, h as int, bw, bh) is Some
            &&& width <= w <= MAX_ATLAS_DIM
            &&& height <= h <= MAX_ATLAS_DIM
        },
    decreases MAX_ATLAS_DIM - width,
{
    if place(shelf, width, height, bw, bh) is None && 2 * width <= MAX_ATLAS_DIM && 2 * height
        <= MAX_ATLAS_DIM {
        lemma_fitting_size(shelf, 2 * width, 2 * height, bw, bh);
    }
}

/// Any two rectangles of a well-formed atlas share no pixel.
pub proof fn lemma_rects_disjoint(a: AtlasView, i: int, j: int)
    requires
        atlas_wf(a),
        0 <= i < a.entries.len(),
        0 <= j < a.entries.len(),
        i != j,
    ensures
        rects_disjoint(a.entries[i].rect, a.entries[j].rect),
{
    if i < j {
        let r = a.entries[i].rect;
        let s = a.entries[j].rect;
        assert(r.y + r.height <= s.y || (r.y == s.y && r.x + r.width <= s.x));
    } else {
        let r = a.entries[j].rect;
        let s = a.entries[i].rect;
        assert(r.y + r.height <= s.y || (r.y == s.y && r.x + r.width <= s.x));
    }
}

/// Reserving a glyph in a well-formed atlas gives a well-formed atlas, and
/// every pixel inside a rectangle that was packed before keeps its value:
/// growth never moves or overwrites what is there.
pub proof fn lemma_reserve_keeps_pixels(
    a: AtlasView,
    glyph_id: u32,
    b: BitmapView,
    i: int,
    x: int,
    y: int,
)
    requires
        atlas_wf(a),
        a.entries.len() < usize::MAX,
        is_grid(b.pixels, b.width as int, b.height as int),
    ensures
        atlas_wf(reserve_spec(a, glyph_id, b).0),
        0 <= i < a.entries.len() && rect_contains(a.entries[i].rect, x, y) ==> reserve_spec(
            a,
            glyph_id,
            b,
        ).0.pixels[y][x] == a.pixels[y][x],
{
    let after = reserve_spec(a, glyph_id, b).0;
    lemma_find_entry(a.entries, glyph_id);
    if find_entry(a.entries, glyph_id) is None {
        lemma_fitting_size(a.shelf, a.width as int, a.height as int, b.width, b.height);
        match fitting_size(a.shelf, a.width as int, a.height as int, b.width, b.height) {
            Some((w, h)) => {
                let (rect, shelf) = place(a.shelf, w as int, h as int, b.width, b.height)->0;
                let n = a.entries.len() as int;
                assert(after.entries[n].rect == rect);
                assert forall|k: int| 0 <= k < after.entries.len() implies {
                    let r = (#[trigger] after.entries[k]).rect;
                    &&& r.x + r.width <= after.width
                    &&& (r.y + r.height <= after.shelf.y || (r.y == after.shelf.y && r.x + r.width
                        <= after.shelf.x && r.height <= after.shelf.height))
                } by {
                    if k < n {
                        assert(after.entries[k] == a.entries[k]);
                    }
                }
                assert forall|k: int, l: int| 0 <= k < l < after.entries.len() implies {
                    let r = (#[trigger] after.entries[k]).rect;
                    let s = (#[trigger] after.entries[l]).rect;
                    r.y + r.height <= s.y || (r.y == s.y && r.x + r.width <= s.x)
                } by {
                    assert(after.entries[k] == a.entries[k]);
                    if l < n {
                        assert(after.entries[l] == a.entries[l]);
                    }
                }
                assert forall|k: int, l: int| 0 <= k < l < after.entries.len() implies (
                #[trigger] after.entries[k]).glyph_id != (#[trigger] after.entries[l]).glyph_id by {
                    assert(after.entries[k] == a.entries[k]);
                    if l < n {
                        assert(after.entries[l] == a.entries[l]);
                    }
                }
                assert(is_grid(after.pixels, after.width as int, after.height as int));
                if 0 <= i < n && rect_contains(a.entries[i].rect, x, y) {
                    let r = a.entries[i].rect;
                    assert(!rect_contains(rect, x, y));
                    assert(0 <= y < a.height && 0 <= x < a.width);
                    assert(a.pixels[y].len() == a.width);
                }
            },
            None => {},
        }
    }
}

/// `ensure_glyphs` on a well-formed atlas with a well-formed font gives a
/// well-formed atlas, and every pixel inside a rectangle that was packed
/// before the call keeps its value.
pub proof fn lemma_ensure_keeps_pixels(
    a: AtlasView,
    font: Seq<FontGlyphView>,
    font_size: u32,
    text: Seq<char>,
    i: int,
    x: int,
    y: int,
)
    requires
        atlas_wf(a),
        font_wf(font),
        a.entries.len() + text.len() < usize::MAX,
    ensures
        atlas_wf(ensure_spec(a, font, font_size, text).0),
        ensure_spec(a, font, font_size, text).0.entries.len() <= a.entries.len() + text.len(),
        0 <= i < a.entries.len() && rect_contains(a.entries[i].rect, x, y) ==> ensure_spec(
            a,
            font,
            font_size,
            text,
        ).0.pixels[y][x] == a.pixels[y][x],
    decreases text.len(),
{
    if text.len() > 0 {
        let front = text.drop_last();
        lemma_ensure_keeps_pixels(a, font, font_size, front, i, x, y);
        lemma_ensure_monotone(a, font, font_size, front, 0);
        let (a1, r1) = ensure_spec(a, font, font_size, front);
        if r1 is Ok {
            let c = text.last();
            if find_entry(a1.entries, glyph_id_of(c)) is None {
                lemma_rasterized_real(font, c, font_size);
                let b = match rasterized(font, c, font_size) {
                    Some(b) => b,
                    None => crate::font_atlas::placeholder_bitmap(font_size),
                };
                lemma_reserve_keeps_pixels(a1, glyph_id_of(c), b, i, x, y);
                if 0 <= i < a.entries.len() {
                    assert(a1.entries[i] == a.entries[i]);
                }
            }
        }
    }
}

/// Asking twice for the set of one font gives the same set at the same
/// position, and the second call changes nothing; the first changes
/// nothing but to append the set where it was missing.
pub proof fn lemma_get_or_create_idempotent(sets: Seq<FontAtlasSetView>, handle: Handle)
    requires
        sets.len() < usize::MAX,
    ensures
        get_or_create_spec(get_or_create_spec(sets, handle).0, handle) == get_or_create_spec(
            sets,
            handle,
        ),
        get_or_create_spec(sets, handle).0.len() <= sets.len() + 1,
        forall|k: int|
            0 <= k < sets.len() ==> (#[trigger] get_or_create_spec(sets, handle).0[k]) == sets[k],
{
    let (s1, i) = get_or_create_spec(sets, handle);
    let keys = set_handles(sets);
    if s1.len() > sets.len() {
        let keys1 = set_handles(s1);
        assert forall|j: int| 0 <= j < sets.len() implies keys1[j] != handle.id by {
            assert(keys[j] == keys1[j]);
        }
        lemma_position_of(keys1, handle.id, sets.len() as int);
    }
}

/// Font sizes that round to the same pixel size share one atlas: asking
/// for the second finds the atlas that asking for the first found or
/// created, and changes nothing.
pub proof fn lemma_get_atlas_shared(s: FontAtlasSetView, font_size: u32, other_size: u32)
    requires
        s.atlases.len() < usize::MAX,
        quantized(font_size) == quantized(other_size),
    ensures
        get_atlas_spec(get_atlas_spec(s, font_size).0, other_size) == get_atlas_spec(s, font_size),
        get_atlas_spec(s, font_size).0.atlases.len() <= s.atlases.len() + 1,
        forall|k: int|
            0 <= k < s.atlases.len() ==> (#[trigger] get_atlas_spec(s, font_size).0.atlases[k])
                == s.atlases[k],
{
    let (s1, i) = get_atlas_spec(s, font_size);
    let keys = atlas_sizes(s.atlases);
    let key = quantized(font_size) as u64;
    if s1.atlases.len() > s.atlases.len() {
        let keys1 = atlas_sizes(s1.atlases);
        assert forall|j: int| 0 <= j < s.atlases.len() implies keys1[j] != key by {
            assert(keys[j] == keys1[j]);
        }
        lemma_position_of(keys1, key, s.atlases.len() as int);
    }
}

/// Whether a table and each of its sets have room for one more member.
pub open spec fn sets_have_room(sets: Seq<FontAtlasSetView>) -> bool {
    &&& sets.len() < usize::MAX
    &&& forall|k: int| 0 <= k < sets.len() ==> (#[trigger] sets[k]).atlases.len() < usize::MAX
}

/// Populating a second time with the same font, size and text leaves the
/// table of sets exactly as the first time left it: no set, no atlas and
/// no glyph is added, and no placeholder is reported.
pub proof fn lemma_populate_settled(
    sets: Seq<FontAtlasSetView>,
    handle: Handle,
    font: Seq<FontGlyphView>,
    font_size: u32,
    text: Seq<char>,
)
    requires
        sets_have_room(sets),
    ensures
        populate_spec(
            populate_spec(sets, handle, font, font_size, text).0,
            handle,
            font,
            font_size,
            text,
        ) == (
            populate_spec(sets, handle, font, font_size, text).0,
            match populate_spec(sets, handle, font, font_size, text).1 {
                Ok(_) => Ok::<Seq<char>, AtlasError>(Seq::empty()),
                Err(e) => Err(e),
            },
        ),
{
    let q = quantized(font_size);
    let (s1, i) = get_or_create_spec(sets, handle);
    lemma_get_or_create_idempotent(sets, handle);
    lemma_position_found(set_handles(sets), handle.id);
    lemma_position_found(set_handles(s1), handle.id);
    let set = s1[i as int];
    if i < sets.len() {
        assert(set == sets[i as int]);
    }
    let (t1, j) = get_atlas_spec(set, font_size);
    lemma_get_atlas_shared(set, font_size, font_size);
    lemma_position_found(atlas_sizes(set.atlases), q as u64);
    lemma_position_found(atlas_sizes(t1.atlases), q as u64);
    assert(atlas_sizes(t1.atlases)[j as int] == t1.atlases[j as int].font_size as u64);
    let (a, r) = ensure_spec(t1.atlases[j as int].atlas, font, q, text);
    lemma_ensure_idempotent(t1.atlases[j as int].atlas, font, q, text);
    let packed = FontAtlasView { font_size: q, atlas: a };
    let set2 = FontAtlasSetView { font: t1.font, atlases: t1.atlases.update(j as int, packed) };
    let s2 = s1.update(i as int, set2);
    assert(set_handles(s2) =~= set_handles(s1));
    assert(s2[i as int] == set2);
    assert(atlas_sizes(set2.atlases) =~= atlas_sizes(t1.atlases));
    assert(set2.atlases[j as int] == packed);
    assert(set2.atlases.update(j as int, packed) =~= set2.atlases);
    assert(s2.update(i as int, set2) =~= s2);
}

/// A second population step for the same label changes nothing: once a
/// label's glyphs are resident, the next frame reserves none and reports
/// no placeholder; a label that was skipped or refused is skipped or
/// refused in the same way.
pub proof fn lemma_population_step_settled(
    sets: Seq<FontAtlasSetView>,
    fonts: Seq<FontAssetView>,
    label: LabelView,
)
    requires
        sets_have_room(sets),
    ensures
        population_step(population_step(sets, fonts, label).0, fonts, label) == (
            population_step(sets, fonts, label).0,
            match population_step(sets, fonts, label).1 {
                PopulationOutcome::Populated { .. } => PopulationOutcome::Populated {
                    reserved: 0,
                    placeholders: 0,
                },
                other => other,
            },
        ),
{
    match crate::registry::loaded_font(fonts, label.font) {
        Some(glyphs) => {
            lemma_populate_settled(sets, label.font, glyphs, label.style.font_size, label.text);
        },
        None => {},
    }
}

} // verus!
