//! The texture atlas: one pixel grid, packed shelf by shelf, and the list of
//! glyph rectangles that were placed in it.

use crate::laws::lemma_reserve_monotone;
use vstd::prelude::*;

verus! {

/// The largest width or height, in pixels, that an atlas may grow to.
pub const MAX_ATLAS_DIM: u32 = 8192;

/// An axis-aligned rectangle of atlas pixels.
#[derive(Clone, Copy, Debug, PartialEq, Eq, Structural)]
pub struct Rect {
    pub x: u32,
    pub y: u32,
    pub width: u32,
    pub height: u32,
}

/// The packer's cursor: the left edge of the free part of the current shelf,
/// the shelf's top, and the height of the tallest glyph on it.
#[derive(Clone, Copy, Debug, PartialEq, Eq, Structural)]
pub struct Shelf {
    pub x: u32,
    pub y: u32,
    pub height: u32,
}

/// One packed glyph: who it is, where it lies, how far the cursor moves
/// after it, and whether it stands in for a glyph that the font lacks.
#[derive(Clone, Copy, Debug, PartialEq, Eq, Structural)]
pub struct GlyphEntry {
    pub glyph_id: u32,
    pub rect: Rect,
    pub advance: u32,
    pub placeholder: bool,
}

/// Why a reservation or a growth step was refused.
#[derive(Clone, Copy, Debug, PartialEq, Eq, Structural)]
pub enum AtlasError {
    /// The bitmap fits at no size that the atlas may grow to.
    AtlasFull,
    /// The requested growth is by a factor of zero or passes the size limit.
    GrowthFailed,
    /// A width or height of zero, or one above the size limit.
    InvalidSize,
}

/// A rasterized glyph: coverage values row by row, and its advance width.
#[derive(Debug)]
pub struct GlyphBitmap {
    width: u32,
    height: u32,
    advance: u32,
    placeholder: bool,
    rows: Vec<Vec<u8>>,
}

/// The mathematical content of a `GlyphBitmap`.
pub struct BitmapView {
    pub width: u32,
    pub height: u32,
    pub advance: u32,
    pub placeholder: bool,
    pub pixels: Seq<Seq<u8>>,
}

/// The mathematical content of a `TextureAtlas`.
pub struct AtlasView {
    pub width: u32,
    pub height: u32,
    pub pixels: Seq<Seq<u8>>,
    pub entries: Seq<GlyphEntry>,
    pub shelf: Shelf,
}

/// Whether `pixels` is a grid of `height` rows of `width` values each.
pub open spec fn is_grid(pixels: Seq<Seq<u8>>, width: int, height: int) -> bool {
    &&& pixels.len() == height
    &&& forall|y: int| 0 <= y < height ==> (#[trigger] pixels[y]).len() == width
}

/// The grid that a vector of rows stands for.
pub open spec fn grid_of(rows: Seq<Vec<u8>>) -> Seq<Seq<u8>> {
    Seq::new(rows.len(), |y: int| rows[y]@)
}

/// A grid of the given size with every value equal to `value`.
pub open spec fn filled_grid(width: int, height: int, value: u8) -> Seq<Seq<u8>> {
    Seq::new(height as nat, |y: int| Seq::new(width as nat, |x: int| value))
}

/// Whether the pixel `(x, y)` lies inside `rect`.
pub open spec fn rect_contains(rect: Rect, x: int, y: int) -> bool {
    &&& rect.x <= x < rect.x + rect.width
    &&& rect.y <= y < rect.y + rect.height
}

/// Whether two rectangles share no pixel.
pub open spec fn rects_disjoint(a: Rect, b: Rect) -> bool {
    forall|x: int, y: int| !(rect_contains(a, x, y) && rect_contains(b, x, y))
}

/// The grid of size `width` by `height` that keeps every pixel of `pixels`
/// at its place and is zero elsewhere.
pub open spec fn resized(pixels: Seq<Seq<u8>>, width: int, height: int) -> Seq<Seq<u8>> {
    Seq::new(
        height as nat,
        |y: int|
            Seq::new(
                width as nat,
                |x: int|
                    if y < pixels.len() && x < pixels[y].len() {
                        pixels[y][x]
                    } else {
                        0u8
                    },
            ),
    )
}

/// The grid `pixels` with `bitmap` copied over the rectangle `rect`.
pub open spec fn blitted(pixels: Seq<Seq<u8>>, rect: Rect, bitmap: Seq<Seq<u8>>) -> Seq<Seq<u8>> {
    Seq::new(
        pixels.len(),
        |y: int|
            Seq::new(
                pixels[y].len(),
                |x: int|
                    if rect_contains(rect, x, y) {
                        bitmap[y - rect.y][x - rect.x]
                    } else {
                        pixels[y][x]
                    },
            ),
    )
}

/// The index of the first entry with the given glyph id, if there is one.
pub open spec fn find_entry(entries: Seq<GlyphEntry>, glyph_id: u32) -> Option<usize>
    decreases entries.len(),
{
    if entries.len() == 0 {
        None
    } else {
        match find_entry(entries.drop_last(), glyph_id) {
            Some(i) => Some(i),
            None => if entries.last().glyph_id == glyph_id {
                Some((entries.len() - 1) as usize)
            } else {
                None
            },
        }
    }
}

/// Whether `before` is the beginning of `after`: every rectangle id of
/// `before` names the same entry in `after`.
pub open spec fn entries_kept(before: Seq<GlyphEntry>, after: Seq<GlyphEntry>) -> bool {
    &&& before.len() <= after.len()
    &&& forall|i: int| 0 <= i < before.len() ==> after[i] == before[i]
}

/// Where the shelf packer puts a bitmap of `bw` by `bh` pixels in an atlas
/// of `width` by `height`: on the current shelf if it fits there, else at
/// the start of a new shelf below it, else nowhere. With the rectangle comes
/// the cursor after the placement.
pub open spec fn place(shelf: Shelf, width: int, height: int, bw: u32, bh: u32) -> Option<
    (Rect, Shelf),
> {
    if shelf.x + bw <= width && shelf.y + bh <= height {
        Some(
            (
                Rect { x: shelf.x, y: shelf.y, width: bw, height: bh },
                Shelf {
                    x: (shelf.x + bw) as u32,
                    y: shelf.y,
                    height: if shelf.height >= bh {
                        shelf.height
                    } else {
                        bh
                    },
                },
            ),
        )
    } else if bw <= width && shelf.y + shelf.height + bh <= height {
        Some(
            (
                Rect { x: 0, y: (shelf.y + shelf.height) as u32, width: bw, height: bh },
                Shelf { x: bw, y: (shelf.y + shelf.height) as u32, height: bh },
            ),
        )
    } else {
        None
    }
}

/// The smallest size, reached from `width` by `height` by doubling both,
/// at which the packer finds a place for the bitmap; `None` where even the
/// largest size allowed has none.
pub open spec fn fitting_size(shelf: Shelf, width: int, height: int, bw: u32, bh: u32) -> Option<
    (u32, u32),
>
    decreases MAX_ATLAS_DIM - width,
{
    if place(shelf, width, height, bw, bh) is Some {
        Some((width as u32, height as u32))
    } else if 1 <= width && 2 * width <= MAX_ATLAS_DIM && 2 * height <= MAX_ATLAS_DIM {
        fitting_size(shelf, 2 * width, 2 * height, bw, bh)
    } else {
        None
    }
}

/// What `reserve` does to an atlas and what it answers.
pub open spec fn reserve_spec(a: AtlasView, glyph_id: u32, b: BitmapView) -> (
    AtlasView,
    Result<usize, AtlasError>,
) {
    match find_entry(a.entries, glyph_id) {
        Some(i) => (a, Ok(i)),
        None => match fitting_size(a.shelf, a.width as int, a.height as int, b.width, b.height) {
            None => (a, Err(AtlasError::AtlasFull)),
            Some((w, h)) => {
                let (rect, shelf) = place(a.shelf, w as int, h as int, b.width, b.height)->0;
                (
                    AtlasView {
                        width: w,
                        height: h,
                        pixels: blitted(resized(a.pixels, w as int, h as int), rect, b.pixels),
                        entries: a.entries.push(
                            GlyphEntry {
                                glyph_id,
                                rect,
                                advance: b.advance,
                                placeholder: b.placeholder,
                            },
                        ),
                        shelf,
                    },
                    Ok(a.entries.len() as usize),
                )
            },
        },
    }
}

/// What `grow` does to an atlas and what it answers.
pub open spec fn grow_spec(a: AtlasView, factor: u32) -> (AtlasView, Result<(), AtlasError>) {
    if factor >= 1 && a.width * factor <= MAX_ATLAS_DIM && a.height * factor <= MAX_ATLAS_DIM {
        (
            AtlasView {
                width: (a.width * factor) as u32,
                height: (a.height * factor) as u32,
                pixels: resized(a.pixels, a.width * factor, a.height * factor),
                entries: a.entries,
                shelf: a.shelf,
            },
            Ok(()),
        )
    } else {
        (a, Err(AtlasError::GrowthFailed))
    }
}

/// Whether an atlas value is one that the packer can have produced: a pixel
/// grid of the stated size, every rectangle inside it and on or above the
/// current shelf, rectangles in order of placement never overlapping, and
/// no glyph id twice.
pub open spec fn atlas_wf(a: AtlasView) -> bool {
    &&& 1 <= a.width <= MAX_ATLAS_DIM
    &&& 1 <= a.height <= MAX_ATLAS_DIM
    &&& is_grid(a.pixels, a.width as int, a.height as int)
    &&& a.shelf.x <= a.width
    &&& a.shelf.y + a.shelf.height <= a.height
    &&& a.entries.len() <= usize::MAX
    &&& forall|i: int|
        0 <= i < a.entries.len() ==> {
            let r = (#[trigger] a.entries[i]).rect;
            &&& r.x + r.width <= a.width
            &&& (r.y + r.height <= a.shelf.y || (r.y == a.shelf.y && r.x + r.width <= a.shelf.x
                && r.height <= a.shelf.height))
        }
    &&& forall|i: int, j: int|
        0 <= i < j < a.entries.len() ==> {
            let r = (#[trigger] a.entries[i]).rect;
            let s = (#[trigger] a.entries[j]).rect;
            r.y + r.height <= s.y || (r.y == s.y && r.x + r.width <= s.x)
        }
    &&& forall|i: int, j: int|
        0 <= i < j < a.entries.len() ==> (#[trigger] a.entries[i]).glyph_id != (
        #[trigger] a.entries[j]).glyph_id
}

impl GlyphBitmap {
    /// The bitmap as plain mathematical values.
    pub closed spec fn view(&self) -> BitmapView {
        BitmapView {
            width: self.width,
            height: self.height,
            advance: self.advance,
            placeholder: self.placeholder,
            pixels: grid_of(self.rows@),
        }
    }

    /// The rows form a grid of the stated size.
    pub open spec fn wf(&self) -> bool {
        is_grid(self@.pixels, self@.width as int, self@.height as int)
    }

    /// A bitmap made of the given rows, each `width` pixels long; `None`
    /// exactly when the rows are too many to count or one has another length.
    pub fn from_rows(width: u32, rows: Vec<Vec<u8>>, advance: u32) -> (res: Option<Self>)
        ensures
            match res {
                Some(b) => {
                    &&& b.wf()
                    &&& b@ == (BitmapView {
                        width,
                        height: rows.len() as u32,
                        advance,
                        placeholder: false,
                        pixels: grid_of(rows@),
                    })
                    &&& rows.len() <= u32::MAX
                },
                None => !(rows.len() <= u32::MAX && is_grid(
                    grid_of(rows@),
                    width as int,
                    rows.len() as int,
                )),
            },
    {
        if rows.len() > u32::MAX as usize {
            return None;
        }
        let mut y: usize = 0;
        while y < rows.len()
            invariant
                y <= rows.len(),
                forall|k: int| 0 <= k < y ==> (#[trigger] grid_of(rows@)[k]).len() == width,
            decreases rows.len() - y,
        {
            if rows[y].len() != width as usize {
                assert(grid_of(rows@)[y as int].len() != width);
                return None;
            }
            y += 1;
        }
        let height: u32 = rows.len() as u32;
        Some(GlyphBitmap { width, height, advance, placeholder: false, rows })
    }

    /// The width in pixels.
    pub fn width(&self) -> (w: u32)
        ensures
            w == self@.width,
    {
        self.width
    }

    /// The height in pixels.
    pub fn height(&self) -> (h: u32)
        ensures
            h == self@.height,
    {
        self.height
    }

    /// How far the cursor moves after this glyph.
    pub fn advance(&self) -> (a: u32)
        ensures
            a == self@.advance,
    {
        self.advance
    }

    /// A glyph bitmap of the given size with every pixel set to `value`.
    pub fn filled(width: u32, height: u32, advance: u32, value: u8) -> (b: Self)
        ensures
            b.wf(),
            b@ == (BitmapView {
                width,
                height,
                advance,
                placeholder: false,
                pixels: filled_grid(width as int, height as int, value),
            }),
    {
        Self::solid(width, height, advance, value, false)
    }

    /// A bitmap of the given size with every pixel set to `value`, marked
    /// as a placeholder or not.
    pub(crate) fn solid(width: u32, height: u32, advance: u32, value: u8, placeholder: bool) -> (b:
        Self)
        ensures
            b.wf(),
            b@ == (BitmapView {
                width,
                height,
                advance,
                placeholder,
                pixels: filled_grid(width as int, height as int, value),
            }),
    {
        let mut rows: Vec<Vec<u8>> = Vec::new();
        let mut y: u32 = 0;
        while y < height
            invariant
                y <= height,
                rows.len() == y,
                forall|k: int| 0 <= k < y ==> (#[trigger] rows[k])@ == Seq::new(width as nat, |x: int| value),
            decreases height - y,
        {
            let mut row: Vec<u8> = Vec::new();
            let mut x: u32 = 0;
            while x < width
                invariant
                    x <= width,
                    row.len() == x,
                    forall|k: int| 0 <= k < x ==> row[k] == value,
                decreases width - x,
            {
                row.push(value);
                x += 1;
            }
            assert(row@ =~= Seq::new(width as nat, |x: int| value));
            rows.push(row);
            y += 1;
        }
        let b = GlyphBitmap { width, height, advance, placeholder, rows };
        assert(b@.pixels =~= filled_grid(width as int, height as int, value));
        b
    }
}

/// The pixel storage of an atlas together with its packed glyphs.
///
/// Rectangle ids are positions in the list of entries; the list only grows
/// at its end, so an id stays valid for good.
#[derive(Debug)]
pub struct TextureAtlas {
    width: u32,
    height: u32,
    rows: Vec<Vec<u8>>,
    entries: Vec<GlyphEntry>,
    shelf: Shelf,
}

/// What `find_entry` answers, said without recursion.
pub proof fn lemma_find_entry(entries: Seq<GlyphEntry>, glyph_id: u32)
    requires
        entries.len() <= usize::MAX,
    ensures
        match find_entry(entries, glyph_id) {
            Some(i) => {
                &&& i < entries.len()
                &&& entries[i as int].glyph_id == glyph_id
                &&& forall|j: int| 0 <= j < i ==> (#[trigger] entries[j]).glyph_id != glyph_id
            },
            None => forall|j: int|
                0 <= j < entries.len() ==> (#[trigger] entries[j]).glyph_id != glyph_id,
        },
    decreases entries.len(),
{
    if entries.len() > 0 {
        let front = entries.drop_last();
        lemma_find_entry(front, glyph_id);
        assert forall|j: int| 0 <= j < front.len() implies front[j] == entries[j] by {}
        match find_entry(front, glyph_id) {
            Some(i) => {
                assert(entries[i as int] == front[i as int]);
            },
            None => {
                assert forall|j: int| 0 <= j < front.len() implies (#[trigger] entries[j]).glyph_id
                    != glyph_id by {
                    assert(front[j].glyph_id != glyph_id);
                }
            },
        }
    }
}

/// An entry that is found stays found, at the same place, when the list
/// grows at its end.
pub proof fn lemma_find_entry_push(entries: Seq<GlyphEntry>, e: GlyphEntry, glyph_id: u32)
    ensures
        find_entry(entries, glyph_id) is Some ==> find_entry(entries.push(e), glyph_id)
            == find_entry(entries, glyph_id),
        find_entry(entries, glyph_id) is None && e.glyph_id == glyph_id ==> find_entry(
            entries.push(e),
            glyph_id,
        ) == Some(entries.len() as usize),
        find_entry(entries, glyph_id) is None && e.glyph_id != glyph_id ==> find_entry(
            entries.push(e),
            glyph_id,
        ) is None,
{
    assert(entries.push(e).drop_last() =~= entries);
}

/// Copies a grid into a new one of the given size, zero where the old one
/// had no pixel.
fn resize_rows(rows: &Vec<Vec<u8>>, width: u32, height: u32) -> (out: Vec<Vec<u8>>)
    ensures
        grid_of(out@) == resized(grid_of(rows@), width as int, height as int),
{
    let ghost src = grid_of(rows@);
    let mut out: Vec<Vec<u8>> = Vec::new();
    let mut y: usize = 0;
    while y < height as usize
        invariant
            y <= height,
            out.len() == y,
            src == grid_of(rows@),
            forall|k: int|
                0 <= k < y ==> (#[trigger] out[k])@ == resized(src, width as int, height as int)[k],
        decreases height - y,
    {
        let mut row: Vec<u8> = Vec::new();
        let mut x: usize = 0;
        while x < width as usize
            invariant
                x <= width,
                y < height,
                row.len() == x,
                src == grid_of(rows@),
                forall|k: int|
                    0 <= k < x ==> row[k] == resized(src, width as int, height as int)[y as int][k],
            decreases width - x,
        {
            let v: u8 = if y < rows.len() && x < rows[y].len() {
                rows[y][x]
            } else {
                0
            };
            row.push(v);
            x += 1;
        }
        assert(row@ =~= resized(src, width as int, height as int)[y as int]);
        out.push(row);
        y += 1;
    }
    assert(grid_of(out@) =~~= resized(src, width as int, height as int));
    out
}

/// Copies a bitmap over the rectangle `rect` of a grid of the given width.
fn blit_rows(rows: &mut Vec<Vec<u8>>, width: u32, rect: Rect, bitmap: &GlyphBitmap)
    requires
        is_grid(grid_of(old(rows)@), width as int, old(rows).len() as int),
        bitmap.wf(),
        bitmap.width == rect.width,
        bitmap.height == rect.height,
        rect.x + rect.width <= width,
        rect.y + rect.height <= old(rows).len(),
    ensures
        grid_of(final(rows)@) == blitted(grid_of(old(rows)@), rect, bitmap@.pixels),
{
    let ghost src = grid_of(rows@);
    let ghost want = blitted(src, rect, bitmap@.pixels);
    let mut r: usize = 0;
    while r < rect.height as usize
        invariant
            r <= rect.height,
            rows.len() == src.len(),
            is_grid(src, width as int, src.len() as int),
            want == blitted(src, rect, bitmap@.pixels),
            bitmap.wf(),
            bitmap.width == rect.width,
            bitmap.height == rect.height,
            rect.x + rect.width <= width,
            rect.y + rect.height <= src.len(),
            forall|k: int| 0 <= k < rect.y + r ==> (#[trigger] rows[k])@ == want[k],
            forall|k: int| rect.y + r <= k < rows.len() ==> (#[trigger] rows[k])@ == src[k],
        decreases rect.height - r,
    {
        let y: usize = rect.y as usize + r;
        assert(bitmap@.pixels[r as int] == bitmap.rows[r as int]@);
        assert(src[y as int].len() == width);
        let mut row: Vec<u8> = Vec::new();
        let mut x: usize = 0;
        while x < width as usize
            invariant
                x <= width,
                y == rect.y + r,
                r < rect.height,
                y < rows.len(),
                rows.len() == src.len(),
                rows[y as int]@ == src[y as int],
                src[y as int].len() == width,
                row.len() == x,
                bitmap.rows.len() == rect.height,
                bitmap.rows[r as int]@.len() == rect.width,
                bitmap@.pixels[r as int] == bitmap.rows[r as int]@,
                rect.x + rect.width <= width,
                want == blitted(src, rect, bitmap@.pixels),
                forall|k: int| 0 <= k < x ==> row[k] == want[y as int][k],
            decreases width - x,
        {
            let v: u8 = if rect.x as usize <= x && x - (rect.x as usize) < rect.width as usize {
                bitmap.rows[r][x - rect.x as usize]
            } else {
                rows[y][x]
            };
            row.push(v);
            x += 1;
        }
        assert(row@ =~= want[y as int]);
        rows.set(y, row);
        r += 1;
    }
    assert forall|k: int| 0 <= k < rows.len() implies (#[trigger] rows[k])@ == want[k] by {
        if k >= rect.y + rect.height {
            assert(rows[k]@ == src[k]);
            assert(want[k] =~= src[k]);
        }
    }
    assert(grid_of(rows@) =~~= want);
}

/// The packer's decision in executable form.
fn place_on_shelf(shelf: Shelf, width: u32, height: u32, bw: u32, bh: u32) -> (res: Option<
    (Rect, Shelf),
>)
    requires
        shelf.x <= width,
        shelf.y + shelf.height <= height,
    ensures
        res == place(shelf, width as int, height as int, bw, bh),
{
    if bw <= width - shelf.x && bh <= height - shelf.y {
        let tallest: u32 = if shelf.height >= bh {
            shelf.height
        } else {
            bh
        };
        Some(
            (
                Rect { x: shelf.x, y: shelf.y, width: bw, height: bh },
                Shelf { x: shelf.x + bw, y: shelf.y, height: tallest },
            ),
        )
    } else if bw <= width && bh <= height - (shelf.y + shelf.height) {
        let top: u32 = shelf.y + shelf.height;
        Some((Rect { x: 0, y: top, width: bw, height: bh }, Shelf { x: bw, y: top, height: bh }))
    } else {
        None
    }
}

impl TextureAtlas {
    /// The atlas as plain mathematical values.
    pub closed spec fn view(&self) -> AtlasView {
        AtlasView {
            width: self.width,
            height: self.height,
            pixels: grid_of(self.rows@),
            entries: self.entries@,
            shelf: self.shelf,
        }
    }

    /// The invariant of every atlas that this library hands out.
    pub open spec fn wf(&self) -> bool {
        atlas_wf(self@)
    }

    /// An empty atlas of the given size, all pixels zero. Refused with
    /// `InvalidSize` exactly when a side is zero or above `MAX_ATLAS_DIM`.
    pub fn new(width: u32, height: u32) -> (res: Result<Self, AtlasError>)
        ensures
            match res {
                Ok(a) => {
                    &&& a.wf()
                    &&& 1 <= width <= MAX_ATLAS_DIM
                    &&& 1 <= height <= MAX_ATLAS_DIM
                    &&& a@ == (AtlasView {
                        width,
                        height,
                        pixels: filled_grid(width as int, height as int, 0),
                        entries: Seq::empty(),
                        shelf: Shelf { x: 0, y: 0, height: 0 },
                    })
                },
                Err(e) => e == AtlasError::InvalidSize && !(1 <= width <= MAX_ATLAS_DIM && 1
                    <= height <= MAX_ATLAS_DIM),
            },
    {
        if width < 1 || width > MAX_ATLAS_DIM || height < 1 || height > MAX_ATLAS_DIM {
            return Err(AtlasError::InvalidSize);
        }
        let none: Vec<Vec<u8>> = Vec::new();
        let rows = resize_rows(&none, width, height);
        let a = TextureAtlas {
            width,
            height,
            rows,
            entries: Vec::new(),
            shelf: Shelf { x: 0, y: 0, height: 0 },
        };
        assert(a@.pixels =~~= filled_grid(width as int, height as int, 0));
        assert(a@.entries =~= Seq::empty());
        Ok(a)
    }

    /// The width of the pixel grid.
    pub fn width(&self) -> (w: u32)
        ensures
            w == self@.width,
    {
        self.width
    }

    /// The height of the pixel grid.
    pub fn height(&self) -> (h: u32)
        ensures
            h == self@.height,
    {
        self.height
    }

    /// The number of packed glyphs, which is also the next rectangle id.
    pub fn len(&self) -> (n: usize)
        ensures
            n == self@.entries.len(),
    {
        self.entries.len()
    }

    /// The pixel at `(x, y)`, or `None` outside the grid.
    pub fn pixel(&self, x: u32, y: u32) -> (p: Option<u8>)
        requires
            self.wf(),
        ensures
            p == if x < self@.width && y < self@.height {
                Some(self@.pixels[y as int][x as int])
            } else {
                None
            },
    {
        if x < self.width && y < self.height {
            assert(self@.pixels[y as int] == self.rows[y as int]@);
            Some(self.rows[y as usize][x as usize])
        } else {
            None
        }
    }

    /// The rectangle id under which a glyph is packed, if it is.
    pub fn find(&self, glyph_id: u32) -> (res: Option<usize>)
        ensures
            res == find_entry(self@.entries, glyph_id),
            res matches Some(i) ==> i < self@.entries.len() && self@.entries[i as int].glyph_id
                == glyph_id,
    {
        let mut i: usize = 0;
        while i < self.entries.len()
            invariant
                i <= self.entries.len(),
                forall|j: int| 0 <= j < i ==> (#[trigger] self.entries[j]).glyph_id != glyph_id,
            decreases self.entries.len() - i,
        {
            if self.entries[i].glyph_id == glyph_id {
                proof {
                    lemma_find_entry(self.entries@, glyph_id);
                }
                return Some(i);
            }
            i += 1;
        }
        proof {
            lemma_find_entry(self.entries@, glyph_id);
        }
        None
    }

    /// The entry stored under a rectangle id, if the id was ever handed out.
    pub fn entry(&self, rect_id: usize) -> (res: Option<GlyphEntry>)
        ensures
            res == if rect_id < self@.entries.len() {
                Some(self@.entries[rect_id as int])
            } else {
                None
            },
    {
        if rect_id < self.entries.len() {
            Some(self.entries[rect_id])
        } else {
            None
        }
    }

    /// The rectangle of a glyph, if it is packed. Changes nothing.
    pub fn rect_of(&self, glyph_id: u32) -> (res: Option<Rect>)
        ensures
            res == match find_entry(self@.entries, glyph_id) {
                Some(i) => Some(self@.entries[i as int].rect),
                None => None,
            },
    {
        match self.find(glyph_id) {
            Some(i) => Some(self.entries[i].rect),
            None => None,
        }
    }

    /// Multiplies both sides by `factor`, keeping every pixel and every
    /// rectangle where it was. Refused with `GrowthFailed`, and nothing
    /// changed, exactly when `factor` is zero or a side would pass
    /// `MAX_ATLAS_DIM`.
    pub fn grow(&mut self, factor: u32) -> (res: Result<(), AtlasError>)
        requires
            old(self).wf(),
        ensures
            final(self).wf(),
            (final(self)@, res) == grow_spec(old(self)@, factor),
    {
        if factor < 1 || factor > MAX_ATLAS_DIM {
            let ghost w0: int = self.width as int;
            assert(factor >= 1 ==> w0 * factor > MAX_ATLAS_DIM) by (nonlinear_arith)
                requires
                    factor < 1 || factor > MAX_ATLAS_DIM,
                    w0 >= 1,
            ;
            return Err(AtlasError::GrowthFailed);
        }
        assert(self.width * factor <= 0x4000000 && self.height * factor <= 0x4000000)
            by (nonlinear_arith)
            requires
                self.width <= 8192,
                self.height <= 8192,
                factor <= 8192,
        ;
        let w: u64 = self.width as u64 * factor as u64;
        let h: u64 = self.height as u64 * factor as u64;
        if w > MAX_ATLAS_DIM as u64 || h > MAX_ATLAS_DIM as u64 {
            return Err(AtlasError::GrowthFailed);
        }
        let ghost w0: int = self.width as int;
        let ghost h0: int = self.height as int;
        assert(w >= w0 && h >= h0) by (nonlinear_arith)
            requires
                w == w0 * factor,
                h == h0 * factor,
                w0 >= 0,
                h0 >= 0,
                factor >= 1,
        ;
        self.rows = resize_rows(&self.rows, w as u32, h as u32);
        self.width = w as u32;
        self.height = h as u32;
        Ok(())
    }

    /// Packs a glyph bitmap, or answers with the rectangle id it already
    /// has. A new glyph goes where the shelf packer puts it, in the smallest
    /// doubling of the atlas that has room; no rectangle packed before
    /// moves. Refused with `AtlasFull`, and nothing changed, exactly when
    /// the glyph is new and no allowed size has room for it.
    pub fn reserve(&mut self, glyph_id: u32, bitmap: &GlyphBitmap) -> (res: Result<
        usize,
        AtlasError,
    >)
        requires
            old(self).wf(),
            bitmap.wf(),
        ensures
            final(self).wf(),
            (final(self)@, res) == reserve_spec(old(self)@, glyph_id, bitmap@),
            entries_kept(old(self)@.entries, final(self)@.entries),
    {
        proof {
            lemma_reserve_monotone(self@, glyph_id, bitmap@, glyph_id);
        }
        if let Some(i) = self.find(glyph_id) {
            return Ok(i);
        }
        proof {
            lemma_find_entry(self.entries@, glyph_id);
        }
        let mut w: u32 = self.width;
        let mut h: u32 = self.height;
        loop
            invariant
                *self == *old(self),
                self.wf(),
                bitmap.wf(),
                self.width <= w <= MAX_ATLAS_DIM,
                self.height <= h <= MAX_ATLAS_DIM,
                find_entry(self@.entries, glyph_id) is None,
                forall|j: int|
                    0 <= j < self.entries.len() ==> (#[trigger] self.entries[j]).glyph_id
                        != glyph_id,
                fitting_size(self.shelf, w as int, h as int, bitmap.width, bitmap.height)
                    == fitting_size(
                    self.shelf,
                    self.width as int,
                    self.height as int,
                    bitmap.width,
                    bitmap.height,
                ),
            decreases MAX_ATLAS_DIM - w,
        {
            match place_on_shelf(self.shelf, w, h, bitmap.width, bitmap.height) {
                Some((rect, shelf)) => {
                    let id: usize = self.entries.len();
                    if w != self.width || h != self.height {
                        self.rows = resize_rows(&self.rows, w, h);
                    } else {
                        assert(grid_of(self.rows@) =~~= resized(
                            grid_of(self.rows@),
                            w as int,
                            h as int,
                        ));
                    }
                    self.width = w;
                    self.height = h;
                    assert(is_grid(grid_of(self.rows@), w as int, h as int));
                    assert(grid_of(self.rows@).len() == self.rows.len());
                    blit_rows(&mut self.rows, w, rect, bitmap);
                    self.entries.push(
                        GlyphEntry {
                            glyph_id,
                            rect,
                            advance: bitmap.advance,
                            placeholder: bitmap.placeholder,
                        },
                    );
                    self.shelf = shelf;
                    assert(self.entries.len() <= usize::MAX);
                    return Ok(id);
                },
                None => {
                    if w <= MAX_ATLAS_DIM / 2 && h <= MAX_ATLAS_DIM / 2 {
                        w = 2 * w;
                        h = 2 * h;
                    } else {
                        return Err(AtlasError::AtlasFull);
                    }
                },
            }
        }
    }
}

} // verus!
