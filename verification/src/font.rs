//! The integer side of text rendering: the key glyphs are cached under,
//! where a new glyph goes in the atlas texture, which rows of the atlas
//! need uploading, and how a paragraph is cut into words for wrapping.

use vstd::prelude::*;
use vstd::utf8::*;
use vstd::string::StringSliceAdditionalSpecFns;
use crate::node::SFFontFamily;

verus! {

broadcast use {encode_utf8_valid_utf8, is_char_boundary_start_end_of_seq};

/// A rasterised glyph's identity in the cache: the character, its size
/// rounded to an even number of pixels, its weight and its family.
#[derive(Copy, Clone, Debug, PartialEq, Eq, Hash, PartialOrd, Ord)]
pub struct GlyphKey {
    pub c: char,
    pub size: u32,
    pub weight: u32,
    pub family: SFFontFamily,
}

// ---------------------------------------------------------------------
// The atlas.

/// The width and height of the square atlas texture, in pixels.
pub const ATLAS_SIZE: u32 = 2048;
/// The gap kept around every glyph in the atlas.
pub const PADDING: u32 = 2;

/// Where the next glyph goes in the atlas, filled shelf by shelf, and the
/// rows changed since they were last uploaded.
#[derive(Debug)]
pub struct ShelfPacker {
    cursor_x: u32,
    cursor_y: u32,
    row_height: u32,
    dirty: bool,
    dirty_rows: Option<(u32, u32)>,
}

/// The packer as plain values: cursor, height of the current shelf,
/// whether anything changed, and the changed rows.
pub struct PackerView {
    pub cursor_x: u32,
    pub cursor_y: u32,
    pub row_height: u32,
    pub dirty: bool,
    pub dirty_rows: Option<(u32, u32)>,
}

/// The cursor's row and the shelf stay inside the atlas.
pub open spec fn packer_wf(s: PackerView) -> bool {
    s.cursor_y <= ATLAS_SIZE && s.row_height <= ATLAS_SIZE
}

/// The smaller of two numbers.
pub open spec fn min_u32(a: u32, b: u32) -> u32 {
    if a <= b {
        a
    } else {
        b
    }
}

/// The larger of two numbers.
pub open spec fn max_u32(a: u32, b: u32) -> u32 {
    if a >= b {
        a
    } else {
        b
    }
}

/// The rows `y..y + h` (and one more) marked as changed, clamped to the
/// atlas and merged with the rows already marked.
pub open spec fn mark_rows_step(s: PackerView, y: u32, h: u32) -> PackerView {
    let lo = min_u32(y, ATLAS_SIZE);
    let hi = if y + h + 1 <= ATLAS_SIZE {
        (y + h + 1) as u32
    } else {
        ATLAS_SIZE
    };
    PackerView {
        dirty_rows: Some(
            match s.dirty_rows {
                Some((a, b)) => (min_u32(a, lo), max_u32(b, hi)),
                None => (lo, hi),
            },
        ),
        dirty: true,
        ..s
    }
}

/// Placing a `w` by `h` glyph: it goes at the cursor when it fits on the
/// current shelf, else at the start of a new shelf below; when it does
/// not fit below either, or is empty, it is refused and nothing changes.
/// A placed glyph moves the cursor past it, may raise the shelf, and
/// marks its rows as changed.
pub open spec fn place_step(s: PackerView, w: u32, h: u32) -> (PackerView, Option<(u32, u32)>) {
    if w == 0 || h == 0 {
        (s, None)
    } else {
        let wraps = s.cursor_x + w + PADDING > ATLAS_SIZE;
        let x = if wraps {
            PADDING
        } else {
            s.cursor_x
        };
        let y = if wraps {
            s.cursor_y + s.row_height + PADDING
        } else {
            s.cursor_y as int
        };
        let row = if wraps {
            0
        } else {
            s.row_height
        };
        if y + h + PADDING > ATLAS_SIZE {
            (s, None)
        } else {
            let placed = PackerView {
                cursor_x: (x + w + PADDING) as u32,
                cursor_y: y as u32,
                row_height: max_u32(row, h),
                ..s
            };
            (mark_rows_step(placed, y as u32, h), Some((x, y as u32)))
        }
    }
}

/// Taking the changed rows for upload: the range, when it is not empty,
/// and nothing is marked afterwards.
pub open spec fn take_rows_step(s: PackerView) -> (PackerView, Option<(u32, u32)>) {
    (
        PackerView { dirty: false, dirty_rows: None, ..s },
        match s.dirty_rows {
            Some((a, b)) => if b > a {
                Some((a, b))
            } else {
                None
            },
            None => None,
        },
    )
}

impl ShelfPacker {
    pub closed spec fn view(&self) -> PackerView {
        PackerView {
            cursor_x: self.cursor_x,
            cursor_y: self.cursor_y,
            row_height: self.row_height,
            dirty: self.dirty,
            dirty_rows: self.dirty_rows,
        }
    }

    /// An empty atlas: the cursor inside the top-left padding, and every
    /// row to upload.
    pub fn new() -> (p: ShelfPacker)
        ensures
            p@ == (PackerView {
                cursor_x: PADDING,
                cursor_y: PADDING,
                row_height: 0,
                dirty: true,
                dirty_rows: Some((0u32, ATLAS_SIZE)),
            }),
            packer_wf(p@),
    {
        ShelfPacker {
            cursor_x: PADDING,
            cursor_y: PADDING,
            row_height: 0,
            dirty: true,
            dirty_rows: Some((0, ATLAS_SIZE)),
        }
    }

    /// Marks rows `y..y + h` (and one more) as changed.
    pub fn mark_rows(&mut self, y: u32, h: u32)
        ensures
            final(self)@ == mark_rows_step(old(self)@, y, h),
    {
        let lo = if y <= ATLAS_SIZE {
            y
        } else {
            ATLAS_SIZE
        };
        let hi = if (y as u64) + (h as u64) + 1 <= ATLAS_SIZE as u64 {
            y + h + 1
        } else {
            ATLAS_SIZE
        };
        self.dirty_rows = Some(
            match self.dirty_rows {
                Some((a, b)) => (
                    if a <= lo {
                        a
                    } else {
                        lo
                    },
                    if b >= hi {
                        b
                    } else {
                        hi
                    },
                ),
                None => (lo, hi),
            },
        );
        self.dirty = true;
    }

    /// Finds room for a `w` by `h` glyph and returns its top-left corner,
    /// or `None` when the atlas is full.
    pub fn place(&mut self, w: u32, h: u32) -> (at: Option<(u32, u32)>)
        requires
            packer_wf(old(self)@),
            old(self)@.cursor_x + w + PADDING <= u32::MAX,
            w + 2 * PADDING <= u32::MAX,
        ensures
            (final(self)@, at) == place_step(old(self)@, w, h),
            packer_wf(final(self)@),
    {
        if w == 0 || h == 0 {
            return None;
        }
        let wraps = (self.cursor_x as u64) + (w as u64) + (PADDING as u64) > ATLAS_SIZE as u64;
        let x: u32 = if wraps {
            PADDING
        } else {
            self.cursor_x
        };
        let y: u64 = if wraps {
            (self.cursor_y as u64) + (self.row_height as u64) + (PADDING as u64)
        } else {
            self.cursor_y as u64
        };
        let row: u32 = if wraps {
            0
        } else {
            self.row_height
        };
        if y + (h as u64) + (PADDING as u64) > ATLAS_SIZE as u64 {
            return None;
        }
        let y = y as u32;
        self.cursor_x = x + w + PADDING;
        self.cursor_y = y;
        self.row_height = if row >= h {
            row
        } else {
            h
        };
        self.mark_rows(y, h);
        Some((x, y))
    }

    /// The changed rows to upload, if any, which are then no longer marked.
    pub fn take_dirty_rows(&mut self) -> (rows: Option<(u32, u32)>)
        ensures
            (final(self)@, rows) == take_rows_step(old(self)@),
    {
        self.dirty = false;
        let rows = self.dirty_rows.take();
        match rows {
            Some((a, b)) => if b > a {
                Some((a, b))
            } else {
                None
            },
            None => None,
        }
    }
}

/// A placed glyph lies inside the atlas with its padding, and the cursor
/// ends up past it on the same shelf.
pub proof fn law_placed_glyphs_fit(s: PackerView, w: u32, h: u32)
    requires
        packer_wf(s),
        w + 2 * PADDING <= ATLAS_SIZE,
    ensures
        ({
            let (t, at) = place_step(s, w, h);
            &&& packer_wf(t)
            &&& at matches Some((x, y)) ==> x + w + PADDING <= ATLAS_SIZE && y + h + PADDING
                <= ATLAS_SIZE && t.cursor_x == x + w + PADDING && t.cursor_y == y && h
                <= t.row_height
            &&& at is None ==> t == s
        }),
{
}

/// Glyphs never overlap: the next glyph starts right of the last one on
/// its shelf, or on a new shelf below everything placed so far.
pub proof fn law_next_glyph_does_not_overlap(s: PackerView, w1: u32, h1: u32, w2: u32, h2: u32)
    requires
        packer_wf(s),
        w1 + 2 * PADDING <= ATLAS_SIZE,
    ensures
        ({
            let (t, first) = place_step(s, w1, h1);
            let (_, second) = place_step(t, w2, h2);
            first matches Some((x1, y1)) ==> second matches Some((x2, y2)) ==> (y2 == y1 && x2
                >= x1 + w1 + PADDING) || y2 >= y1 + h1 + PADDING
        }),
{
}

/// Whether the changed rows `rows` include every row of `lo..hi`.
pub open spec fn rows_cover(rows: Option<(u32, u32)>, lo: int, hi: int) -> bool {
    rows matches Some((a, b)) && a <= lo && hi <= b
}

/// Marking rows never forgets a change: the rows already marked stay
/// marked, and so do the new rows `y..y + h` and the one after them, as
/// far as they lie in the atlas.
pub proof fn law_marked_rows_only_grow(s: PackerView, y: u32, h: u32)
    ensures
        ({
            let t = mark_rows_step(s, y, h);
            let lo = if y <= ATLAS_SIZE { y as int } else { ATLAS_SIZE as int };
            let hi = if y + h + 1 <= ATLAS_SIZE { y + h + 1 } else { ATLAS_SIZE as int };
            &&& t.dirty
            &&& rows_cover(t.dirty_rows, lo, hi)
            &&& s.dirty_rows matches Some((a, b)) ==> rows_cover(t.dirty_rows, a as int, b as int)
            &&& t.cursor_x == s.cursor_x && t.cursor_y == s.cursor_y && t.row_height == s.row_height
        }),
{
}

/// A placed glyph's rows are marked for upload, and so is everything
/// marked before: nothing waiting to be uploaded is lost by placing.
pub proof fn law_placed_glyph_is_uploaded(s: PackerView, w: u32, h: u32)
    requires
        packer_wf(s),
    ensures
        ({
            let (t, at) = place_step(s, w, h);
            &&& at matches Some((x, y)) ==> rows_cover(t.dirty_rows, y as int, y + h)
            &&& at matches Some((x, y)) ==> (s.dirty_rows matches Some((a, b)) ==> rows_cover(
                t.dirty_rows,
                a as int,
                b as int,
            ))
        }),
{
}

/// Every glyph placed since the last upload is inside the range the next
/// upload takes: two placements in a row both land in it.
pub proof fn law_upload_covers_every_placed_glyph(s: PackerView, w1: u32, h1: u32, w2: u32, h2: u32)
    requires
        packer_wf(s),
        w1 + 2 * PADDING <= ATLAS_SIZE,
    ensures
        ({
            let (t1, first) = place_step(s, w1, h1);
            let (t2, second) = place_step(t1, w2, h2);
            let (_, rows) = take_rows_step(t2);
            &&& first matches Some((x1, y1)) ==> rows_cover(rows, y1 as int, y1 + h1)
            &&& second matches Some((x2, y2)) ==> rows_cover(rows, y2 as int, y2 + h2)
        }),
{
}

// ---------------------------------------------------------------------
// Cutting a paragraph into words.

/// The number of spaces `b` starts with.
pub open spec fn leading_spaces(b: Seq<u8>) -> nat
    decreases b.len(),
{
    if b.len() > 0 && b[0] == 32u8 {
        1 + leading_spaces(b.drop_first())
    } else {
        0
    }
}

/// The number of bytes `b` starts with before its first space.
pub open spec fn leading_word(b: Seq<u8>) -> nat
    decreases b.len(),
{
    if b.len() > 0 && b[0] != 32u8 {
        1 + leading_word(b.drop_first())
    } else {
        0
    }
}

proof fn lemma_leading_spaces(b: Seq<u8>, k: int)
    requires
        0 <= k <= b.len(),
        forall|j: int| 0 <= j < k ==> #[trigger] b[j] == 32u8,
        k == b.len() || b[k] != 32u8,
    ensures
        leading_spaces(b) == k,
    decreases k,
{
    if k > 0 {
        assert forall|j: int| 0 <= j < k - 1 implies #[trigger] b.drop_first()[j] == 32u8 by {
            assert(b.drop_first()[j] == b[j + 1]);
        }
        if k < b.len() {
            assert(b.drop_first()[k - 1] == b[k]);
        }
        lemma_leading_spaces(b.drop_first(), k - 1);
    }
}

proof fn lemma_leading_word(b: Seq<u8>, k: int)
    requires
        0 <= k <= b.len(),
        forall|j: int| 0 <= j < k ==> #[trigger] b[j] != 32u8,
        k == b.len() || b[k] == 32u8,
    ensures
        leading_word(b) == k,
    decreases k,
{
    if k > 0 {
        assert forall|j: int| 0 <= j < k - 1 implies #[trigger] b.drop_first()[j] != 32u8 by {
            assert(b.drop_first()[j] == b[j + 1]);
        }
        if k < b.len() {
            assert(b.drop_first()[k - 1] == b[k]);
        }
        lemma_leading_word(b.drop_first(), k - 1);
    }
}

/// The length of the first run of `b`: its leading spaces and the word
/// after them.
pub open spec fn run_len(b: Seq<u8>) -> nat {
    leading_spaces(b) + leading_word(b.skip(leading_spaces(b) as int))
}

proof fn lemma_run_len_positive(b: Seq<u8>)
    requires
        b.len() > 0,
    ensures
        1 <= run_len(b) <= b.len(),
{
    lemma_leading_bounds(b);
    let k = leading_spaces(b) as int;
    lemma_leading_bounds(b.skip(k));
    if k == 0 {
        assert(b.skip(0) =~= b);
        assert(b[0] != 32u8);
    }
}

proof fn lemma_leading_bounds(b: Seq<u8>)
    ensures
        leading_spaces(b) <= b.len(),
        leading_word(b) <= b.len(),
        b.len() > 0 && b[0] == 32u8 ==> leading_spaces(b) >= 1,
        b.len() > 0 && b[0] != 32u8 ==> leading_word(b) >= 1,
    decreases b.len(),
{
    if b.len() > 0 {
        lemma_leading_bounds(b.drop_first());
    }
}

/// `b` cut into runs, each some spaces and the word after them; together
/// they are `b`.
pub open spec fn runs_of(b: Seq<u8>) -> Seq<Seq<u8>>
    decreases b.len(),
{
    if b.len() == 0 {
        seq![]
    } else {
        let k = run_len(b) as int;
        if 1 <= k <= b.len() {
            seq![b.take(k)] + runs_of(b.skip(k))
        } else {
            seq![b]
        }
    }
}

/// The bytes of a list of string slices.
pub open spec fn bytes_views(v: Seq<&str>) -> Seq<Seq<u8>> {
    v.map_values(|s: &str| s.spec_bytes())
}

/// The runs of `paragraph`, each its leading spaces and the word after
/// them, so that wrapping can keep the spaces with the word they precede.
pub fn space_runs(paragraph: &str) -> (chunks: Vec<&str>)
    ensures
        bytes_views(chunks@) == runs_of(paragraph.spec_bytes()),
{
    let mut chunks: Vec<&str> = Vec::new();
    let mut rest: &str = paragraph;
    proof {
        assert(bytes_views(chunks@) + runs_of(rest.spec_bytes()) =~= runs_of(paragraph.spec_bytes()));
    }
    while rest.as_bytes().len() > 0
        invariant
            bytes_views(chunks@) + runs_of(rest.spec_bytes()) == runs_of(paragraph.spec_bytes()),
        decreases rest.spec_bytes().len(),
    {
        let b = rest.as_bytes();
        let n = b.len();
        let mut i: usize = 0;
        while i < n && b[i] == 32
            invariant
                n == b@.len(),
                b@ == rest.spec_bytes(),
                i <= n,
                forall|j: int| 0 <= j < i ==> #[trigger] b@[j] == 32u8,
            decreases n - i,
        {
            i = i + 1;
        }
        let spaces = i;
        while i < n && b[i] != 32
            invariant
                n == b@.len(),
                b@ == rest.spec_bytes(),
                spaces <= i <= n,
                forall|j: int| spaces <= j < i ==> #[trigger] b@[j] != 32u8,
            decreases n - i,
        {
            i = i + 1;
        }
        proof {
            lemma_leading_spaces(b@, spaces as int);
            let tail = b@.skip(spaces as int);
            assert forall|j: int| 0 <= j < i - spaces implies #[trigger] tail[j] != 32u8 by {
                assert(tail[j] == b@[spaces + j]);
            }
            if i < n {
                assert(tail[i - spaces] == b@[i as int]);
            }
            lemma_leading_word(tail, i - spaces);
            lemma_run_len_positive(b@);
            if i < n {
                assert(b@[i as int] == 32u8);
                assert(!is_continuation_byte(b@[i as int]));
                is_char_boundary_iff_not_is_continuation_byte(b@, i as int);
            }
        }
        let (chunk, tail) = rest.split_at(i);
        let ghost prev = chunks@;
        chunks.push(chunk);
        proof {
            assert(bytes_views(chunks@) =~= bytes_views(prev).push(chunk.spec_bytes()));
            assert(runs_of(b@) =~= seq![b@.take(i as int)] + runs_of(b@.skip(i as int)));
            assert(chunk.spec_bytes() =~= b@.take(i as int));
            assert(tail.spec_bytes() =~= b@.skip(i as int));
            assert(bytes_views(chunks@) + runs_of(tail.spec_bytes()) =~= bytes_views(prev) + runs_of(
                b@,
            ));
        }
        rest = tail;
    }
    proof {
        assert(runs_of(rest.spec_bytes()) =~= Seq::<Seq<u8>>::empty());
        assert(bytes_views(chunks@) =~= runs_of(paragraph.spec_bytes()));
    }
    chunks
}

/// The byte strings of `rs` put end to end.
pub open spec fn concat_all(rs: Seq<Seq<u8>>) -> Seq<u8>
    decreases rs.len(),
{
    if rs.len() == 0 {
        seq![]
    } else {
        rs[0] + concat_all(rs.drop_first())
    }
}

/// Cutting into runs loses nothing and adds nothing: the runs, put back
/// together, are the paragraph, and none of them is empty.
pub proof fn law_runs_rebuild_the_paragraph(b: Seq<u8>)
    ensures
        concat_all(runs_of(b)) == b,
        forall|i: int| 0 <= i < runs_of(b).len() ==> (#[trigger] runs_of(b)[i]).len() > 0,
    decreases b.len(),
{
    if b.len() > 0 {
        lemma_run_len_positive(b);
        let k = run_len(b) as int;
        law_runs_rebuild_the_paragraph(b.skip(k));
        let rs = runs_of(b);
        let tail = runs_of(b.skip(k));
        assert(rs =~= seq![b.take(k)] + tail);
        assert(rs.drop_first() =~= tail);
        assert(b.take(k) + b.skip(k) =~= b);
        assert forall|i: int| 0 <= i < rs.len() implies (#[trigger] rs[i]).len() > 0 by {
            if i > 0 {
                assert(rs[i] == tail[i - 1]);
            }
        }
    } else {
        assert(runs_of(b) =~= Seq::<Seq<u8>>::empty());
        assert(b =~= Seq::<u8>::empty());
    }
}

} // verus!
