use vstd::prelude::*;

use unicode_segmentation::UnicodeSegmentation;

verus! {

/// The byte offsets at which the extended grapheme clusters of a text start.
pub uninterp spec fn grapheme_starts_of(text: Seq<char>) -> Seq<usize>;

/// Calls `UnicodeSegmentation::grapheme_indices` with extended clusters and
/// keeps each cluster's byte offset; the contract claims the offsets are a
/// function of the text, named [`grapheme_starts_of`], and that (as each
/// cluster runs from one boundary to the next, from the start of the text to
/// its end) there are none for an empty text, otherwise the first is 0, they
/// strictly increase, and there are no more of them than characters.
#[verifier::external_body]
fn grapheme_starts(text: &str) -> (r: Vec<usize>)
    ensures
        r@ == grapheme_starts_of(text@),
        r@.len() == 0 <==> text@.len() == 0,
        r@.len() > 0 ==> r@[0] == 0,
        r@.len() <= text@.len(),
        forall|i: int, j: int| 0 <= i < j < r@.len() ==> r@[i] < r@[j],
{
    text.grapheme_indices(true).map(|(offset, _)| offset).collect()
}

/// How many of the offsets, taken from `cluster_start`, lie before `cursor`.
pub open spec fn count_before(offsets: Seq<usize>, cluster_start: int, cursor: int) -> nat
    decreases offsets.len(),
{
    if offsets.len() == 0 {
        0
    } else {
        count_before(offsets.drop_last(), cluster_start, cursor) + if cluster_start + offsets.last()
            < cursor {
            1nat
        } else {
            0nat
        }
    }
}

proof fn lemma_count_before_bounded(offsets: Seq<usize>, cluster_start: int, cursor: int)
    ensures
        count_before(offsets, cluster_start, cursor) <= offsets.len(),
    decreases offsets.len(),
{
    if offsets.len() > 0 {
        lemma_count_before_bounded(offsets.drop_last(), cluster_start, cursor);
    }
}

/// For a cursor at byte `cursor_index` and a glyph's cluster of text that
/// starts at byte `cluster_start`: the number of grapheme clusters of the
/// text that start before the cursor, and the number of grapheme clusters in
/// all.
pub fn graphemes_before_cursor(cluster: &str, cluster_start: usize, cursor_index: usize) -> (r: (usize, usize))
    ensures
        r.1 == grapheme_starts_of(cluster@).len(),
        r.0 == count_before(grapheme_starts_of(cluster@), cluster_start as int, cursor_index as int),
        r.0 <= r.1,
        r.1 == 0 <==> cluster@.len() == 0,
{
    let starts = grapheme_starts(cluster);
    let mut before: usize = 0;
    let mut i: usize = 0;
    while i < starts.len()
        invariant
            0 <= i <= starts.len(),
            before == count_before(starts@.take(i as int), cluster_start as int, cursor_index as int),
        decreases starts.len() - i,
    {
        proof {
            assert(starts@.take(i + 1).drop_last() == starts@.take(i as int));
            lemma_count_before_bounded(starts@.take(i as int), cluster_start as int, cursor_index as int);
        }
        if cursor_index >= cluster_start && starts[i] < cursor_index - cluster_start {
            before = before + 1;
        }
        i = i + 1;
    }
    proof {
        assert(starts@.take(i as int) == starts@);
        lemma_count_before_bounded(starts@, cluster_start as int, cursor_index as int);
    }
    (before, starts.len())
}

/// Where a cursor stands among the glyphs of a line.
#[derive(Clone, Copy, Debug, PartialEq, Eq, Structural)]
pub enum CursorPlacement {
    /// At the start of the glyph with this index.
    GlyphStart(usize),
    /// Inside the cluster of the glyph with this index, past its start.
    InsideGlyph(usize),
    /// After the glyphs of the line; the index is their number.
    LineEnd(usize),
}

/// The cursor at byte `cursor` stands at the start of, or inside, the glyph
/// whose cluster spans the bytes `range.0..range.1`.
pub open spec fn cursor_in_glyph(range: (usize, usize), cursor: int) -> bool {
    cursor == range.0 || (range.0 < cursor && cursor < range.1)
}

/// Places a cursor at byte `cursor_index` among the glyphs of a line, given
/// the byte range of each glyph's cluster in order: the first glyph that it
/// stands at the start of or inside, else the end of the line when it stands
/// at the end of the last glyph or the line has no glyph, else nowhere.
pub fn place_cursor(glyph_ranges: &Vec<(usize, usize)>, cursor_index: usize) -> (r: Option<CursorPlacement>)
    ensures
        match r {
            Some(CursorPlacement::GlyphStart(i)) => {
                &&& i < glyph_ranges.len()
                &&& cursor_index == glyph_ranges[i as int].0
                &&& forall|j: int| 0 <= j < i ==> !cursor_in_glyph(#[trigger] glyph_ranges[j], cursor_index as int)
            },
            Some(CursorPlacement::InsideGlyph(i)) => {
                &&& i < glyph_ranges.len()
                &&& glyph_ranges[i as int].0 < cursor_index < glyph_ranges[i as int].1
                &&& forall|j: int| 0 <= j < i ==> !cursor_in_glyph(#[trigger] glyph_ranges[j], cursor_index as int)
            },
            Some(CursorPlacement::LineEnd(n)) => {
                &&& n == glyph_ranges.len()
                &&& forall|j: int|
                    0 <= j < glyph_ranges.len() ==> !cursor_in_glyph(#[trigger] glyph_ranges[j], cursor_index as int)
                &&& (n == 0 || cursor_index == glyph_ranges[n - 1].1)
            },
            None => {
                &&& glyph_ranges.len() > 0
                &&& cursor_index != glyph_ranges[glyph_ranges.len() - 1].1
                &&& forall|j: int|
                    0 <= j < glyph_ranges.len() ==> !cursor_in_glyph(#[trigger] glyph_ranges[j], cursor_index as int)
            },
        },
{
    let mut i: usize = 0;
    while i < glyph_ranges.len()
        invariant
            0 <= i <= glyph_ranges.len(),
            forall|j: int| 0 <= j < i ==> !cursor_in_glyph(#[trigger] glyph_ranges[j], cursor_index as int),
        decreases glyph_ranges.len() - i,
    {
        let (start, end) = glyph_ranges[i];
        if cursor_index == start {
            return Some(CursorPlacement::GlyphStart(i));
        } else if cursor_index > start && cursor_index < end {
            return Some(CursorPlacement::InsideGlyph(i));
        }
        i = i + 1;
    }
    let n = glyph_ranges.len();
    if n == 0 {
        Some(CursorPlacement::LineEnd(0))
    } else if cursor_index == glyph_ranges[n - 1].1 {
        Some(CursorPlacement::LineEnd(n))
    } else {
        None
    }
}

} // verus!
