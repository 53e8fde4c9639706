use vstd::prelude::*;

use crate::color::Color;
use crate::glyph_cache::CacheKeyFlags;
use crate::font_system::{face_matches, FaceRecord};
use crate::strings::{occurs_in, str_contains, str_eq};
use crate::spans::{
    covers, lemma_lookup_at, span_map_get, span_map_get_key_value, span_map_insert, span_map_new,
    span_map_remove, span_map_spans, spans_cover, spans_lookup, spans_wf, stored_spans, SpanView,
    lemma_spans_determined,
};

use std::ops::Range;

use rangemap::RangeMap;

verus! {

/// A font family: a family name or one of the generic families.
#[derive(Clone, Copy, Debug, Hash)]
pub enum Family {
    Name(&'static str),
    Serif,
    SansSerif,
    Cursive,
    Fantasy,
    Monospace,
}

/// What a [`Family`] is: a family name is its characters.
pub enum FamilyView {
    Name(Seq<char>),
    Serif,
    SansSerif,
    Cursive,
    Fantasy,
    Monospace,
}

impl View for Family {
    type V = FamilyView;

    open spec fn view(&self) -> FamilyView {
        match *self {
            Family::Name(n) => FamilyView::Name(n@),
            Family::Serif => FamilyView::Serif,
            Family::SansSerif => FamilyView::SansSerif,
            Family::Cursive => FamilyView::Cursive,
            Family::Fantasy => FamilyView::Fantasy,
            Family::Monospace => FamilyView::Monospace,
        }
    }
}

impl PartialEq for Family {
    fn eq(&self, other: &Self) -> (r: bool) {
        match (self, other) {
            (Family::Name(a), Family::Name(b)) => str_eq(a, b),
            (Family::Serif, Family::Serif) => true,
            (Family::SansSerif, Family::SansSerif) => true,
            (Family::Cursive, Family::Cursive) => true,
            (Family::Fantasy, Family::Fantasy) => true,
            (Family::Monospace, Family::Monospace) => true,
            _ => false,
        }
    }
}

impl vstd::std_specs::cmp::PartialEqSpecImpl for Family {
    open spec fn obeys_eq_spec() -> bool {
        true
    }

    open spec fn eq_spec(&self, other: &Self) -> bool {
        self@ == other@
    }
}

impl Eq for Family {
}

/// The width of a font face.
#[derive(Clone, Copy, Debug, PartialEq, Eq, Hash, Structural)]
pub enum Stretch {
    UltraCondensed,
    ExtraCondensed,
    Condensed,
    SemiCondensed,
    Normal,
    SemiExpanded,
    Expanded,
    ExtraExpanded,
    UltraExpanded,
}

/// The slant of a font face.
#[derive(Clone, Copy, Debug, PartialEq, Eq, Hash, Structural)]
pub enum Style {
    Normal,
    Italic,
    Oblique,
}

/// The weight of a font face, from 1 to 1000; 400 is regular.
#[derive(Clone, Copy, Debug, PartialEq, Eq, Hash, Structural)]
pub struct Weight(pub u16);

/// The numeric weights of the named weights.
impl Weight {
    pub const THIN: u16 = 100;
    pub const EXTRA_LIGHT: u16 = 200;
    pub const LIGHT: u16 = 300;
    pub const NORMAL: u16 = 400;
    pub const MEDIUM: u16 = 500;
    pub const SEMIBOLD: u16 = 600;
    pub const BOLD: u16 = 700;
    pub const EXTRA_BOLD: u16 = 800;
    pub const BLACK: u16 = 900;
}


/// Text attributes.
#[derive(Clone, Copy, Debug, Hash)]
pub struct Attributes {
    pub color: Option<Color>,
    pub family: Family,
    pub stretch: Stretch,
    pub style: Style,
    pub weight: Weight,
    pub cache_key_flags: CacheKeyFlags,
}

/// What a set of [`Attributes`] is, with the family name taken by its characters.
pub struct AttributesView {
    pub color: Option<Color>,
    pub family: FamilyView,
    pub stretch: Stretch,
    pub style: Style,
    pub weight: Weight,
    pub cache_key_flags: CacheKeyFlags,
}

impl View for Attributes {
    type V = AttributesView;

    open spec fn view(&self) -> AttributesView {
        AttributesView {
            color: self.color,
            family: self.family@,
            stretch: self.stretch,
            style: self.style,
            weight: self.weight,
            cache_key_flags: self.cache_key_flags,
        }
    }
}

impl PartialEq for Attributes {
    fn eq(&self, other: &Self) -> (r: bool) {
        let same_color = match (self.color, other.color) {
            (Some(a), Some(b)) => a.0 == b.0,
            (None, None) => true,
            _ => false,
        };
        same_color && self.family.eq(&other.family) && self.stretch == other.stretch
            && self.style == other.style && self.weight == other.weight
            && self.cache_key_flags == other.cache_key_flags
    }
}

impl vstd::std_specs::cmp::PartialEqSpecImpl for Attributes {
    open spec fn obeys_eq_spec() -> bool {
        true
    }

    open spec fn eq_spec(&self, other: &Self) -> bool {
        self@ == other@
    }
}

impl Eq for Attributes {
}

/// The attributes that [`Attributes::new`] gives: regular Serif text with no color.
pub open spec fn default_attributes() -> AttributesView {
    AttributesView {
        color: None,
        family: FamilyView::Serif,
        stretch: Stretch::Normal,
        style: Style::Normal,
        weight: Weight(Weight::NORMAL),
        cache_key_flags: CacheKeyFlags(0),
    }
}

impl Attributes {
    /// Create a new set of attributes with sane defaults.
    ///
    /// This defaults to a regular Serif font.
    pub fn new() -> (a: Self)
        ensures
            a@ == default_attributes(),
    {
        Self {
            color: None,
            family: Family::Serif,
            stretch: Stretch::Normal,
            style: Style::Normal,
            weight: Weight(Weight::NORMAL),
            cache_key_flags: CacheKeyFlags::empty(),
        }
    }

    /// Check if these attributes match the ones of the font: the face is an
    /// emoji face or has the same style and stretch.
    pub fn matches(&self, face: &FaceRecord) -> (r: bool)
        ensures
            r == face_matches(self.style, self.stretch, *face),
            occurs_in("Emoji"@, face.post_script_name@) ==> r,
            !occurs_in("Emoji"@, face.post_script_name@) ==> (r <==> (face.style == self.style
                && face.stretch == self.stretch)),
    {
        str_contains(face.post_script_name.as_str(), "Emoji") || (face.style == self.style && face.stretch
            == self.stretch)
    }

    /// Check if this set of attributes can be shaped with another.
    pub fn is_compatible_with(&self, other: &Self) -> (r: bool)
        ensures
            r == (self.family@ == other.family@ && self.stretch == other.stretch && self.style
                == other.style && self.weight == other.weight),
    {
        self.family.eq(&other.family) && self.stretch == other.stretch && self.style == other.style
            && self.weight == other.weight
    }

    /// The same attributes in italic style.
    pub fn italic(&self) -> (a: Self)
        ensures
            a == (Attributes { style: Style::Italic, ..*self }),
    {
        Self { style: Style::Italic, ..*self }
    }

    /// The same attributes in medium weight.
    pub fn bold(&self) -> (a: Self)
        ensures
            a == (Attributes { weight: Weight(Weight::MEDIUM), ..*self }),
    {
        Self { weight: Weight(Weight::MEDIUM), ..*self }
    }
}


/// List of text attributes to apply to a line.
#[derive(Debug, Clone, Eq, PartialEq)]
pub struct AttributesList {
    pub default_attributes: Attributes,
    pub spans: RangeMap<usize, Attributes>,
}

/// Two well-formed spans that cover the same position are the same span.
proof fn lemma_covering_unique(s: Seq<SpanView>, i: int, j: int, k: int)
    requires
        spans_wf(s),
        0 <= i < s.len(),
        0 <= j < s.len(),
        covers(s[i], k),
        covers(s[j], k),
    ensures
        i == j,
{
    if i < j {
        assert(s[i].1 <= s[j].0);
    } else if j < i {
        assert(s[j].1 <= s[i].0);
    }
}

/// A span that a sequence contains gives its positions their attributes.
proof fn lemma_lookup_contained(s: Seq<SpanView>, span: SpanView, k: int)
    requires
        spans_wf(s),
        s.contains(span),
        covers(span, k),
    ensures
        spans_lookup(s, k) == Some(span.2),
{
    let i = choose|i: int| 0 <= i < s.len() && s[i] == span;
    lemma_lookup_at(s, i, k);
}

/// `after` is the well-formed list `before` with the attributes `v` laid over
/// the positions `start..end`, and the same default attributes.
pub open spec fn adds_span(
    before: AttributesList,
    after: AttributesList,
    start: int,
    end: int,
    v: AttributesView,
) -> bool {
    &&& after.wf()
    &&& after.default_attributes == before.default_attributes
    &&& forall|k: int|
        #![trigger after.span_at(k)]
        after.span_at(k) == if start <= k < end {
            Some(v)
        } else {
            before.span_at(k)
        }
}

impl AttributesList {
    /// The stored spans are well formed.
    pub open spec fn wf(&self) -> bool {
        spans_wf(stored_spans(self.spans))
    }

    /// The attributes that a span gives position `k`, if any span covers it.
    pub open spec fn span_at(&self, k: int) -> Option<AttributesView> {
        spans_lookup(stored_spans(self.spans), k)
    }

    /// Create a new attributes list with a set of default [`Attributes`].
    pub fn new(default_attributes: Attributes) -> (l: Self)
        ensures
            l.wf(),
            l.default_attributes == default_attributes,
            stored_spans(l.spans) == Seq::<SpanView>::empty(),
            forall|k: int| #[trigger] l.span_at(k) is None,
    {
        let l = Self { default_attributes, spans: span_map_new() };
        assert forall|k: int| #[trigger] l.span_at(k) is None by {
            assert(!spans_cover(stored_spans(l.spans), k));
        }
        l
    }

    /// Add an attribute span, removes any previous matching parts of spans.
    pub fn add_span(&mut self, range: Range<usize>, attributes: Attributes)
        requires
            old(self).wf(),
            range.start <= range.end,
        ensures
            adds_span(*old(self), *final(self), range.start as int, range.end as int, attributes@),
            range.start == range.end ==> *final(self) == *old(self),
    {
        if range.start == range.end {
            return;
        }
        span_map_insert(&mut self.spans, range, attributes);
    }

    /// Get the attribute span for an index.
    ///
    /// This returns a span that contains the index.
    pub fn get_span(&self, index: usize) -> (a: &Attributes)
        ensures
            a@ == match self.span_at(index as int) {
                Some(v) => v,
                None => self.default_attributes@,
            },
    {
        match span_map_get(&self.spans, index) {
            Some(a) => a,
            None => &self.default_attributes,
        }
    }

    /// Split attributes list at an offset.
    pub fn split_off(&mut self, index: usize) -> (r: Option<Self>)
        requires
            old(self).wf(),
        ensures
            r is Some,
            final(self).wf(),
            final(self).default_attributes == old(self).default_attributes,
            forall|k: int|
                #![trigger final(self).span_at(k)]
                final(self).span_at(k) == if k < index {
                    old(self).span_at(k)
                } else {
                    None
                },
            (forall|i: int|
                0 <= i < stored_spans(old(self).spans).len() ==> (#[trigger] stored_spans(
                    old(self).spans,
                )[i]).1 <= index) ==> *final(self) == *old(self),
            index == 0 ==> stored_spans(final(self).spans) == Seq::<SpanView>::empty(),
            r matches Some(l) ==> {
                &&& l.wf()
                &&& l.default_attributes == old(self).default_attributes
                &&& forall|k: int|
                    #![trigger l.span_at(k)]
                    0 <= k ==> l.span_at(k) == old(self).span_at(k + index)
                &&& (forall|i: int|
                    0 <= i < stored_spans(old(self).spans).len() ==> (#[trigger] stored_spans(
                        old(self).spans,
                    )[i]).1 <= index) ==> stored_spans(l.spans) == Seq::<SpanView>::empty()
                &&& index == 0 ==> stored_spans(l.spans) == stored_spans(old(self).spans)
            },
    {
        // `o` is the list of spans before the split; `tv` holds the spans that
        // reach past `index`, in order, and `ix` their positions in `o`.
        let ghost o = stored_spans(self.spans);
        let mut updated_attributes_list = Self::new(self.default_attributes);
        let mut ranges_to_remove: Vec<(Range<usize>, bool)> = Vec::new();
        let spans = span_map_spans(&self.spans);
        let ghost mut tv: Seq<SpanView> = Seq::empty();
        let ghost mut ix: Seq<int> = Seq::empty();

        // Get the keys we need to remove or fix
        let mut i: usize = 0;
        while i < spans.len()
            invariant
                o == stored_spans(self.spans),
                spans_wf(o),
                spans.len() == o.len(),
                forall|p: int|
                    0 <= p < spans.len() ==> (#[trigger] o[p]) == (
                        spans[p].0.start,
                        spans[p].0.end,
                        spans[p].1@,
                    ),
                0 <= i <= spans.len(),
                ranges_to_remove.len() == tv.len(),
                ix.len() == tv.len(),
                forall|p: int|
                    0 <= p < tv.len() ==> {
                        &&& (#[trigger] ranges_to_remove[p]).0.start == tv[p].0
                        &&& ranges_to_remove[p].0.end == tv[p].1
                        &&& ranges_to_remove[p].1 == (tv[p].0 < index)
                    },
                forall|p: int|
                    0 <= p < tv.len() ==> 0 <= #[trigger] ix[p] < i && tv[p] == o[ix[p]] && tv[p].1
                        > index,
                forall|p: int, q: int| 0 <= p < q < tv.len() ==> #[trigger] ix[p] < #[trigger] ix[q],
                forall|m: int|
                    0 <= m < i && (#[trigger] o[m]).1 > index ==> exists|p: int|
                        0 <= p < tv.len() && #[trigger] ix[p] == m,
            decreases spans.len() - i,
        {
            let start = spans[i].0.start;
            let end = spans[i].0.end;
            let ghost ix0 = ix;
            proof {
                assert(o[i as int] == (start, end, spans[i as int].1@));
            }
            if end <= index {
            } else if start >= index {
                ranges_to_remove.push((start..end, false));
                proof {
                    tv = tv.push(o[i as int]);
                    ix = ix.push(i as int);
                }
            } else {
                ranges_to_remove.push((start..end, true));
                proof {
                    tv = tv.push(o[i as int]);
                    ix = ix.push(i as int);
                }
            }
            proof {
                assert forall|m: int|
                    0 <= m < i + 1 && (#[trigger] o[m]).1 > index implies exists|p: int|
                    0 <= p < tv.len() && #[trigger] ix[p] == m by {
                    if m == i {
                        assert(ix[tv.len() - 1] == m);
                    } else {
                        let p = choose|p: int| 0 <= p < ix0.len() && #[trigger] ix0[p] == m;
                        assert(ix[p] == ix0[p]);
                    }
                }
            }
            i = i + 1;
        }

        proof {
            assert forall|p: int, q: int| 0 <= p < q < tv.len() implies (#[trigger] tv[p]).1
                <= (#[trigger] tv[q]).0 by {
                assert(ix[p] < ix[q]);
                assert(o[ix[p]].1 <= o[ix[q]].0);
            }
            assert forall|p: int| 0 <= p < tv.len() implies o.contains(#[trigger] tv[p]) && tv[p].1
                > index && tv[p].0 < tv[p].1 by {
                assert(o[ix[p]] == tv[p]);
            }
            assert forall|k: int| k >= index && spans_cover(o, k) implies exists|q: int|
                0 <= q < tv.len() && covers(#[trigger] tv[q], k) by {
                let m = choose|m: int| 0 <= m < o.len() && covers(#[trigger] o[m], k);
                let p = choose|p: int| 0 <= p < tv.len() && #[trigger] ix[p] == m;
                assert(covers(tv[p], k));
            }
        }

        // Move each span that reaches past `index`: the spans not yet moved are
        // still stored intact, positions before `index` keep their attributes,
        // and the new list holds the moved spans shifted by `index`.
        let mut j: usize = 0;
        while j < ranges_to_remove.len()
            invariant
                spans_wf(o),
                ranges_to_remove.len() == tv.len(),
                forall|p: int|
                    0 <= p < tv.len() ==> {
                        &&& (#[trigger] ranges_to_remove[p]).0.start == tv[p].0
                        &&& ranges_to_remove[p].0.end == tv[p].1
                        &&& ranges_to_remove[p].1 == (tv[p].0 < index)
                    },
                forall|p: int| 0 <= p < tv.len() ==> o.contains(#[trigger] tv[p]),
                forall|p: int| 0 <= p < tv.len() ==> (#[trigger] tv[p]).1 > index,
                forall|p: int| 0 <= p < tv.len() ==> (#[trigger] tv[p]).0 < tv[p].1,
                forall|p: int, q: int| 0 <= p < q < tv.len() ==> (#[trigger] tv[p]).1 <= (#[trigger] tv[q]).0,
                forall|k: int|
                    k >= index && spans_cover(o, k) ==> exists|q: int|
                        0 <= q < tv.len() && covers(#[trigger] tv[q], k),
                0 <= j <= tv.len(),
                self.wf(),
                updated_attributes_list.wf(),
                self.default_attributes == old(self).default_attributes,
                updated_attributes_list.default_attributes == old(self).default_attributes,
                tv.len() == 0 ==> *self == *old(self),
                forall|q: int| j <= q < tv.len() ==> stored_spans(self.spans).contains(#[trigger] tv[q]),
                forall|k: int| k < index ==> #[trigger] self.span_at(k) == spans_lookup(o, k),
                forall|k: int|
                    k >= index ==> #[trigger] self.span_at(k) == if exists|q: int|
                        j <= q < tv.len() && covers(#[trigger] tv[q], k) {
                        spans_lookup(o, k)
                    } else {
                        None
                    },
                forall|k: int|
                    0 <= k ==> #[trigger] updated_attributes_list.span_at(k) == if exists|q: int|
                        0 <= q < j && covers(#[trigger] tv[q], k + index) {
                        spans_lookup(o, k + index)
                    } else {
                        None
                    },
            decreases tv.len() - j,
        {
            let start = ranges_to_remove[j].0.start;
            let end = ranges_to_remove[j].0.end;
            let to_resize = ranges_to_remove[j].1;
            let ghost cur = stored_spans(self.spans);
            let ghost head = *self;
            let ghost span = tv[j as int];
            proof {
                assert(cur.contains(span));
                assert(covers(span, start as int));
            }
            let (selected_range, attributes) = match span_map_get_key_value(&self.spans, start) {
                Some(found) => found,
                None => {
                    proof {
                        let m = choose|m: int| 0 <= m < cur.len() && cur[m] == span;
                        assert(covers(cur[m], start as int));
                    }
                    return None;
                },
            };
            proof {
                let m = choose|m: int| 0 <= m < cur.len() && #[trigger] cur[m] == (selected_range.start, selected_range.end, attributes@) && covers(cur[m], start as int);
                let m2 = choose|m2: int| 0 <= m2 < cur.len() && cur[m2] == span;
                lemma_covering_unique(cur, m, m2, start as int);
                assert(selected_range.start == start && selected_range.end == end);
                assert(attributes@ == span.2);
                assert forall|q: int| j < q < tv.len() implies #[trigger] tv[q].0 >= end by {
                    assert(tv[j as int].1 <= tv[q].0);
                }
            }
            let ghost n0 = stored_spans(updated_attributes_list.spans);
            let ghost head_updated = updated_attributes_list;
            span_map_remove(&mut self.spans, start..end);
            let ghost cur1 = stored_spans(self.spans);
            proof {
                assert forall|q: int| j < q < tv.len() implies cur1.contains(#[trigger] tv[q]) by {
                    let m = choose|m: int| 0 <= m < cur.len() && cur[m] == tv[q];
                    assert(cur[m] == tv[q]);
                }
            }
            if to_resize {
                span_map_insert(&mut updated_attributes_list.spans, 0..selected_range.end - index, attributes);
                span_map_insert(&mut self.spans, selected_range.start..index, attributes);
                proof {
                    let cur2 = stored_spans(self.spans);
                    assert forall|q: int| j < q < tv.len() implies cur2.contains(#[trigger] tv[q]) by {
                        let m = choose|m: int| 0 <= m < cur1.len() && cur1[m] == tv[q];
                        assert(cur1[m] == tv[q]);
                    }
                }
            } else {
                span_map_insert(
                    &mut updated_attributes_list.spans,
                    selected_range.start - index..selected_range.end - index,
                    attributes,
                );
            }
            let ghost cur2 = stored_spans(self.spans);
            let ghost n1 = stored_spans(updated_attributes_list.spans);
            proof {
                assert forall|k: int| k < index implies #[trigger] self.span_at(k) == spans_lookup(o, k) by {
                    assert(head.span_at(k) == spans_lookup(cur, k));
                    assert(spans_lookup(cur1, k) == if start <= k < end { None } else { spans_lookup(cur, k) });
                    if to_resize {
                        assert(spans_lookup(cur2, k) == if start <= k < index { Some(attributes@) } else { spans_lookup(cur1, k) });
                    }
                    if start <= k && k < end {
                        lemma_lookup_contained(o, span, k);
                    }
                }
                assert forall|k: int|
                    k >= index implies #[trigger] self.span_at(k) == if exists|q: int|
                        j + 1 <= q < tv.len() && covers(#[trigger] tv[q], k) {
                        spans_lookup(o, k)
                    } else {
                        None
                    } by {
                    assert(head.span_at(k) == if exists|q: int|
                        j <= q < tv.len() && covers(#[trigger] tv[q], k) {
                        spans_lookup(o, k)
                    } else {
                        None
                    });
                    assert(spans_lookup(cur1, k) == if start <= k < end { None } else { spans_lookup(cur, k) });
                    if to_resize {
                        assert(spans_lookup(cur2, k) == if start <= k < index { Some(attributes@) } else { spans_lookup(cur1, k) });
                    }
                    if start <= k && k < end {
                        assert(!exists|q: int| j + 1 <= q < tv.len() && covers(#[trigger] tv[q], k));
                    } else {
                        if exists|q: int| j <= q < tv.len() && covers(#[trigger] tv[q], k) {
                            let q = choose|q: int| j <= q < tv.len() && covers(#[trigger] tv[q], k);
                            assert(q != j);
                            assert(covers(tv[q], k));
                        }
                    }
                }
                assert forall|k: int|
                    0 <= k implies #[trigger] updated_attributes_list.span_at(k) == if exists|q: int|
                        0 <= q < j + 1 && covers(#[trigger] tv[q], k + index) {
                        spans_lookup(o, k + index)
                    } else {
                        None
                    } by {
                    assert(head_updated.span_at(k) == if exists|q: int|
                        0 <= q < j && covers(#[trigger] tv[q], k + index) {
                        spans_lookup(o, k + index)
                    } else {
                        None
                    });
                    if to_resize {
                        assert(spans_lookup(n1, k) == if 0 <= k < end - index { Some(attributes@) } else { spans_lookup(n0, k) });
                    } else {
                        assert(spans_lookup(n1, k) == if start - index <= k < end - index { Some(attributes@) } else { spans_lookup(n0, k) });
                    }
                    if covers(span, k + index) {
                        lemma_lookup_contained(o, span, k + index);
                        assert(covers(tv[j as int], k + index));
                    } else {
                        if exists|q: int| 0 <= q < j + 1 && covers(#[trigger] tv[q], k + index) {
                            let q = choose|q: int| 0 <= q < j + 1 && covers(#[trigger] tv[q], k + index);
                            assert(q != j);
                            assert(covers(tv[q], k + index));
                        }
                    }
                }
            }
            j = j + 1;
        }

        proof {
            let empty = Seq::<SpanView>::empty();
            let n = stored_spans(updated_attributes_list.spans);
            let left = stored_spans(self.spans);
            if forall|i: int| 0 <= i < o.len() ==> (#[trigger] o[i]).1 <= index {
                if tv.len() > 0 {
                    assert(o.contains(tv[0]));
                }
                assert forall|k: int| #[trigger] spans_lookup(n, k) == spans_lookup(empty, k) by {
                    if k >= 0 {
                        assert(updated_attributes_list.span_at(k) == spans_lookup(n, k));
                    }
                }
                lemma_spans_determined(n, empty);
            }
            if index == 0 {
                assert forall|k: int| #[trigger] spans_lookup(left, k) == spans_lookup(empty, k) by {
                    assert(self.span_at(k) == spans_lookup(left, k));
                    if spans_cover(o, k) {
                        let i = choose|i: int| 0 <= i < o.len() && covers(#[trigger] o[i], k);
                    }
                }
                lemma_spans_determined(left, empty);
                assert forall|k: int| #[trigger] spans_lookup(n, k) == spans_lookup(o, k) by {
                    if k >= 0 {
                        assert(updated_attributes_list.span_at(k) == spans_lookup(n, k));
                    } else {
                        if spans_cover(n, k) {
                            let i = choose|i: int| 0 <= i < n.len() && covers(#[trigger] n[i], k);
                        }
                        if spans_cover(o, k) {
                            let i = choose|i: int| 0 <= i < o.len() && covers(#[trigger] o[i], k);
                        }
                    }
                }
                lemma_spans_determined(n, o);
            }
        }
        Some(updated_attributes_list)
    }
}

/// After the spans of the split-off part have been added back, one by one and
/// shifted by `index`, position `k` has its attributes from before the split
/// where one of the spans added so far covers it, and those of the kept part
/// elsewhere.
proof fn lemma_add_back_prefix(
    original: AttributesList,
    kept: AttributesList,
    tail: AttributesList,
    index: usize,
    steps: Seq<AttributesList>,
    j: int,
)
    requires
        kept.wf(),
        tail.wf(),
        forall|k: int| #![trigger tail.span_at(k)] 0 <= k ==> tail.span_at(k) == original.span_at(k + index),
        steps.len() == stored_spans(tail.spans).len() + 1,
        steps[0] == kept,
        forall|i: int|
            0 <= i < stored_spans(tail.spans).len() ==> #[trigger] adds_span(
                steps[i],
                steps[i + 1],
                stored_spans(tail.spans)[i].0 + index,
                stored_spans(tail.spans)[i].1 + index,
                stored_spans(tail.spans)[i].2,
            ),
        0 <= j <= stored_spans(tail.spans).len(),
    ensures
        steps[j].wf(),
        steps[j].default_attributes == kept.default_attributes,
        forall|k: int|
            #![trigger steps[j].span_at(k)]
            steps[j].span_at(k) == if exists|i: int|
                0 <= i < j && covers(#[trigger] stored_spans(tail.spans)[i], k - index) {
                original.span_at(k)
            } else {
                kept.span_at(k)
            },
    decreases j,
{
    let t = stored_spans(tail.spans);
    if j > 0 {
        lemma_add_back_prefix(original, kept, tail, index, steps, j - 1);
        let s = t[j - 1];
        assert(adds_span(steps[j - 1], steps[j], s.0 + index, s.1 + index, s.2));
        assert forall|k: int|
            #![trigger steps[j].span_at(k)]
            steps[j].span_at(k) == if exists|i: int|
                0 <= i < j && covers(#[trigger] t[i], k - index) {
                original.span_at(k)
            } else {
                kept.span_at(k)
            } by {
            if covers(s, k - index) {
                lemma_lookup_at(t, j - 1, k - index);
                assert(tail.span_at(k - index) == original.span_at(k - index + index));
            } else {
                assert(steps[j - 1].span_at(k) == steps[j].span_at(k));
                if exists|i: int| 0 <= i < j && covers(#[trigger] t[i], k - index) {
                    let i = choose|i: int| 0 <= i < j && covers(#[trigger] t[i], k - index);
                    assert(i != j - 1);
                    assert(covers(t[i], k - index));
                }
            }
        }
    }
}

/// Splitting a well-formed list at `index` and then adding each span of the
/// split-off part back, in order and shifted up by `index`, gives back the
/// spans and the default attributes that the list had before the split.
pub proof fn lemma_split_off_add_back(
    original: AttributesList,
    kept: AttributesList,
    tail: AttributesList,
    index: usize,
    steps: Seq<AttributesList>,
)
    requires
        original.wf(),
        kept.wf(),
        tail.wf(),
        kept.default_attributes == original.default_attributes,
        forall|k: int|
            #![trigger kept.span_at(k)]
            kept.span_at(k) == if k < index {
                original.span_at(k)
            } else {
                None
            },
        forall|k: int| #![trigger tail.span_at(k)] 0 <= k ==> tail.span_at(k) == original.span_at(k + index),
        steps.len() == stored_spans(tail.spans).len() + 1,
        steps[0] == kept,
        forall|i: int|
            0 <= i < stored_spans(tail.spans).len() ==> #[trigger] adds_span(
                steps[i],
                steps[i + 1],
                stored_spans(tail.spans)[i].0 + index,
                stored_spans(tail.spans)[i].1 + index,
                stored_spans(tail.spans)[i].2,
            ),
    ensures
        steps.last().wf(),
        steps.last().default_attributes == original.default_attributes,
        stored_spans(steps.last().spans) == stored_spans(original.spans),
{
    let t = stored_spans(tail.spans);
    let n = t.len() as int;
    let last = steps[n];
    lemma_add_back_prefix(original, kept, tail, index, steps, n);
    assert forall|k: int| #[trigger] spans_lookup(stored_spans(last.spans), k) == spans_lookup(
        stored_spans(original.spans),
        k,
    ) by {
        assert(last.span_at(k) == spans_lookup(stored_spans(last.spans), k));
        assert(original.span_at(k) == spans_lookup(stored_spans(original.spans), k));
        if !(exists|i: int| 0 <= i < n && covers(#[trigger] t[i], k - index)) {
            assert(kept.span_at(k) == if k < index { original.span_at(k) } else { None });
            if k >= index {
                assert(!spans_cover(t, k - index));
                assert(tail.span_at(k - index) == original.span_at(k - index + index));
            }
        }
    }
    lemma_spans_determined(stored_spans(last.spans), stored_spans(original.spans));
}

} // verus!
