use vstd::prelude::*;

use std::ops::Range;

use rangemap::RangeMap;

use crate::attributes::{Attributes, AttributesView};

verus! {

#[verifier::external_type_specification]
#[verifier::external_body]
#[verifier::reject_recursive_types(K)]
#[verifier::reject_recursive_types(V)]
pub struct ExRangeMap<K, V>(RangeMap<K, V>);

/// `RangeMap::clone` (derived in rangemap) copies the stored spans; the
/// clone of a list of attribute spans goes through it. Nothing is claimed of
/// the result here.
pub assume_specification<K: Clone, V: Clone>[ <RangeMap<K, V> as Clone>::clone ](m: &RangeMap<K, V>) -> RangeMap<K, V>;

/// One stored span: the half-open range `start..end` and its attributes.
pub type SpanView = (usize, usize, AttributesView);

/// The spans that a range map of attributes stores, ordered by start.
pub uninterp spec fn stored_spans(m: RangeMap<usize, Attributes>) -> Seq<SpanView>;

/// Two neighbouring spans do not both touch and hold the same attributes.
pub open spec fn unmerged_neighbours(a: SpanView, b: SpanView) -> bool {
    a.1 < b.0 || a.2 != b.2
}

/// Every span is non-empty, each one ends before the next one starts, and
/// touching neighbours hold different attributes (equal ones are merged).
pub open spec fn spans_wf(s: Seq<SpanView>) -> bool {
    &&& forall|i: int| 0 <= i < s.len() ==> (#[trigger] s[i]).0 < s[i].1
    &&& forall|i: int, j: int| 0 <= i < j < s.len() ==> (#[trigger] s[i]).1 <= (#[trigger] s[j]).0
    &&& forall|i: int, j: int|
        0 <= i && j == i + 1 && j < s.len() ==> unmerged_neighbours(#[trigger] s[i], #[trigger] s[j])
}

/// The span covers position `k`.
pub open spec fn covers(span: SpanView, k: int) -> bool {
    span.0 <= k < span.1
}

/// Some span covers position `k`.
pub open spec fn spans_cover(s: Seq<SpanView>, k: int) -> bool {
    exists|i: int| 0 <= i < s.len() && covers(#[trigger] s[i], k)
}

/// The attributes that the spans give position `k`, if any span covers it.
pub open spec fn spans_lookup(s: Seq<SpanView>, k: int) -> Option<AttributesView> {
    if spans_cover(s, k) {
        Some(s[choose|i: int| 0 <= i < s.len() && covers(#[trigger] s[i], k)].2)
    } else {
        None
    }
}

/// The span does not overlap nor touch `start..end`.
pub open spec fn apart(span: SpanView, start: int, end: int) -> bool {
    span.1 < start || span.0 > end
}

/// The span does not overlap `start..end`.
pub open spec fn disjoint(span: SpanView, start: int, end: int) -> bool {
    span.1 <= start || span.0 >= end
}

/// In well-formed spans, a span that covers `k` is the one that gives `k` its attributes.
pub proof fn lemma_lookup_at(s: Seq<SpanView>, i: int, k: int)
    requires
        spans_wf(s),
        0 <= i < s.len(),
        covers(s[i], k),
    ensures
        spans_lookup(s, k) == Some(s[i].2),
{
    let j = choose|j: int| 0 <= j < s.len() && covers(#[trigger] s[j], k);
    if j < i {
        assert(s[j].1 <= s[i].0);
    } else if i < j {
        assert(s[i].1 <= s[j].0);
    }
}

/// No span covers a position before the first span starts.
proof fn lemma_before_first(s: Seq<SpanView>, k: int)
    requires
        spans_wf(s),
        s.len() > 0,
        k < s[0].0,
    ensures
        !spans_cover(s, k),
{
    if spans_cover(s, k) {
        let i = choose|i: int| 0 <= i < s.len() && covers(#[trigger] s[i], k);
        if i > 0 {
            assert(s[0].1 <= s[i].0);
        }
    }
}

/// Dropping the first span leaves the other positions as they were, and
/// leaves the first span's positions uncovered.
proof fn lemma_lookup_drop_first(s: Seq<SpanView>, k: int)
    requires
        spans_wf(s),
        s.len() > 0,
    ensures
        spans_wf(s.drop_first()),
        spans_lookup(s.drop_first(), k) == if covers(s[0], k) {
            None
        } else {
            spans_lookup(s, k)
        },
{
    let d = s.drop_first();
    assert forall|i: int, j: int| 0 <= i < j < d.len() implies (#[trigger] d[i]).1 <= (#[trigger] d[j]).0 by {
        assert(d[i] == s[i + 1] && d[j] == s[j + 1]);
    }
    assert forall|i: int, j: int|
        0 <= i && j == i + 1 && j < d.len() implies unmerged_neighbours(#[trigger] d[i], #[trigger] d[j]) by {
        assert(d[i] == s[i + 1] && d[j] == s[j + 1]);
    }
    assert forall|i: int| 0 <= i < d.len() implies (#[trigger] d[i]).0 < d[i].1 by {
        assert(d[i] == s[i + 1]);
    }
    if spans_cover(d, k) {
        let i = choose|i: int| 0 <= i < d.len() && covers(#[trigger] d[i], k);
        assert(d[i] == s[i + 1]);
        lemma_lookup_at(d, i, k);
        lemma_lookup_at(s, i + 1, k);
        assert(s[0].1 <= s[i + 1].0);
    } else if covers(s[0], k) {
    } else if spans_cover(s, k) {
        let i = choose|i: int| 0 <= i < s.len() && covers(#[trigger] s[i], k);
        assert(i != 0);
        assert(covers(d[i - 1], k));
    }
}

/// Well-formed spans are determined by what they give each position: two
/// span lists that give every position the same attributes are the same list.
pub proof fn lemma_spans_determined(a: Seq<SpanView>, b: Seq<SpanView>)
    requires
        spans_wf(a),
        spans_wf(b),
        forall|k: int| #[trigger] spans_lookup(a, k) == spans_lookup(b, k),
    ensures
        a == b,
    decreases a.len(),
{
    if a.len() == 0 {
        if b.len() > 0 {
            lemma_lookup_at(b, 0, b[0].0 as int);
            assert(spans_lookup(a, b[0].0 as int) == spans_lookup(b, b[0].0 as int));
        }
        assert(a =~= b);
    } else if b.len() == 0 {
        lemma_lookup_at(a, 0, a[0].0 as int);
        assert(spans_lookup(a, a[0].0 as int) == spans_lookup(b, a[0].0 as int));
    } else {
        let s = a[0].0 as int;
        let t = b[0].0 as int;
        lemma_lookup_at(a, 0, s);
        lemma_lookup_at(b, 0, t);
        assert(spans_lookup(a, s) == spans_lookup(b, s));
        assert(spans_lookup(a, t) == spans_lookup(b, t));
        if s < t {
            lemma_before_first(b, s);
        } else if t < s {
            lemma_before_first(a, t);
        }
        assert(s == t);
        assert(a[0].2 == b[0].2);
        let e = a[0].1 as int;
        let f = b[0].1 as int;
        if e < f {
            lemma_lookup_at(b, 0, e);
            assert(spans_lookup(a, e) == spans_lookup(b, e));
            let m = choose|m: int| 0 <= m < a.len() && covers(#[trigger] a[m], e);
            lemma_lookup_at(a, m, e);
            assert(m != 0);
            assert(a[0].1 <= a[m].0);
            if m > 1 {
                assert(a[1].1 <= a[m].0);
                assert(a[0].1 <= a[1].0);
            }
            assert(unmerged_neighbours(a[0], a[1]));
        } else if f < e {
            lemma_lookup_at(a, 0, f);
            assert(spans_lookup(a, f) == spans_lookup(b, f));
            let m = choose|m: int| 0 <= m < b.len() && covers(#[trigger] b[m], f);
            lemma_lookup_at(b, m, f);
            assert(m != 0);
            assert(b[0].1 <= b[m].0);
            if m > 1 {
                assert(b[1].1 <= b[m].0);
                assert(b[0].1 <= b[1].0);
            }
            assert(unmerged_neighbours(b[0], b[1]));
        }
        assert(a[0] == b[0]);
        assert forall|k: int| #[trigger] spans_lookup(a.drop_first(), k) == spans_lookup(b.drop_first(), k) by {
            lemma_lookup_drop_first(a, k);
            lemma_lookup_drop_first(b, k);
            assert(spans_lookup(a, k) == spans_lookup(b, k));
        }
        lemma_lookup_drop_first(a, 0);
        lemma_lookup_drop_first(b, 0);
        lemma_spans_determined(a.drop_first(), b.drop_first());
        assert(a =~= seq![a[0]] + a.drop_first());
        assert(b =~= seq![b[0]] + b.drop_first());
    }
}

/// Calls `RangeMap::new`; the contract claims the new map stores no span.
#[verifier::external_body]
pub(crate) fn span_map_new() -> (m: RangeMap<usize, Attributes>)
    ensures
        stored_spans(m) == Seq::<SpanView>::empty(),
{
    RangeMap::new()
}

/// Calls `RangeMap::insert`, which panics on an empty range. The contract
/// claims, as rangemap's source shows, that the spans stay well formed
/// (rangemap documents that touching spans with equal values are coalesced,
/// and `Attributes` are equal exactly where their views are), that afterwards
/// every position of `range` has `value` and every other position keeps what
/// it had, and that a stored span that neither overlaps nor touches `range`
/// stays stored as it was.
#[verifier::external_body]
pub(crate) fn span_map_insert(m: &mut RangeMap<usize, Attributes>, range: Range<usize>, value: Attributes)
    requires
        range.start < range.end,
        spans_wf(stored_spans(*old(m))),
    ensures
        spans_wf(stored_spans(*final(m))),
        forall|k: int|
            #![trigger spans_lookup(stored_spans(*final(m)), k)]
            spans_lookup(stored_spans(*final(m)), k) == if range.start <= k < range.end {
                Some(value@)
            } else {
                spans_lookup(stored_spans(*old(m)), k)
            },
        forall|i: int|
            0 <= i < stored_spans(*old(m)).len() && apart(
                #[trigger] stored_spans(*old(m))[i],
                range.start as int,
                range.end as int,
            ) ==> stored_spans(*final(m)).contains(stored_spans(*old(m))[i]),
{
    m.insert(range, value)
}

/// Calls `RangeMap::remove`, which panics on an empty range. The contract
/// claims, as rangemap's source shows, that the spans stay well formed (the
/// pieces that remain of a cut span do not touch), that
/// afterwards no position of `range` has attributes and every other position
/// keeps what it had, and that a stored span that does not overlap `range`
/// stays stored as it was.
#[verifier::external_body]
pub(crate) fn span_map_remove(m: &mut RangeMap<usize, Attributes>, range: Range<usize>)
    requires
        range.start < range.end,
        spans_wf(stored_spans(*old(m))),
    ensures
        spans_wf(stored_spans(*final(m))),
        forall|k: int|
            #![trigger spans_lookup(stored_spans(*final(m)), k)]
            spans_lookup(stored_spans(*final(m)), k) == if range.start <= k < range.end {
                None
            } else {
                spans_lookup(stored_spans(*old(m)), k)
            },
        forall|i: int|
            0 <= i < stored_spans(*old(m)).len() && disjoint(
                #[trigger] stored_spans(*old(m))[i],
                range.start as int,
                range.end as int,
            ) ==> stored_spans(*final(m)).contains(stored_spans(*old(m))[i]),
{
    m.remove(range)
}

/// Calls `RangeMap::get`; the contract claims it returns the attributes of
/// the stored span that covers `key`, or `None` where no span covers it.
#[verifier::external_body]
pub(crate) fn span_map_get(m: &RangeMap<usize, Attributes>, key: usize) -> (r: Option<&Attributes>)
    ensures
        match r {
            Some(v) => spans_lookup(stored_spans(*m), key as int) == Some(v@),
            None => spans_lookup(stored_spans(*m), key as int) is None,
        },
{
    m.get(&key)
}

/// Calls `RangeMap::get_key_value` and copies the range and value out; the
/// contract claims it returns the stored span that covers `key`, or `None`
/// where no span covers it.
#[verifier::external_body]
pub(crate) fn span_map_get_key_value(m: &RangeMap<usize, Attributes>, key: usize) -> (r: Option<(Range<usize>, Attributes)>)
    ensures
        match r {
            Some((range, value)) => exists|i: int|
                0 <= i < stored_spans(*m).len() && #[trigger] stored_spans(*m)[i] == (
                    range.start,
                    range.end,
                    value@,
                ) && covers(stored_spans(*m)[i], key as int),
            None => !spans_cover(stored_spans(*m), key as int),
        },
{
    m.get_key_value(&key).map(|(range, value)| (range.clone(), *value))
}

/// Calls `RangeMap::iter` and copies each span out; the contract claims the
/// result lists the stored spans in order.
#[verifier::external_body]
pub(crate) fn span_map_spans(m: &RangeMap<usize, Attributes>) -> (r: Vec<(Range<usize>, Attributes)>)
    ensures
        r.len() == stored_spans(*m).len(),
        forall|i: int|
            0 <= i < r.len() ==> (#[trigger] stored_spans(*m)[i]) == (
                r[i].0.start,
                r[i].0.end,
                r[i].1@,
            ),
{
    m.iter().map(|(range, value)| (range.clone(), *value)).collect()
}

} // verus!
