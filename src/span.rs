use vstd::prelude::*;

use crate::id::MAX_ID;

verus! {

/// An inclusive, non-empty range of ids: `low..=high`.
#[derive(Clone, Copy, Debug, PartialEq, Eq, Structural)]
pub struct IdSpan {
    pub low: u64,
    pub high: u64,
}

/// A span is well formed when it is non-empty and within the id space.
pub open spec fn span_wf(s: IdSpan) -> bool {
    s.low <= s.high && s.high <= MAX_ID
}

pub open spec fn in_span(s: IdSpan, x: u64) -> bool {
    s.low <= x && x <= s.high
}

/// Number of ids in a span.
pub open spec fn span_len(s: IdSpan) -> nat {
    (s.high - s.low + 1) as nat
}

/// The ids of a span, from high to low.
pub open spec fn span_ids(s: IdSpan) -> Seq<u64> {
    Seq::new(span_len(s), |i: int| (s.high - i) as u64)
}

/// The ids of a sequence of spans, span after span, each from high to low.
pub open spec fn ids_of(spans: Seq<IdSpan>) -> Seq<u64>
    decreases spans.len(),
{
    if spans.len() == 0 {
        Seq::empty()
    } else {
        ids_of(spans.drop_last()) + span_ids(spans.last())
    }
}

/// Some span of `spans` holds `x`.
pub open spec fn spans_contain(spans: Seq<IdSpan>, x: u64) -> bool {
    exists|i: int| 0 <= i < spans.len() && #[trigger] in_span(spans[i], x)
}

pub open spec fn all_spans_wf(spans: Seq<IdSpan>) -> bool {
    forall|i: int| 0 <= i < spans.len() ==> span_wf(#[trigger] spans[i])
}

/// Spans sorted from high to low, none touching or overlapping the next.
pub open spec fn spans_wf(spans: Seq<IdSpan>) -> bool {
    &&& all_spans_wf(spans)
    &&& forall|i: int| 0 < i < spans.len() ==> #[trigger] spans[i].high + 1 < spans[i - 1].low
}

/// Spans whose high ends never increase.
pub open spec fn sorted_by_high(spans: Seq<IdSpan>) -> bool {
    forall|i: int, j: int| 0 <= i < j < spans.len() ==> spans[j].high <= spans[i].high
}

/// A strictly decreasing sequence of ids.
pub open spec fn strictly_desc(s: Seq<u64>) -> bool {
    forall|i: int, j: int| 0 <= i < j < s.len() ==> s[j] < s[i]
}

pub proof fn lemma_ids_of_push(spans: Seq<IdSpan>, s: IdSpan)
    ensures
        ids_of(spans.push(s)) == ids_of(spans) + span_ids(s),
{
    assert(spans.push(s).drop_last() =~= spans);
}

pub proof fn lemma_ids_of_take_next(spans: Seq<IdSpan>, i: int)
    requires
        0 <= i < spans.len(),
    ensures
        ids_of(spans.take(i + 1)) == ids_of(spans.take(i)) + span_ids(spans[i]),
{
    assert(spans.take(i + 1) =~= spans.take(i).push(spans[i]));
    lemma_ids_of_push(spans.take(i), spans[i]);
}

pub proof fn lemma_contain_push(spans: Seq<IdSpan>, s: IdSpan, x: u64)
    ensures
        spans_contain(spans.push(s), x) <==> (spans_contain(spans, x) || in_span(s, x)),
{
    let p = spans.push(s);
    if spans_contain(spans, x) {
        let i = choose|i: int| 0 <= i < spans.len() && #[trigger] in_span(spans[i], x);
        assert(p[i] == spans[i]);
    }
    if in_span(s, x) {
        assert(p[spans.len() as int] == s);
    }
    if spans_contain(p, x) {
        let i = choose|i: int| 0 <= i < p.len() && #[trigger] in_span(p[i], x);
        if i < spans.len() {
            assert(p[i] == spans[i]);
        }
    }
}

pub proof fn lemma_contain_take_next(spans: Seq<IdSpan>, i: int, x: u64)
    requires
        0 <= i < spans.len(),
    ensures
        spans_contain(spans.take(i + 1), x) <==> (spans_contain(spans.take(i), x) || in_span(
            spans[i],
            x,
        )),
{
    assert(spans.take(i + 1) =~= spans.take(i).push(spans[i]));
    lemma_contain_push(spans.take(i), spans[i], x);
}

pub proof fn lemma_span_ids_contains(s: IdSpan, x: u64)
    requires
        s.low <= s.high,
    ensures
        span_ids(s).contains(x) <==> in_span(s, x),
{
    if in_span(s, x) {
        assert(span_ids(s)[s.high - x] == x);
    }
}

/// The ids listed by `ids_of` are exactly the ids that some span holds.
pub proof fn lemma_ids_of_contains(spans: Seq<IdSpan>, x: u64)
    requires
        all_spans_wf(spans),
    ensures
        ids_of(spans).contains(x) <==> spans_contain(spans, x),
    decreases spans.len(),
{
    if spans.len() > 0 {
        let d = spans.drop_last();
        assert(spans =~= d.push(spans.last()));
        lemma_ids_of_contains(d, x);
        lemma_span_ids_contains(spans.last(), x);
        lemma_contain_push(d, spans.last(), x);
        let a = ids_of(d);
        let b = span_ids(spans.last());
        if (a + b).contains(x) {
            let k = choose|k: int| 0 <= k < (a + b).len() && (a + b)[k] == x;
            if k < a.len() {
                assert(a[k] == x);
            } else {
                assert(b[k - a.len()] == x);
            }
        }
        if a.contains(x) {
            let k = choose|k: int| 0 <= k < a.len() && a[k] == x;
            assert((a + b)[k] == x);
        }
        if b.contains(x) {
            let k = choose|k: int| 0 <= k < b.len() && b[k] == x;
            assert((a + b)[k + a.len()] == x);
        }
    }
}

/// In well-formed spans every span lies above all later ones.
pub proof fn lemma_spans_ordered(spans: Seq<IdSpan>, i: int, j: int)
    requires
        spans_wf(spans),
        0 <= i < j < spans.len(),
    ensures
        spans[j].high + 1 < spans[i].low,
    decreases j - i,
{
    if j > i + 1 {
        lemma_spans_ordered(spans, i, j - 1);
        assert(spans[j].high + 1 < spans[j - 1].low);
    }
}

pub proof fn lemma_spans_wf_take(spans: Seq<IdSpan>, k: int)
    requires
        spans_wf(spans),
        0 <= k <= spans.len(),
    ensures
        spans_wf(spans.take(k)),
{
    let t = spans.take(k);
    assert forall|i: int| 0 < i < t.len() implies #[trigger] t[i].high + 1 < t[i - 1].low by {
        assert(spans[i].high + 1 < spans[i - 1].low);
    }
}

/// The ids of well-formed spans are strictly decreasing and bounded by the first and
/// last span.
pub proof fn lemma_ids_of_desc(spans: Seq<IdSpan>)
    requires
        spans_wf(spans),
    ensures
        strictly_desc(ids_of(spans)),
        spans.len() > 0 ==> ids_of(spans).len() > 0 && ids_of(spans)[0] == spans[0].high,
        spans.len() > 0 ==> ids_of(spans).last() == spans.last().low,
        spans.len() > 0 ==> ids_of(spans).len() <= spans[0].high + 1 - spans.last().low,
        spans.len() == 0 ==> ids_of(spans).len() == 0,
    decreases spans.len(),
{
    if spans.len() > 0 {
        let d = spans.drop_last();
        let l = spans.last();
        assert(spans_wf(d)) by {
            assert(d =~= spans.take(spans.len() - 1));
            lemma_spans_wf_take(spans, spans.len() - 1);
        }
        lemma_ids_of_desc(d);
        let a = ids_of(d);
        let b = span_ids(l);
        assert(span_wf(spans[spans.len() - 1]));
        if d.len() > 0 {
            assert(spans[spans.len() - 1].high + 1 < spans[spans.len() - 2].low);
            assert(l.high + 1 < d.last().low);
            assert forall|k: int| 0 <= k < a.len() implies a[k] >= d.last().low by {
                lemma_ids_of_contains(d, a[k]);
                assert(a.contains(a[k]));
                let i = choose|i: int| 0 <= i < d.len() && #[trigger] in_span(d[i], a[k]);
                if i < d.len() - 1 {
                    lemma_spans_ordered(spans, i, d.len() - 1);
                }
            }
            assert(d[0] == spans[0]);
        }
        assert forall|i: int, j: int| 0 <= i < j < (a + b).len() implies (a + b)[j] < (a
            + b)[i] by {
            if j < a.len() {
            } else if i < a.len() {
                assert((a + b)[j] <= l.high);
            } else {
            }
        }
    }
}

/// The ids of the first `k` spans start the ids of all spans.
pub proof fn lemma_ids_of_prefix(spans: Seq<IdSpan>, k: int)
    requires
        0 <= k <= spans.len(),
    ensures
        ids_of(spans.take(k)).len() <= ids_of(spans).len(),
        forall|j: int|
            0 <= j < ids_of(spans.take(k)).len() ==> #[trigger] ids_of(spans)[j] == ids_of(
                spans.take(k),
            )[j],
    decreases spans.len() - k,
{
    if k == spans.len() {
        assert(spans.take(k) =~= spans);
    } else {
        let d = spans.drop_last();
        assert(d.take(k) =~= spans.take(k));
        lemma_ids_of_prefix(d, k);
        assert(spans.drop_last() == d);
    }
}

/// Where the ids of span `si` stand among the ids of all spans.
pub proof fn lemma_ids_of_index(spans: Seq<IdSpan>, si: int, off: int)
    requires
        0 <= si < spans.len(),
        0 <= off < span_len(spans[si]),
        spans[si].low <= spans[si].high,
    ensures
        ids_of(spans.take(si)).len() + off < ids_of(spans).len(),
        ids_of(spans)[ids_of(spans.take(si)).len() + off] == spans[si].high - off,
        ids_of(spans.take(si + 1)).len() == ids_of(spans.take(si)).len() + span_len(spans[si]),
{
    lemma_ids_of_take_next(spans, si);
    lemma_ids_of_prefix(spans, si + 1);
    let j = ids_of(spans.take(si)).len() + off;
    assert(ids_of(spans)[j] == ids_of(spans.take(si + 1))[j]);
}

} // verus!
