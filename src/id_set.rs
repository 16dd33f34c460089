use vstd::prelude::*;

use crate::id::MAX_ID;
use crate::span::{
    all_spans_wf, ids_of, in_span, lemma_contain_push, lemma_contain_take_next, lemma_ids_of_contains, lemma_ids_of_desc,
    lemma_ids_of_index, lemma_ids_of_prefix, lemma_ids_of_push, lemma_ids_of_take_next, lemma_span_ids_contains, lemma_spans_ordered, lemma_spans_wf_take, span_ids, span_wf, spans_contain,
    span_len, spans_wf, sorted_by_high, strictly_desc, IdSpan,
};

verus! {

/// An ordered set of ids, stored as spans from high to low that never touch or overlap.
#[derive(Clone, Debug)]
pub struct IdSet {
    spans: Vec<IdSpan>,
}

/// The ids kept by skipping `n` ids of `s` from its start.
pub open spec fn skip_ids(s: Seq<u64>, n: int) -> Seq<u64> {
    if n >= s.len() {
        Seq::empty()
    } else {
        s.skip(n)
    }
}

/// The first `n` ids of `s`, or all of them when there are fewer.
pub open spec fn take_ids(s: Seq<u64>, n: int) -> Seq<u64> {
    if n >= s.len() {
        s
    } else {
        s.take(n)
    }
}

proof fn lemma_skip_concat(p: Seq<u64>, x: Seq<u64>, n: int)
    requires
        n >= 0,
    ensures
        n >= p.len() + x.len() ==> skip_ids(p + x, n) == Seq::<u64>::empty(),
        p.len() <= n < p.len() + x.len() ==> skip_ids(p + x, n) == x.skip(n - p.len()),
        n < p.len() ==> skip_ids(p + x, n) == skip_ids(p, n) + x,
{
    if p.len() <= n < p.len() + x.len() {
        assert(skip_ids(p + x, n) =~= x.skip(n - p.len()));
    }
    if n < p.len() {
        assert(skip_ids(p + x, n) =~= skip_ids(p, n) + x);
    }
}

proof fn lemma_take_concat(p: Seq<u64>, x: Seq<u64>, n: int)
    requires
        n >= 0,
    ensures
        n >= p.len() + x.len() ==> take_ids(p + x, n) == p + x,
        p.len() <= n < p.len() + x.len() ==> take_ids(p + x, n) == p + x.take(n - p.len()),
        n < p.len() ==> take_ids(p + x, n) == take_ids(p, n),
{
    if p.len() <= n < p.len() + x.len() {
        assert(take_ids(p + x, n) =~= p + x.take(n - p.len()));
    }
    if n < p.len() {
        assert(take_ids(p + x, n) =~= take_ids(p, n));
    }
}

/// Coalesces spans sorted by their high ends into well-formed spans holding the same ids.
fn normalize(cands: &Vec<IdSpan>) -> (r: Vec<IdSpan>)
    requires
        all_spans_wf(cands@),
        sorted_by_high(cands@),
    ensures
        spans_wf(r@),
        forall|x: u64| spans_contain(r@, x) <==> spans_contain(cands@, x),
{
    let mut out: Vec<IdSpan> = Vec::new();
    let mut i: usize = 0;
    while i < cands.len()
        invariant
            0 <= i <= cands.len(),
            all_spans_wf(cands@),
            sorted_by_high(cands@),
            spans_wf(out@),
            forall|x: u64| spans_contain(out@, x) <==> spans_contain(cands@.take(i as int), x),
            out.len() > 0 ==> forall|j: int| i <= j < cands.len() ==> cands@[j].high <= out@.last().high,
        decreases cands.len() - i,
    {
        let c = cands[i];
        let ghost old_out = out@;
        proof {
            assert(span_wf(cands@[i as int]));
        }
        if out.len() == 0 || c.high + 1 < out[out.len() - 1].low {
            out.push(c);
            proof {
                assert forall|x: u64| spans_contain(out@, x) <==> spans_contain(
                    cands@.take(i + 1),
                    x,
                ) by {
                    lemma_contain_push(old_out, c, x);
                    lemma_contain_take_next(cands@, i as int, x);
                }
                assert forall|k: int| 0 < k < out@.len() implies #[trigger] out@[k].high + 1
                    < out@[k - 1].low by {
                    if k < out@.len() - 1 {
                        assert(old_out[k].high + 1 < old_out[k - 1].low);
                    }
                }
            }
        } else {
            let last = out[out.len() - 1];
            let low = if c.low < last.low {
                c.low
            } else {
                last.low
            };
            let merged = IdSpan { low, high: last.high };
            let k = out.len() - 1;
            out.set(k, merged);
            proof {
                let d = old_out.drop_last();
                assert(old_out =~= d.push(last));
                assert(out@ =~= d.push(merged));
                assert(cands@[i as int].high <= old_out.last().high);
                assert(forall|x: u64| in_span(merged, x) <==> (in_span(last, x) || in_span(c, x)));
                assert forall|x: u64| spans_contain(out@, x) <==> spans_contain(
                    cands@.take(i + 1),
                    x,
                ) by {
                    lemma_contain_push(d, last, x);
                    lemma_contain_push(d, merged, x);
                    lemma_contain_take_next(cands@, i as int, x);
                }
                assert(span_wf(old_out[k as int]));
                assert forall|k2: int| 0 < k2 < out@.len() implies #[trigger] out@[k2].high + 1
                    < out@[k2 - 1].low by {
                    assert(old_out[k2].high + 1 < old_out[k2 - 1].low);
                }
            }
        }
        i = i + 1;
    }
    proof {
        assert(cands@.take(i as int) =~= cands@);
    }
    out
}

/// The spans of `a` and `b` in one list sorted by their high ends.
fn merge_by_high(a: &Vec<IdSpan>, b: &Vec<IdSpan>) -> (r: Vec<IdSpan>)
    requires
        spans_wf(a@),
        spans_wf(b@),
    ensures
        all_spans_wf(r@),
        sorted_by_high(r@),
        forall|x: u64| spans_contain(r@, x) <==> (spans_contain(a@, x) || spans_contain(b@, x)),
{
    let mut out: Vec<IdSpan> = Vec::new();
    let mut i: usize = 0;
    let mut j: usize = 0;
    while i < a.len() || j < b.len()
        invariant
            spans_wf(a@),
            spans_wf(b@),
            0 <= i <= a.len(),
            0 <= j <= b.len(),
            all_spans_wf(out@),
            sorted_by_high(out@),
            forall|x: u64| spans_contain(out@, x) <==> (spans_contain(a@.take(i as int), x)
                || spans_contain(b@.take(j as int), x)),
            out.len() > 0 && i < a.len() ==> a@[i as int].high <= out@.last().high,
            out.len() > 0 && j < b.len() ==> b@[j as int].high <= out@.last().high,
        decreases a.len() + b.len() - i - j,
    {
        let ghost old_out = out@;
        let pick_a = j == b.len() || (i < a.len() && a[i].high >= b[j].high);
        let c = if pick_a {
            a[i]
        } else {
            b[j]
        };
        out.push(c);
        proof {
            assert(c.low <= c.high);
            if pick_a {
                assert(span_wf(a@[i as int]));
                if i + 1 < a.len() {
                    assert(a@[i + 1].high + 1 < a@[i + 1 - 1].low);
                }
                assert forall|x: u64| spans_contain(out@, x) <==> (spans_contain(
                    a@.take(i + 1),
                    x,
                ) || spans_contain(b@.take(j as int), x)) by {
                    lemma_contain_push(old_out, c, x);
                    lemma_contain_take_next(a@, i as int, x);
                }
            } else {
                assert(span_wf(b@[j as int]));
                if j + 1 < b.len() {
                    assert(b@[j + 1].high + 1 < b@[j + 1 - 1].low);
                }
                assert forall|x: u64| spans_contain(out@, x) <==> (spans_contain(
                    a@.take(i as int),
                    x,
                ) || spans_contain(b@.take(j + 1), x)) by {
                    lemma_contain_push(old_out, c, x);
                    lemma_contain_take_next(b@, j as int, x);
                }
            }
            assert forall|k: int| 0 <= k < out@.len() implies span_wf(#[trigger] out@[k]) by {
                if k < old_out.len() {
                    assert(span_wf(old_out[k]));
                }
            }
            assert forall|k1: int, k2: int| 0 <= k1 < k2 < out@.len() implies out@[k2].high
                <= out@[k1].high by {
                if k2 < old_out.len() {
                    assert(old_out[k2].high <= old_out[k1].high);
                } else if k1 < old_out.len() - 1 {
                    assert(old_out.last().high <= old_out[k1].high);
                }
            }
        }
        if pick_a {
            i = i + 1;
        } else {
            j = j + 1;
        }
    }
    proof {
        assert(a@.take(i as int) =~= a@);
        assert(b@.take(j as int) =~= b@);
    }
    out
}

/// The overlaps of the spans of `a` and `b`, sorted by their high ends.
fn intersect_spans(a: &Vec<IdSpan>, b: &Vec<IdSpan>) -> (r: Vec<IdSpan>)
    requires
        spans_wf(a@),
        spans_wf(b@),
    ensures
        all_spans_wf(r@),
        sorted_by_high(r@),
        forall|x: u64| spans_contain(r@, x) <==> (spans_contain(a@, x) && spans_contain(b@, x)),
{
    let mut out: Vec<IdSpan> = Vec::new();
    let mut i: usize = 0;
    let mut j: usize = 0;
    while i < a.len() && j < b.len()
        invariant
            spans_wf(a@),
            spans_wf(b@),
            0 <= i <= a.len(),
            0 <= j <= b.len(),
            all_spans_wf(out@),
            sorted_by_high(out@),
            forall|x: u64| spans_contain(out@, x) <==> (spans_contain(a@, x) && spans_contain(b@, x)
                && (spans_contain(a@.take(i as int), x) || spans_contain(b@.take(j as int), x))),
            out.len() > 0 && i < a.len() && j < b.len() ==> (a@[i as int].high <= out@.last().high
                || b@[j as int].high <= out@.last().high),
        decreases a.len() + b.len() - i - j,
    {
        let sa = a[i];
        let sb = b[j];
        let ghost old_out = out@;
        let lo = if sa.low > sb.low {
            sa.low
        } else {
            sb.low
        };
        let hi = if sa.high < sb.high {
            sa.high
        } else {
            sb.high
        };
        let t = IdSpan { low: lo, high: hi };
        proof {
            assert(span_wf(a@[i as int]));
            assert(span_wf(b@[j as int]));
            if i + 1 < a.len() {
                assert(a@[i + 1].high + 1 < a@[i + 1 - 1].low);
            }
            if j + 1 < b.len() {
                assert(b@[j + 1].high + 1 < b@[j + 1 - 1].low);
            }
        }
        if lo <= hi {
            out.push(t);
            proof {
                assert forall|k: int| 0 <= k < out@.len() implies span_wf(#[trigger] out@[k]) by {
                    if k < old_out.len() {
                        assert(span_wf(old_out[k]));
                    }
                }
                assert forall|k1: int, k2: int| 0 <= k1 < k2 < out@.len() implies out@[k2].high
                    <= out@[k1].high by {
                    if k2 < old_out.len() {
                        assert(old_out[k2].high <= old_out[k1].high);
                    } else if k1 < old_out.len() - 1 {
                        assert(old_out.last().high <= old_out[k1].high);
                    }
                }
            }
        }
        let advance_a = sa.low >= sb.low;
        proof {
            assert forall|x: u64| spans_contain(out@, x) <==> (spans_contain(a@, x) && spans_contain(
                b@,
                x,
            ) && (spans_contain(a@.take(i + if advance_a { 1int } else { 0 }), x)
                || spans_contain(b@.take(j + if advance_a { 0int } else { 1 }), x))) by {
                lemma_contain_push(old_out, t, x);
                lemma_contain_take_next(a@, i as int, x);
                lemma_contain_take_next(b@, j as int, x);
                if in_span(t, x) && lo <= hi {
                    assert(in_span(a@[i as int], x));
                    assert(in_span(b@[j as int], x));
                }
                if advance_a && in_span(a@[i as int], x) && spans_contain(b@, x) {
                    let k = choose|k: int| 0 <= k < b@.len() && #[trigger] in_span(b@[k], x);
                    if k < j {
                        assert(in_span(b@.take(j as int)[k], x));
                    } else if k > j {
                        lemma_spans_ordered(b@, j as int, k);
                    }
                }
                if !advance_a && in_span(b@[j as int], x) && spans_contain(a@, x) {
                    let k = choose|k: int| 0 <= k < a@.len() && #[trigger] in_span(a@[k], x);
                    if k < i {
                        assert(in_span(a@.take(i as int)[k], x));
                    } else if k > i {
                        lemma_spans_ordered(a@, i as int, k);
                    }
                }
            }
        }
        if advance_a {
            i = i + 1;
        } else {
            j = j + 1;
        }
    }
    proof {
        if i == a.len() {
            assert(a@.take(i as int) =~= a@);
        } else {
            assert(b@.take(j as int) =~= b@);
        }
    }
    out
}

/// The ids up to `MAX_ID` that no span of `b` holds, as well-formed spans.
fn complement_spans(b: &Vec<IdSpan>) -> (r: Vec<IdSpan>)
    requires
        spans_wf(b@),
    ensures
        spans_wf(r@),
        forall|x: u64| spans_contain(r@, x) <==> (x <= MAX_ID && !spans_contain(b@, x)),
{
    let mut out: Vec<IdSpan> = Vec::new();
    let mut prev: u64 = MAX_ID + 1;
    let mut j: usize = 0;
    while j < b.len()
        invariant
            spans_wf(b@),
            0 <= j <= b.len(),
            spans_wf(out@),
            prev == if j == 0 {
                MAX_ID + 1
            } else {
                b@[j - 1].low as int
            },
            out.len() > 0 ==> prev < out@.last().low,
            forall|x: u64| spans_contain(out@, x) <==> (prev <= x <= MAX_ID && !spans_contain(
                b@.take(j as int),
                x,
            )),
            forall|x: u64| #[trigger] spans_contain(b@.take(j as int), x) ==> prev <= x,
        decreases b.len() - j,
    {
        let s = b[j];
        let ghost old_out = out@;
        let ghost old_prev = prev;
        proof {
            assert(span_wf(b@[j as int]));
            if j > 0 {
                assert(b@[j as int].high + 1 < b@[j - 1].low);
            }
        }
        let t = IdSpan { low: s.high + 1, high: (prev - 1) as u64 };
        if s.high + 1 < prev {
            out.push(t);
            proof {
                assert forall|k: int| 0 < k < out@.len() implies #[trigger] out@[k].high + 1
                    < out@[k - 1].low by {
                    if k < out@.len() - 1 {
                        assert(old_out[k].high + 1 < old_out[k - 1].low);
                    }
                }
            }
        }
        prev = s.low;
        proof {
            assert forall|x: u64| spans_contain(out@, x) <==> (prev <= x <= MAX_ID
                && !spans_contain(b@.take(j + 1), x)) by {
                lemma_contain_push(old_out, t, x);
                lemma_contain_take_next(b@, j as int, x);
            }
            assert forall|x: u64| #[trigger] spans_contain(b@.take(j + 1), x) implies prev <= x by {
                lemma_contain_take_next(b@, j as int, x);
            }
        }
        j = j + 1;
    }
    let ghost mid = out@;
    let t = IdSpan {
        low: 0,
        high: if prev > 0 {
            prev - 1
        } else {
            0
        },
    };
    if prev > 0 {
        out.push(t);
        proof {
            assert forall|k: int| 0 < k < out@.len() implies #[trigger] out@[k].high + 1 < out@[k
                - 1].low by {
                if k < out@.len() - 1 {
                    assert(mid[k].high + 1 < mid[k - 1].low);
                }
            }
        }
    }
    proof {
        assert(b@.take(j as int) =~= b@);
        assert forall|x: u64| spans_contain(out@, x) <==> (x <= MAX_ID && !spans_contain(b@, x)) by {
            lemma_contain_push(mid, t, x);
        }
    }
    out
}

impl View for IdSet {
    type V = Seq<u64>;

    /// The ids of the set, from high to low.
    open spec fn view(&self) -> Seq<u64> {
        ids_of(self.span_seq())
    }
}

impl IdSet {
    /// The spans of the set, from high to low.
    pub closed spec fn span_seq(&self) -> Seq<IdSpan> {
        self.spans@
    }

    pub open spec fn wf(&self) -> bool {
        spans_wf(self.span_seq())
    }

    /// The set of ids that the set holds.
    pub open spec fn id_set(&self) -> Set<u64> {
        self@.to_set()
    }

    /// What a well-formed set's ids are known to be.
    pub proof fn lemma_wf(&self)
        requires
            self.wf(),
        ensures
            strictly_desc(self@),
            self@.len() <= MAX_ID + 1,
            forall|x: u64| #[trigger] self@.contains(x) ==> x <= MAX_ID,
            forall|x: u64| self@.contains(x) <==> spans_contain(self.span_seq(), x),
    {
        lemma_ids_of_desc(self.span_seq());
        assert forall|x: u64| self@.contains(x) <==> spans_contain(self.span_seq(), x) by {
            lemma_ids_of_contains(self.span_seq(), x);
        }
        let s = self.span_seq();
        assert forall|x: u64| #[trigger] self@.contains(x) implies x <= MAX_ID by {
            let i = choose|i: int| 0 <= i < s.len() && #[trigger] in_span(s[i], x);
            assert(span_wf(s[i]));
        }
        if s.len() > 0 {
            assert(span_wf(s[0]));
        }
    }

    /// A copy of the set.
    pub fn duplicate(&self) -> (r: IdSet)
        ensures
            r.span_seq() == self.span_seq(),
            r.wf() == self.wf(),
            r@ == self@,
    {
        let spans = self.spans.clone();
        proof {
            assert(spans@ =~= self.spans@);
        }
        IdSet { spans }
    }

    /// The empty set.
    pub fn new() -> (r: IdSet)
        ensures
            r.wf(),
            r@ == Seq::<u64>::empty(),
    {
        IdSet { spans: Vec::new() }
    }

    /// The set of the ids of one span.
    pub fn from_span(span: IdSpan) -> (r: IdSet)
        requires
            span_wf(span),
        ensures
            r.wf(),
            r@ == span_ids(span),
    {
        let mut spans: Vec<IdSpan> = Vec::new();
        spans.push(span);
        let r = IdSet { spans };
        proof {
            assert(r.span_seq().drop_last() =~= Seq::<IdSpan>::empty());
            assert(ids_of(Seq::<IdSpan>::empty()) == Seq::<u64>::empty());
            assert(ids_of(r.span_seq()) =~= span_ids(span));
        }
        r
    }

    /// The spans of the set, from high to low.
    pub fn as_spans(&self) -> (r: &Vec<IdSpan>)
        ensures
            r@ == self.span_seq(),
    {
        &self.spans
    }

    pub fn is_empty(&self) -> (r: bool)
        requires
            self.wf(),
        ensures
            r == (self@.len() == 0),
    {
        proof {
            lemma_ids_of_desc(self.span_seq());
        }
        self.spans.len() == 0
    }

    /// Number of ids in the set.
    pub fn count(&self) -> (r: u64)
        requires
            self.wf(),
        ensures
            r == self@.len(),
    {
        let mut total: u64 = 0;
        let mut i: usize = 0;
        while i < self.spans.len()
            invariant
                self.wf(),
                0 <= i <= self.spans.len(),
                total == ids_of(self.spans@.take(i as int)).len(),
            decreases self.spans.len() - i,
        {
            let s = self.spans[i];
            proof {
                lemma_ids_of_take_next(self.spans@, i as int);
                lemma_spans_wf_take(self.spans@, i as int + 1);
                lemma_ids_of_desc(self.spans@.take(i as int + 1));
                assert(span_wf(self.spans@[i as int]));
                assert(self.spans@.take(i as int + 1)[0] == self.spans@[0]);
                assert(span_wf(self.spans@[0]));
            }
            total = total + (s.high - s.low + 1);
            i = i + 1;
        }
        proof {
            assert(self.spans@.take(i as int) =~= self.spans@);
        }
        total
    }

    /// The largest id, if any.
    pub fn max(&self) -> (r: Option<u64>)
        requires
            self.wf(),
        ensures
            self@.len() == 0 ==> r is None,
            self@.len() > 0 ==> r == Some(self@[0]),
    {
        proof {
            lemma_ids_of_desc(self.span_seq());
        }
        if self.spans.len() == 0 {
            None
        } else {
            Some(self.spans[0].high)
        }
    }

    /// The smallest id, if any.
    pub fn min(&self) -> (r: Option<u64>)
        requires
            self.wf(),
        ensures
            self@.len() == 0 ==> r is None,
            self@.len() > 0 ==> r == Some(self@.last()),
    {
        proof {
            lemma_ids_of_desc(self.span_seq());
        }
        if self.spans.len() == 0 {
            None
        } else {
            Some(self.spans[self.spans.len() - 1].low)
        }
    }

    /// Whether `id` is in the set. Works for ids of any group.
    pub fn contains(&self, id: u64) -> (r: bool)
        requires
            self.wf(),
        ensures
            r == self@.contains(id),
    {
        proof {
            self.lemma_wf();
        }
        let mut i: usize = 0;
        while i < self.spans.len()
            invariant
                self.wf(),
                0 <= i <= self.spans.len(),
                !spans_contain(self.spans@.take(i as int), id),
            decreases self.spans.len() - i,
        {
            proof {
                lemma_contain_take_next(self.spans@, i as int, id);
            }
            let s = self.spans[i];
            if s.low <= id && id <= s.high {
                proof {
                    assert(in_span(self.spans@[i as int], id));
                    assert(spans_contain(self.spans@, id));
                    lemma_ids_of_contains(self.spans@, id);
                }
                return true;
            }
            i = i + 1;
        }
        proof {
            assert(self.spans@.take(i as int) =~= self.spans@);
            lemma_ids_of_contains(self.spans@, id);
        }
        false
    }

    /// The set without its `n` highest ids.
    pub fn skip(&self, n: u64) -> (r: IdSet)
        requires
            self.wf(),
        ensures
            r.wf(),
            r@ == skip_ids(self@, n as int),
    {
        let mut out: Vec<IdSpan> = Vec::new();
        let mut rem: u64 = n;
        let mut i: usize = 0;
        let ghost spans = self.spans@;
        while i < self.spans.len()
            invariant
                spans == self.spans@,
                spans_wf(spans),
                0 <= i <= spans.len(),
                spans_wf(out@),
                out.len() > 0 ==> i > 0 && out@.last().low == spans[i - 1].low,
                rem as int == if n >= ids_of(spans.take(i as int)).len() {
                    n - ids_of(spans.take(i as int)).len()
                } else {
                    0
                },
                ids_of(out@) == skip_ids(ids_of(spans.take(i as int)), n as int),
            decreases spans.len() - i,
        {
            let s = self.spans[i];
            let ghost p = ids_of(spans.take(i as int));
            proof {
                lemma_ids_of_take_next(spans, i as int);
                assert(span_wf(spans[i as int]));
                if i > 0 {
                    assert(spans[i as int].high + 1 < spans[i - 1].low);
                }
            }
            let len = s.high - s.low + 1;
            proof {
                lemma_skip_concat(p, span_ids(s), n as int);
            }
            if rem >= len {
                proof {
                    lemma_ids_of_desc(out@);
                }
                rem = rem - len;
            } else if rem > 0 {
                let t = IdSpan { low: s.low, high: s.high - rem };
                proof {
                    lemma_ids_of_push(out@, t);
                    assert(out@.len() == 0) by {
                        lemma_ids_of_desc(out@);
                    }
                    assert(ids_of(out@) == Seq::<u64>::empty());
                    assert(span_ids(t) =~= span_ids(s).skip(rem as int));
                }
                out.push(t);
                rem = 0;
            } else {
                proof {
                    lemma_ids_of_push(out@, s);
                }
                out.push(s);
            }
            i = i + 1;
        }
        proof {
            assert(spans.take(i as int) =~= spans);
        }
        IdSet { spans: out }
    }

    /// The set of its `n` highest ids.
    pub fn take(&self, n: u64) -> (r: IdSet)
        requires
            self.wf(),
        ensures
            r.wf(),
            r@ == take_ids(self@, n as int),
    {
        let mut out: Vec<IdSpan> = Vec::new();
        let mut rem: u64 = n;
        let mut i: usize = 0;
        let ghost spans = self.spans@;
        while i < self.spans.len()
            invariant
                spans == self.spans@,
                spans_wf(spans),
                0 <= i <= spans.len(),
                spans_wf(out@),
                out.len() > 0 ==> i > 0 && out@.last().low >= spans[i - 1].low,
                rem as int == if n >= ids_of(spans.take(i as int)).len() {
                    n - ids_of(spans.take(i as int)).len()
                } else {
                    0
                },
                ids_of(out@) == take_ids(ids_of(spans.take(i as int)), n as int),
            decreases spans.len() - i,
        {
            let s = self.spans[i];
            proof {
                lemma_ids_of_take_next(spans, i as int);
                assert(span_wf(spans[i as int]));
                if i > 0 {
                    assert(spans[i as int].high + 1 < spans[i - 1].low);
                }
            }
            let len = s.high - s.low + 1;
            proof {
                lemma_take_concat(ids_of(spans.take(i as int)), span_ids(s), n as int);
            }
            if rem == 0 {
            } else if rem >= len {
                proof {
                    lemma_ids_of_push(out@, s);
                }
                out.push(s);
                rem = rem - len;
            } else {
                let t = IdSpan { low: s.high - rem + 1, high: s.high };
                proof {
                    lemma_ids_of_push(out@, t);
                    assert(span_ids(t) =~= span_ids(s).take(rem as int));
                }
                out.push(t);
                rem = 0;
            }
            i = i + 1;
        }
        proof {
            assert(spans.take(i as int) =~= spans);
        }
        IdSet { spans: out }
    }

    proof fn lemma_id_set(&self)
        requires
            all_spans_wf(self.span_seq()),
        ensures
            forall|x: u64| #[trigger] self.id_set().contains(x) <==> spans_contain(self.span_seq(), x),
    {
        assert forall|x: u64| #[trigger] self.id_set().contains(x) <==> spans_contain(
            self.span_seq(),
            x,
        ) by {
            lemma_ids_of_contains(self.span_seq(), x);
        }
    }

    /// The ids in either set.
    pub fn union(&self, other: &IdSet) -> (r: IdSet)
        requires
            self.wf(),
            other.wf(),
        ensures
            r.wf(),
            r.id_set() == self.id_set().union(other.id_set()),
    {
        let merged = merge_by_high(&self.spans, &other.spans);
        let r = IdSet { spans: normalize(&merged) };
        proof {
            self.lemma_id_set();
            other.lemma_id_set();
            r.lemma_id_set();
            assert(r.id_set() =~= self.id_set().union(other.id_set()));
        }
        r
    }

    /// The ids in both sets.
    pub fn intersection(&self, other: &IdSet) -> (r: IdSet)
        requires
            self.wf(),
            other.wf(),
        ensures
            r.wf(),
            r.id_set() == self.id_set().intersect(other.id_set()),
    {
        let both = intersect_spans(&self.spans, &other.spans);
        let r = IdSet { spans: normalize(&both) };
        proof {
            self.lemma_id_set();
            other.lemma_id_set();
            r.lemma_id_set();
            assert(r.id_set() =~= self.id_set().intersect(other.id_set()));
        }
        r
    }

    /// The ids in `self` but not in `other`.
    pub fn difference(&self, other: &IdSet) -> (r: IdSet)
        requires
            self.wf(),
            other.wf(),
        ensures
            r.wf(),
            r.id_set() == self.id_set().difference(other.id_set()),
    {
        let outside = complement_spans(&other.spans);
        let both = intersect_spans(&self.spans, &outside);
        let r = IdSet { spans: normalize(&both) };
        proof {
            self.lemma_id_set();
            other.lemma_id_set();
            r.lemma_id_set();
            assert forall|x: u64| spans_contain(self.span_seq(), x) implies x <= MAX_ID by {
                let i = choose|i: int| 0 <= i < self.spans@.len() && #[trigger] in_span(self.spans@[i], x);
                assert(span_wf(self.spans@[i]));
            }
            assert(r.id_set() =~= self.id_set().difference(other.id_set()));
        }
        r
    }

    /// The set of the ids of the given spans, in any order, touching or overlapping.
    pub fn from_spans(spans: &Vec<IdSpan>) -> (r: IdSet)
        requires
            all_spans_wf(spans@),
        ensures
            r.wf(),
            forall|x: u64| #[trigger] r.id_set().contains(x) <==> spans_contain(spans@, x),
    {
        let mut r = IdSet::new();
        let mut i: usize = 0;
        while i < spans.len()
            invariant
                0 <= i <= spans.len(),
                all_spans_wf(spans@),
                r.wf(),
                forall|x: u64| #[trigger] r.id_set().contains(x) <==> spans_contain(spans@.take(i as int), x),
            decreases spans.len() - i,
        {
            proof {
                assert(span_wf(spans@[i as int]));
            }
            let one = IdSet::from_span(spans[i]);
            proof {
                one.lemma_id_set();
                assert forall|x: u64| #[trigger] one.id_set().contains(x) <==> in_span(spans@[i as int], x) by {
                    lemma_span_ids_contains(spans@[i as int], x);
                }
            }
            let next = r.union(&one);
            proof {
                assert forall|x: u64| #[trigger] next.id_set().contains(x) <==> spans_contain(spans@.take(i + 1), x) by {
                    lemma_contain_take_next(spans@, i as int, x);
                }
            }
            r = next;
            i = i + 1;
        }
        proof {
            assert(spans@.take(i as int) =~= spans@);
        }
        r
    }
}

/// Skipping no id and then taking `u64::MAX` ids gives back the same ids.
pub proof fn lemma_skip_zero_take_all(s: IdSet)
    requires
        s.wf(),
    ensures
        take_ids(skip_ids(s@, 0), u64::MAX as int) == s@,
{
    s.lemma_wf();
    assert(skip_ids(s@, 0) =~= s@);
}

/// A walk over the ids of an `IdSet`, from high to low or from low to high.
pub struct IdSetIter {
    set: IdSet,
    asc: bool,
    si: usize,
    off: u64,
    left: u64,
}

impl IdSetIter {
    pub closed spec fn spec_set(&self) -> IdSet {
        self.set
    }

    pub closed spec fn spec_asc(&self) -> bool {
        self.asc
    }

    /// The ids that the walk has yet to yield, in order.
    pub closed spec fn remaining(&self) -> Seq<u64> {
        let d = self.set@;
        if self.asc {
            Seq::new(self.left as nat, |i: int| d[self.left - 1 - i])
        } else {
            d.subrange(d.len() - self.left, d.len() as int)
        }
    }

    pub closed spec fn wf(&self) -> bool {
        let d = self.set@;
        let sp = self.set.span_seq();
        &&& self.set.wf()
        &&& self.left <= d.len()
        &&& self.left > 0 ==> {
            &&& self.si < sp.len()
            &&& self.off < span_len(sp[self.si as int])
            &&& ids_of(sp.take(self.si as int)).len() + self.off == if self.asc {
                self.left - 1
            } else {
                d.len() - self.left
            }
        }
    }

    /// A walk over the ids of `set`: from low to high when `asc`, else from high to low.
    pub fn new(set: IdSet, asc: bool) -> (r: IdSetIter)
        requires
            set.wf(),
        ensures
            r.wf(),
            r.remaining() == (if asc {
                Seq::new(set@.len(), |i: int| set@[set@.len() - 1 - i])
            } else {
                set@
            }),
    {
        proof {
            set.lemma_wf();
            lemma_ids_of_desc(set.spans@);
        }
        let left = set.count();
        let n = set.spans.len();
        let mut r = IdSetIter { set, asc, si: 0, off: 0, left };
        if n > 0 {
            if asc {
                let last = r.set.spans[n - 1];
                r.si = n - 1;
                r.off = last.high - last.low;
                proof {
                    let sp = r.set.spans@;
                    assert(span_wf(sp[n - 1]));
                    assert(sp.take(n as int) =~= sp);
                    lemma_ids_of_take_next(sp, n - 1);
                }
            } else {
                proof {
                    assert(span_wf(r.set.spans@[0]));
                    assert(r.set.spans@.take(0) =~= Seq::<IdSpan>::empty());
                }
            }
        }
        proof {
            let d = r.set@;
            if asc {
                assert(r.remaining() =~= Seq::new(d.len(), |i: int| d[d.len() - 1 - i]));
            } else {
                assert(r.remaining() =~= d);
            }
        }
        r
    }

    /// The next id of the walk.
    #[verifier::rlimit(40)]
    pub fn next(&mut self) -> (r: Option<u64>)
        requires
            old(self).wf(),
        ensures
            final(self).wf(),
            final(self).spec_asc() == old(self).spec_asc(),
            old(self).remaining().len() == 0 ==> r is None,
            old(self).remaining().len() == 0 ==> final(self).remaining() == old(self).remaining(),
            old(self).remaining().len() > 0 ==> r == Some(old(self).remaining()[0]),
            old(self).remaining().len() > 0 ==> final(self).remaining() == old(self).remaining().drop_first(),
    {
        if self.left == 0 {
            return None;
        }
        let ghost d = self.set@;
        let ghost sp = self.set.span_seq();
        let ghost old_self = *self;
        let n = self.set.spans.len();
        let s = self.set.spans[self.si];
        proof {
            assert(span_wf(sp[self.si as int]));
            lemma_ids_of_index(sp, self.si as int, self.off as int);
        }
        let id = s.high - self.off;
        self.left = self.left - 1;
        if self.left > 0 {
            if self.asc {
                if self.off == 0 {
                    self.si = self.si - 1;
                    let p = self.set.spans[self.si];
                    self.off = p.high - p.low;
                    proof {
                        assert(span_wf(sp[self.si as int]));
                        lemma_ids_of_take_next(sp, self.si as int);
                    }
                } else {
                    self.off = self.off - 1;
                }
            } else {
                if self.off == s.high - s.low {
                    proof {
                        lemma_ids_of_take_next(sp, self.si as int);
                        lemma_ids_of_prefix(sp, self.si + 1);
                        if self.si + 1 == sp.len() {
                            assert(sp.take(self.si + 1) =~= sp);
                        }
                    }
                    assert(self.si < n);
                    self.si = self.si + 1;
                    self.off = 0;
                    proof {
                        assert(span_wf(sp[self.si as int]));
                    }
                } else {
                    self.off = self.off + 1;
                }
            }
        }
        proof {
            assert(self.remaining() =~= old_self.remaining().drop_first());
        }
        Some(id)
    }
}

} // verus!
