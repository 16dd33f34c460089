use vstd::prelude::*;

use crate::id::NON_MASTER_MIN_ID;
use crate::id_static::{IdStaticSet, IterationOrder};
use crate::map::IdMap;
use crate::span::IdSpan;

verus! {

/// Number of spans that `debug_string` shows before it only counts the rest.
pub const DEBUG_SPAN_LIMIT: usize = 3;

/// Names at least this long are shown as hex.
pub const HEX_NAME_LEN: usize = 20;

pub open spec fn digit_char(d: u64) -> char {
    ((48 + d) as u8) as char
}

pub open spec fn hex_char(d: u8) -> char {
    if d < 10 {
        ((48 + d) as u8) as char
    } else {
        ((87 + d) as u8) as char
    }
}

/// `n` in decimal.
pub open spec fn dec_text(n: u64) -> Seq<char>
    decreases n,
{
    if n < 10 {
        seq![digit_char(n)]
    } else {
        dec_text(n / 10).push(digit_char(n % 10))
    }
}

/// An id as text: master ids as their number, non-master ids as `N` and their offset in
/// the group.
pub open spec fn id_text(id: u64) -> Seq<char> {
    if id < NON_MASTER_MIN_ID {
        dec_text(id)
    } else {
        seq!['N'] + dec_text((id - NON_MASTER_MIN_ID) as u64)
    }
}

pub open spec fn printable(b: u8) -> bool {
    0x20 <= b && b <= 0x7e
}

/// The bytes of `s` in lowercase hex, two digits each.
pub open spec fn hex_text(s: Seq<u8>) -> Seq<char>
    decreases s.len(),
{
    if s.len() == 0 {
        Seq::empty()
    } else {
        hex_text(s.drop_last()) + seq![hex_char(s.last() / 16), hex_char(s.last() % 16)]
    }
}

/// A vertex name as text: short printable names as they are, others in hex.
pub open spec fn name_text(s: Seq<u8>) -> Seq<char> {
    if s.len() < HEX_NAME_LEN && forall|i: int| 0 <= i < s.len() ==> printable(#[trigger] s[i]) {
        Seq::new(s.len(), |i: int| s[i] as char)
    } else {
        hex_text(s)
    }
}

/// A span as text, with the names that `names` knows for its ends.
pub open spec fn span_text(s: IdSpan, names: Map<u64, Seq<u8>>) -> Seq<char> {
    if s.low == s.high {
        if names.contains_key(s.low) {
            name_text(names[s.low]) + seq!['+'] + id_text(s.low)
        } else {
            id_text(s.low)
        }
    } else if names.contains_key(s.low) && names.contains_key(s.high) {
        name_text(names[s.low]) + seq![':'] + name_text(names[s.high]) + seq!['+'] + id_text(s.low)
            + seq![':'] + id_text(s.high)
    } else {
        id_text(s.low) + seq![':'] + id_text(s.high)
    }
}

/// Spans as text, separated by `", "`.
pub open spec fn spans_text(spans: Seq<IdSpan>, names: Map<u64, Seq<u8>>) -> Seq<char>
    decreases spans.len(),
{
    if spans.len() == 0 {
        Seq::empty()
    } else if spans.len() == 1 {
        span_text(spans[0], names)
    } else {
        spans_text(spans.drop_last(), names) + seq![',', ' '] + span_text(spans.last(), names)
    }
}

/// `<spans [..]>` with the first `limit` spans, a count of the others, and ` +` for
/// ascending order.
pub open spec fn set_text(
    spans: Seq<IdSpan>,
    names: Map<u64, Seq<u8>>,
    limit: nat,
    asc: bool,
) -> Seq<char> {
    let shown = if spans.len() > limit {
        spans.take(limit as int)
    } else {
        spans
    };
    let rest: nat = if spans.len() > limit {
        (spans.len() - limit) as nat
    } else {
        0
    };
    seq!['<', 's', 'p', 'a', 'n', 's', ' ', '['] + spans_text(shown, names) + seq![']'] + more_text(
        rest,
    ) + order_text(asc) + seq!['>']
}

/// How many spans were left out.
pub open spec fn more_text(rest: nat) -> Seq<char> {
    if rest == 0 {
        Seq::<char>::empty()
    } else if rest == 1 {
        seq![' ', '+', ' ', '1', ' ', 's', 'p', 'a', 'n']
    } else {
        seq![' ', '+', ' '] + dec_text(rest as u64) + seq![' ', 's', 'p', 'a', 'n', 's']
    }
}

/// ` +` marks ascending order.
pub open spec fn order_text(asc: bool) -> Seq<char> {
    if asc {
        seq![' ', '+']
    } else {
        Seq::empty()
    }
}

fn push_more(out: &mut Vec<char>, rest: usize)
    ensures
        final(out)@ == old(out)@ + more_text(rest as nat),
{
    if rest == 1 {
        out.push(' ');
        out.push('+');
        out.push(' ');
        out.push('1');
        out.push(' ');
        out.push('s');
        out.push('p');
        out.push('a');
        out.push('n');
    } else if rest > 1 {
        out.push(' ');
        out.push('+');
        out.push(' ');
        push_dec(out, rest as u64);
        out.push(' ');
        out.push('s');
        out.push('p');
        out.push('a');
        out.push('n');
        out.push('s');
    }
    proof {
        assert(final(out)@ =~= old(out)@ + more_text(rest as nat));
    }
}

fn push_order(out: &mut Vec<char>, asc: bool)
    ensures
        final(out)@ == old(out)@ + order_text(asc),
{
    if asc {
        out.push(' ');
        out.push('+');
    }
    proof {
        assert(final(out)@ =~= old(out)@ + order_text(asc));
    }
}

fn push_spans(out: &mut Vec<char>, spans: &Vec<IdSpan>, shown: usize, map: &IdMap)
    requires
        map.wf(),
        shown <= spans.len(),
    ensures
        final(out)@ == old(out)@ + spans_text(spans@.take(shown as int), map@),
{
    let ghost start = out@;
    let mut i: usize = 0;
    proof {
        assert(spans@.take(0) =~= Seq::<IdSpan>::empty());
        assert(out@ =~= start + spans_text(spans@.take(0), map@));
    }
    while i < shown
        invariant
            0 <= i <= shown <= spans.len(),
            map.wf(),
            out@ == start + spans_text(spans@.take(i as int), map@),
        decreases shown - i,
    {
        if i > 0 {
            out.push(',');
            out.push(' ');
        }
        push_span(out, spans[i], map);
        proof {
            let t = spans@.take(i + 1);
            assert(t.drop_last() =~= spans@.take(i as int));
            assert(out@ =~= start + spans_text(t, map@));
        }
        i = i + 1;
    }
}

pub(crate) fn push_dec(out: &mut Vec<char>, n: u64)
    ensures
        final(out)@ == old(out)@ + dec_text(n),
    decreases n,
{
    if n >= 10 {
        push_dec(out, n / 10);
    }
    out.push(((48 + n % 10) as u8) as char);
    proof {
        assert(final(out)@ =~= old(out)@ + dec_text(n));
    }
}

fn push_id(out: &mut Vec<char>, id: u64)
    ensures
        final(out)@ == old(out)@ + id_text(id),
{
    if id < NON_MASTER_MIN_ID {
        push_dec(out, id);
    } else {
        out.push('N');
        push_dec(out, id - NON_MASTER_MIN_ID);
        proof {
            assert(final(out)@ =~= old(out)@ + id_text(id));
        }
    }
}

fn push_hex_digit(out: &mut Vec<char>, d: u8)
    requires
        d < 16,
    ensures
        final(out)@ == old(out)@.push(hex_char(d)),
{
    if d < 10 {
        out.push((48 + d) as char);
    } else {
        out.push((87 + d) as char);
    }
}

pub(crate) fn push_name(out: &mut Vec<char>, name: &Vec<u8>)
    ensures
        final(out)@ == old(out)@ + name_text(name@),
{
    let ghost start = out@;
    let mut plain = name.len() < HEX_NAME_LEN;
    let mut i: usize = 0;
    while i < name.len()
        invariant
            0 <= i <= name.len(),
            plain == (name@.len() < HEX_NAME_LEN && forall|k: int| 0 <= k < i ==> printable(#[trigger] name@[k])),
        decreases name.len() - i,
    {
        if name[i] < 0x20 || name[i] > 0x7e {
            plain = false;
        }
        i = i + 1;
    }
    let mut j: usize = 0;
    if plain {
        while j < name.len()
            invariant
                0 <= j <= name.len(),
                out@ == start + Seq::new(j as nat, |k: int| name@[k] as char),
            decreases name.len() - j,
        {
            out.push(name[j] as char);
            j = j + 1;
            proof {
                assert(out@ =~= start + Seq::new(j as nat, |k: int| name@[k] as char));
            }
        }
    } else {
        while j < name.len()
            invariant
                0 <= j <= name.len(),
                out@ == start + hex_text(name@.take(j as int)),
            decreases name.len() - j,
        {
            let b = name[j];
            push_hex_digit(out, b / 16);
            push_hex_digit(out, b % 16);
            proof {
                assert(name@.take(j + 1).drop_last() =~= name@.take(j as int));
                assert(out@ =~= start + hex_text(name@.take(j + 1)));
            }
            j = j + 1;
        }
        proof {
            assert(name@.take(j as int) =~= name@);
        }
    }
}

fn push_span(out: &mut Vec<char>, s: IdSpan, map: &IdMap)
    requires
        map.wf(),
    ensures
        final(out)@ == old(out)@ + span_text(s, map@),
{
    let low_name = map.vertex_name_local(s.low);
    let high_name = map.vertex_name_local(s.high);
    if s.low == s.high {
        match low_name {
            Some(name) => {
                push_name(out, name.as_bytes());
                out.push('+');
                push_id(out, s.low);
            },
            None => {
                push_id(out, s.low);
            },
        }
    } else {
        match (low_name, high_name) {
            (Some(low), Some(high)) => {
                push_name(out, low.as_bytes());
                out.push(':');
                push_name(out, high.as_bytes());
                out.push('+');
                push_id(out, s.low);
                out.push(':');
                push_id(out, s.high);
            },
            _ => {
                push_id(out, s.low);
                out.push(':');
                push_id(out, s.high);
            },
        }
    }
    proof {
        assert(final(out)@ =~= old(out)@ + span_text(s, map@));
    }
}

/// Relies on std's `FromIterator<&char>` for `String`: the string holds the characters in
/// order.
#[verifier::external_body]
pub(crate) fn chars_to_string(chars: &Vec<char>) -> (r: String)
    ensures
        r@ == chars@,
{
    chars.iter().collect()
}

/// Appends the description of `s` that `debug_string_with_limit` returns.
pub(crate) fn push_id_static(out: &mut Vec<char>, s: &IdStaticSet, limit: usize)
    requires
        s.wf(),
    ensures
        final(out)@ == old(out)@ + set_text(
            s.spec_spans().span_seq(),
            s.spec_map()@,
            limit as nat,
            s.spec_order() == IterationOrder::Asc,
        ),
{
    let spans = s.id_set_losing_order().as_spans();
    let map = s.map();
    let ghost start = out@;
    out.push('<');
    out.push('s');
    out.push('p');
    out.push('a');
    out.push('n');
    out.push('s');
    out.push(' ');
    out.push('[');
    let shown = if spans.len() > limit {
        limit
    } else {
        spans.len()
    };
    push_spans(out, spans, shown, map);
    out.push(']');
    push_more(out, spans.len() - shown);
    push_order(out, s.is_reversed());
    out.push('>');
    proof {
        if spans@.len() <= limit {
            assert(spans@.take(shown as int) =~= spans@);
        }
        assert(out@ =~= start + set_text(
            s.spec_spans().span_seq(),
            s.spec_map()@,
            limit as nat,
            s.spec_order() == IterationOrder::Asc,
        ));
    }
}

impl IdStaticSet {
    /// A short description such as `<spans [A:C+0:2]>`: up to `limit` spans from high to
    /// low, each with the names that the local map knows for its ends, then a count of
    /// the other spans, and ` +` when iterating in ascending order. Looks names up
    /// locally only, and leaves out those it cannot find.
    pub fn debug_string_with_limit(&self, limit: usize) -> (r: String)
        requires
            self.wf(),
        ensures
            r@ == set_text(
                self.spec_spans().span_seq(),
                self.spec_map()@,
                limit as nat,
                self.spec_order() == IterationOrder::Asc,
            ),
    {
        let mut out: Vec<char> = Vec::new();
        push_id_static(&mut out, self, limit);
        proof {
            assert(out@ =~= Seq::<char>::empty() + out@);
        }
        chars_to_string(&out)
    }

    /// `debug_string_with_limit` with the default limit of spans.
    pub fn debug_string(&self) -> (r: String)
        requires
            self.wf(),
        ensures
            r@ == set_text(
                self.spec_spans().span_seq(),
                self.spec_map()@,
                DEBUG_SPAN_LIMIT as nat,
                self.spec_order() == IterationOrder::Asc,
            ),
    {
        self.debug_string_with_limit(DEBUG_SPAN_LIMIT)
    }
}

} // verus!
