use vstd::prelude::*;

use crate::id_static::IdStaticSet;
use crate::resolve::{lemma_walk_split, Step};
use crate::set::{LazySet, UnionOrder};
use crate::vertex::Vertex;

verus! {

/// The names of a list of vertices.
pub open spec fn names_of(v: Seq<Vertex>) -> Seq<Seq<u8>> {
    Seq::new(v.len(), |i: int| v[i]@)
}

/// The names of `a` that `b` holds (when `keep`) or lacks (otherwise), in order.
pub open spec fn keep_in(a: Seq<Seq<u8>>, b: Seq<Seq<u8>>, keep: bool) -> Seq<Seq<u8>>
    decreases a.len(),
{
    if a.len() == 0 {
        a
    } else {
        let d = keep_in(a.drop_last(), b, keep);
        if b.contains(a.last()) == keep {
            d.push(a.last())
        } else {
            d
        }
    }
}

/// The first `n` rounds of taking one name from `a`, then one from `b`.
pub open spec fn zip_prefix(a: Seq<Seq<u8>>, b: Seq<Seq<u8>>, n: nat) -> Seq<Seq<u8>>
    decreases n,
{
    if n == 0 {
        Seq::empty()
    } else {
        let k = n - 1;
        zip_prefix(a, b, k as nat) + (if k < a.len() {
            seq![a[k]]
        } else {
            Seq::empty()
        }) + (if k < b.len() {
            seq![b[k]]
        } else {
            Seq::empty()
        })
    }
}

/// `a` and `b` taken in turn, one name each, until both run out.
pub open spec fn interleave(a: Seq<Seq<u8>>, b: Seq<Seq<u8>>) -> Seq<Seq<u8>> {
    zip_prefix(a, b, if a.len() < b.len() { b.len() } else { a.len() })
}

pub open spec fn rev_names(s: Seq<Seq<u8>>) -> Seq<Seq<u8>> {
    Seq::new(s.len(), |i: int| s[s.len() - 1 - i])
}

/// The names left after skipping `skip` and keeping up to `take` (all when `None`).
pub open spec fn slice_names(s: Seq<Seq<u8>>, skip: u64, take: Option<u64>) -> Seq<Seq<u8>> {
    let lo = if skip < s.len() {
        skip as int
    } else {
        s.len() as int
    };
    let hi = match take {
        Some(t) => if lo + t < s.len() {
            lo + t
        } else {
            s.len() as int
        },
        None => s.len() as int,
    };
    s.subrange(lo, hi)
}

/// The names of `ids` in `m`, when `m` knows them all.
pub open spec fn id_names(m: Map<u64, Seq<u8>>, ids: Seq<u64>) -> Option<Seq<Seq<u8>>> {
    if forall|i: int| 0 <= i < ids.len() ==> m.contains_key(#[trigger] ids[i]) {
        Some(Seq::new(ids.len(), |i: int| m[ids[i]]))
    } else {
        None
    }
}

proof fn lemma_names_push(v: Seq<Vertex>, x: Vertex)
    ensures
        names_of(v.push(x)) == names_of(v).push(x@),
{
    assert(names_of(v.push(x)) =~= names_of(v).push(x@));
}

proof fn lemma_names_take_next(v: Seq<Vertex>, i: int)
    requires
        0 <= i < v.len(),
    ensures
        names_of(v.take(i + 1)) == names_of(v.take(i)).push(v[i]@),
{
    assert(names_of(v.take(i + 1)) =~= names_of(v.take(i)).push(v[i]@));
}

/// Whether one of the first `n` vertices of `v` has the name of `x`.
fn contains_name(v: &Vec<Vertex>, n: usize, x: &Vertex) -> (r: bool)
    requires
        n <= v.len(),
    ensures
        r == names_of(v@.take(n as int)).contains(x@),
{
    let mut i: usize = 0;
    while i < n
        invariant
            0 <= i <= n <= v.len(),
            forall|k: int| 0 <= k < i ==> v@[k]@ != x@,
        decreases n - i,
    {
        if v[i].same_as(x) {
            proof {
                assert(names_of(v@.take(n as int))[i as int] == x@);
            }
            return true;
        }
        i = i + 1;
    }
    proof {
        if names_of(v@.take(n as int)).contains(x@) {
            let k = choose|k: int| 0 <= k < n && names_of(v@.take(n as int))[k] == x@;
            assert(v@[k]@ == x@);
        }
    }
    false
}

fn keep_vec(a: &Vec<Vertex>, b: &Vec<Vertex>, keep: bool) -> (r: Vec<Vertex>)
    ensures
        names_of(r@) == keep_in(names_of(a@), names_of(b@), keep),
{
    let mut out: Vec<Vertex> = Vec::new();
    let mut i: usize = 0;
    proof {
        assert(names_of(a@.take(0)) =~= Seq::<Seq<u8>>::empty());
        assert(names_of(out@) =~= Seq::<Seq<u8>>::empty());
    }
    while i < a.len()
        invariant
            0 <= i <= a.len(),
            names_of(out@) == keep_in(names_of(a@.take(i as int)), names_of(b@), keep),
        decreases a.len() - i,
    {
        let found = contains_name(b, b.len(), &a[i]);
        proof {
            assert(b@.take(b@.len() as int) =~= b@);
            lemma_names_take_next(a@, i as int);
            let p = names_of(a@.take(i + 1));
            assert(p.drop_last() =~= names_of(a@.take(i as int)));
        }
        if found == keep {
            proof {
                lemma_names_push(out@, a@[i as int]);
            }
            out.push(a[i].duplicate());
        }
        i = i + 1;
    }
    proof {
        assert(a@.take(i as int) =~= a@);
    }
    out
}

fn concat_vec(a: &Vec<Vertex>, b: &Vec<Vertex>) -> (r: Vec<Vertex>)
    ensures
        names_of(r@) == names_of(a@) + names_of(b@),
{
    let mut out: Vec<Vertex> = Vec::new();
    let mut i: usize = 0;
    while i < a.len()
        invariant
            0 <= i <= a.len(),
            names_of(out@) == names_of(a@.take(i as int)),
        decreases a.len() - i,
    {
        proof {
            lemma_names_push(out@, a@[i as int]);
            lemma_names_take_next(a@, i as int);
        }
        out.push(a[i].duplicate());
        i = i + 1;
    }
    let mut j: usize = 0;
    proof {
        assert(a@.take(i as int) =~= a@);
    }
    while j < b.len()
        invariant
            0 <= j <= b.len(),
            names_of(out@) == names_of(a@) + names_of(b@.take(j as int)),
        decreases b.len() - j,
    {
        proof {
            lemma_names_push(out@, b@[j as int]);
            lemma_names_take_next(b@, j as int);
            assert(names_of(a@) + names_of(b@.take(j + 1)) =~= (names_of(a@) + names_of(
                b@.take(j as int),
            )).push(b@[j as int]@));
        }
        out.push(b[j].duplicate());
        j = j + 1;
    }
    proof {
        assert(b@.take(j as int) =~= b@);
    }
    out
}

fn interleave_vec(a: &Vec<Vertex>, b: &Vec<Vertex>) -> (r: Vec<Vertex>)
    ensures
        names_of(r@) == interleave(names_of(a@), names_of(b@)),
{
    let n = if a.len() < b.len() {
        b.len()
    } else {
        a.len()
    };
    let mut out: Vec<Vertex> = Vec::new();
    let mut k: usize = 0;
    proof {
        assert(names_of(out@) =~= zip_prefix(names_of(a@), names_of(b@), 0));
    }
    while k < n
        invariant
            0 <= k <= n,
            n == if a.len() < b.len() { b.len() } else { a.len() },
            names_of(out@) == zip_prefix(names_of(a@), names_of(b@), k as nat),
        decreases n - k,
    {
        let ghost before = names_of(out@);
        if k < a.len() {
            proof {
                lemma_names_push(out@, a@[k as int]);
            }
            out.push(a[k].duplicate());
        }
        let ghost mid = names_of(out@);
        if k < b.len() {
            proof {
                lemma_names_push(out@, b@[k as int]);
            }
            out.push(b[k].duplicate());
        }
        proof {
            let na = names_of(a@);
            let nb = names_of(b@);
            assert(names_of(out@) =~= zip_prefix(na, nb, k as nat) + (if k < na.len() {
                seq![na[k as int]]
            } else {
                Seq::empty()
            }) + (if k < nb.len() {
                seq![nb[k as int]]
            } else {
                Seq::empty()
            }));
        }
        k = k + 1;
    }
    out
}

fn reverse_vec(a: &Vec<Vertex>) -> (r: Vec<Vertex>)
    ensures
        names_of(r@) == rev_names(names_of(a@)),
{
    let mut out: Vec<Vertex> = Vec::new();
    let mut k: usize = a.len();
    while k > 0
        invariant
            0 <= k <= a.len(),
            names_of(out@) == rev_names(names_of(a@)).take(a.len() - k),
        decreases k,
    {
        proof {
            lemma_names_push(out@, a@[k - 1]);
            assert(rev_names(names_of(a@)).take(a.len() - k + 1) =~= rev_names(names_of(a@)).take(
                a.len() - k,
            ).push(a@[k - 1]@));
        }
        out.push(a[k - 1].duplicate());
        k = k - 1;
    }
    proof {
        assert(rev_names(names_of(a@)).take(a.len() as int) =~= rev_names(names_of(a@)));
    }
    out
}

fn slice_vec(a: &Vec<Vertex>, skip: u64, take: Option<u64>) -> (r: Vec<Vertex>)
    ensures
        names_of(r@) == slice_names(names_of(a@), skip, take),
{
    let len = a.len();
    let lo: usize = if (skip as u128) < (len as u128) {
        skip as usize
    } else {
        len
    };
    let hi: usize = match take {
        Some(t) => if (lo as u128) + (t as u128) < (len as u128) {
            (lo as u128 + t as u128) as usize
        } else {
            len
        },
        None => len,
    };
    let mut out: Vec<Vertex> = Vec::new();
    let mut i: usize = lo;
    while i < hi
        invariant
            lo <= i <= hi <= a.len(),
            names_of(out@) == names_of(a@).subrange(lo as int, i as int),
        decreases hi - i,
    {
        proof {
            lemma_names_push(out@, a@[i as int]);
            assert(names_of(a@).subrange(lo as int, i + 1) =~= names_of(a@).subrange(lo as int, i as int).push(
                a@[i as int]@,
            ));
        }
        out.push(a[i].duplicate());
        i = i + 1;
    }
    proof {
        assert(names_of(out@) =~= slice_names(names_of(a@), skip, take));
    }
    out
}

/// The names of the ids of `s` in iteration order, when its map knows them all.
fn id_static_names(s: &IdStaticSet) -> (r: Option<Vec<Vertex>>)
    requires
        s.wf(),
    ensures
        match id_names(s.spec_map()@, s.ids()) {
            Some(m) => r matches Some(v) && names_of(v@) == m,
            None => r is None,
        },
{
    let mut it = s.iter(1);
    let mut out: Vec<Vertex> = Vec::new();
    let ghost m = s.spec_map()@;
    let ghost ids = s.ids();
    loop
        invariant
            it.wf(),
            !it.awaiting(),
            !it.is_finished(),
            it.spec_map() == s.spec_map(),
            it.spec_walk() == ids,
            it.spec_batch().len() == 0,
            m == s.spec_map()@,
            ids == s.ids(),
            out@.len() == it.spec_yielded().len(),
            forall|k: int| 0 <= k < out@.len() ==> m.contains_key(#[trigger] it.spec_yielded()[k]) && out@[k]@
                == m[it.spec_yielded()[k]],
        decreases it.upcoming().len(),
    {
        let ghost before = it;
        proof {
            lemma_walk_split(it);
        }
        match it.next_step() {
            Step::Vertex(v) => {
                out.push(v);
            },
            Step::Done => {
                proof {
                    assert(before.upcoming().len() == 0);
                    assert(before.spec_yielded() + before.upcoming() =~= before.spec_yielded());
                    assert(it.spec_yielded() == ids);
                    assert(forall|i: int| 0 <= i < ids.len() ==> m.contains_key(#[trigger] ids[i]));
                    assert(names_of(out@) =~= Seq::new(ids.len(), |i: int| m[ids[i]]));
                    assert(id_names(m, ids) == Some(names_of(out@)));
                    assert(id_names(s.spec_map()@, s.ids()) == Some(names_of(out@)));
                }
                return Some(out);
            },
            Step::ResolveBatch(_) => {
                proof {
                    let k = before.spec_yielded().len() as int;
                    assert(ids[k] == before.upcoming()[0]);
                    assert(!m.contains_key(ids[k]));
                    assert(id_names(m, ids) is None);
                    assert(id_names(s.spec_map()@, s.ids()) is None);
                }
                return None;
            },
        }
    }
}

impl LazySet {
    /// The names the set yields when evaluated generically, when every id it meets is
    /// known locally: an intersection or a difference keeps the left names that the right
    /// side holds or lacks; a union yields the left names, then the new right names (or,
    /// zipped, the left names and the new right names in turn); a reversal and a slice
    /// act on the names of their operand.
    pub open spec fn vertex_model(&self) -> Option<Seq<Seq<u8>>>
        decreases self,
    {
        match self {
            LazySet::Empty => Some(Seq::empty()),
            LazySet::IdStatic(s) => id_names(s.spec_map()@, s.ids()),
            LazySet::Static(v) => Some(names_of(v@)),
            LazySet::Intersection(a, b) => match (a.vertex_model(), b.vertex_model()) {
                (Some(x), Some(y)) => Some(keep_in(x, y, true)),
                _ => None,
            },
            LazySet::Difference(a, b) => match (a.vertex_model(), b.vertex_model()) {
                (Some(x), Some(y)) => Some(keep_in(x, y, false)),
                _ => None,
            },
            LazySet::Union(a, b, o) => match (a.vertex_model(), b.vertex_model()) {
                (Some(x), Some(y)) => match o {
                    UnionOrder::LeftThenRight => Some(x + keep_in(y, x, false)),
                    UnionOrder::Zip => Some(interleave(x, keep_in(y, x, false))),
                },
                _ => None,
            },
            LazySet::Reverse(a) => match a.vertex_model() {
                Some(x) => Some(rev_names(x)),
                None => None,
            },
            LazySet::Slice(a, skip, take) => match a.vertex_model() {
                Some(x) => Some(slice_names(x, *skip, *take)),
                None => None,
            },
        }
    }

    /// Evaluates the set generically, looking names up in the local maps only; `None`
    /// when some id is not known locally.
    pub fn local_vertices(&self) -> (r: Option<Vec<Vertex>>)
        requires
            self.wf(),
        ensures
            match self.vertex_model() {
                Some(m) => r matches Some(v) && names_of(v@) == m,
                None => r is None,
            },
        decreases self,
    {
        match self {
            LazySet::Empty => {
                let v: Vec<Vertex> = Vec::new();
                proof {
                    assert(names_of(v@) =~= Seq::<Seq<u8>>::empty());
                }
                Some(v)
            },
            LazySet::IdStatic(s) => id_static_names(s),
            LazySet::Static(v) => {
                let mut out: Vec<Vertex> = Vec::new();
                let mut i: usize = 0;
                while i < v.len()
                    invariant
                        0 <= i <= v.len(),
                        names_of(out@) == names_of(v@.take(i as int)),
                    decreases v.len() - i,
                {
                    proof {
                        lemma_names_push(out@, v@[i as int]);
                        lemma_names_take_next(v@, i as int);
                    }
                    out.push(v[i].duplicate());
                    i = i + 1;
                }
                proof {
                    assert(v@.take(i as int) =~= v@);
                }
                Some(out)
            },
            LazySet::Intersection(a, b) => match (a.local_vertices(), b.local_vertices()) {
                (Some(x), Some(y)) => Some(keep_vec(&x, &y, true)),
                _ => None,
            },
            LazySet::Difference(a, b) => match (a.local_vertices(), b.local_vertices()) {
                (Some(x), Some(y)) => Some(keep_vec(&x, &y, false)),
                _ => None,
            },
            LazySet::Union(a, b, o) => match (a.local_vertices(), b.local_vertices()) {
                (Some(x), Some(y)) => match o {
                    UnionOrder::LeftThenRight => {
                        let extra = keep_vec(&y, &x, false);
                        Some(concat_vec(&x, &extra))
                    },
                    UnionOrder::Zip => {
                        let extra = keep_vec(&y, &x, false);
                        Some(interleave_vec(&x, &extra))
                    },
                },
                _ => None,
            },
            LazySet::Reverse(a) => match a.local_vertices() {
                Some(x) => Some(reverse_vec(&x)),
                None => None,
            },
            LazySet::Slice(a, skip, take) => match a.local_vertices() {
                Some(x) => Some(slice_vec(&x, *skip, *take)),
                None => None,
            },
        }
    }
}

} // verus!
