use vstd::prelude::*;

use std::sync::Arc;

use crate::id_set::IdSetIter;
use crate::id_static::rev;
use crate::map::IdMap;
use crate::vertex::Vertex;

verus! {

/// An error met while resolving ids to vertices.
#[derive(Clone, Debug)]
pub enum DagError {
    /// The map or graph backend failed; the message comes from it.
    Backend(String),
    /// An internal invariant was violated.
    Bug(String),
}

/// What the host does next for a walk of a set.
#[derive(Debug)]
pub enum Step {
    /// The next vertex.
    Vertex(Vertex),
    /// Resolve these ids and hand their names to `feed_batch`, in the same order. The
    /// ids come in reverse walk order: the id not known locally is last.
    ResolveBatch(Vec<u64>),
    /// The walk has ended.
    Done,
}

/// Streams the vertices of a walk over ids. Ids that the local map knows are resolved
/// at once; at an id it does not know, the host is asked to resolve a batch of up to
/// `batch_size` upcoming ids in one request, and the names are buffered for the steps
/// that follow.
pub struct Iter {
    walk: IdSetIter,
    map: Arc<IdMap>,
    /// Ids of the current batch not yet handed out, in request order: the next one last.
    batch: Vec<u64>,
    /// The names of `batch`, in the same order; empty while the host owes them.
    names: Vec<Vertex>,
    awaiting: bool,
    batch_size: usize,
    finished: bool,
    /// The ids handed out so far, in order.
    yielded: Ghost<Seq<u64>>,
    /// All ids of the walk, in order.
    all: Ghost<Seq<u64>>,
}

/// What one call of `Iter::next_step` does, from state `a` to state `b`, returning `r`.
pub open spec fn step_ok(a: Iter, b: Iter, r: Step) -> bool {
    &&& b.wf()
    &&& b.spec_map() == a.spec_map()
    &&& b.spec_batch_size() == a.spec_batch_size()
    &&& b.spec_walk() == a.spec_walk()
    &&& b.is_finished() == a.is_finished()
    &&& (a.is_finished() || a.upcoming().len() == 0 <==> r is Done)
    &&& (r is Done ==> b.upcoming() == a.upcoming() && !b.awaiting() && b.spec_yielded()
        == a.spec_yielded())
    &&& (r matches Step::Vertex(v) ==> {
        let id = a.upcoming()[0];
        &&& a.upcoming().len() > 0
        &&& b.upcoming() == a.upcoming().drop_first()
        &&& b.spec_yielded() == a.spec_yielded().push(id)
        &&& !b.awaiting()
        &&& a.spec_batch().len() > 0 ==> id == a.spec_batch().last() && v == a.spec_names().last()
            && b.spec_batch() == a.spec_batch().drop_last() && b.spec_names()
            == a.spec_names().drop_last()
        &&& a.spec_batch().len() == 0 ==> a.spec_map()@.contains_key(id) && v@ == a.spec_map()@[id]
            && b.spec_batch().len() == 0
    })
    &&& (r matches Step::ResolveBatch(ids) ==> {
        let n = if a.upcoming().len() < a.spec_batch_size() {
            a.upcoming().len() as int
        } else {
            a.spec_batch_size() as int
        };
        &&& a.spec_batch().len() == 0
        &&& a.upcoming().len() > 0
        &&& !a.spec_map()@.contains_key(a.upcoming()[0])
        &&& ids@ == rev(a.upcoming().take(n))
        &&& b.spec_batch() == ids@
        &&& b.awaiting()
        &&& b.upcoming() == a.upcoming()
        &&& b.spec_yielded() == a.spec_yielded()
    })
}

/// What one call of `Iter::feed_batch` with `names` does, from state `a` to state `b`,
/// returning `r`.
pub open spec fn feed_ok(a: Iter, b: Iter, names: Result<Vec<Vertex>, DagError>, r: Result<Vertex, DagError>) -> bool {
    &&& b.wf()
    &&& b.spec_map() == a.spec_map()
    &&& b.spec_batch_size() == a.spec_batch_size()
    &&& b.spec_walk() == a.spec_walk()
    &&& !b.awaiting()
    &&& (names matches Err(e) ==> r == Err::<Vertex, DagError>(e) && b.is_finished())
    &&& (names is Ok && names->Ok_0@.len() != a.spec_batch().len() ==> (r matches Err(
        DagError::Bug(_),
    )) && b.is_finished())
    &&& (names is Ok && names->Ok_0@.len() == a.spec_batch().len() ==> {
        let v = names->Ok_0@;
        let id = a.upcoming()[0];
        &&& r == Ok::<Vertex, DagError>(v.last())
        &&& id == a.spec_batch().last()
        &&& b.is_finished() == a.is_finished()
        &&& b.upcoming() == a.upcoming().drop_first()
        &&& b.spec_yielded() == a.spec_yielded().push(id)
        &&& b.spec_batch() == a.spec_batch().drop_last()
        &&& b.spec_names() == v.drop_last()
    })
}

impl Iter {
    pub closed spec fn spec_map(&self) -> Arc<IdMap> {
        self.map
    }

    /// Ids of the current batch not yet handed out, the next one last.
    pub closed spec fn spec_batch(&self) -> Seq<u64> {
        self.batch@
    }

    /// The names the host gave for `spec_batch`, in the same order.
    pub closed spec fn spec_names(&self) -> Seq<Vertex> {
        self.names@
    }

    pub closed spec fn spec_batch_size(&self) -> usize {
        self.batch_size
    }

    pub closed spec fn is_finished(&self) -> bool {
        self.finished
    }

    /// Whether the host owes names for a batch.
    pub closed spec fn awaiting(&self) -> bool {
        self.awaiting
    }

    /// The ids whose vertices have been handed out, in order.
    pub closed spec fn spec_yielded(&self) -> Seq<u64> {
        self.yielded@
    }

    /// All ids of the walk, in order.
    pub closed spec fn spec_walk(&self) -> Seq<u64> {
        self.all@
    }

    /// The ids whose vertices are still to come, in order.
    pub closed spec fn upcoming(&self) -> Seq<u64> {
        rev(self.batch@) + self.walk.remaining()
    }

    pub closed spec fn wf(&self) -> bool {
        &&& self.walk.wf()
        &&& self.map.wf()
        &&& self.batch_size >= 1
        &&& self.awaiting ==> self.names@.len() == 0 && self.batch@.len() > 0
        &&& !self.awaiting ==> self.names@.len() == self.batch@.len()
        &&& !self.finished ==> self.yielded@ + self.upcoming() == self.all@
    }

    /// A stream of the vertices of the ids of `walk`, named through `map`, asking for up
    /// to `batch_size` names at a time (one when `batch_size` is 0).
    pub fn new(walk: IdSetIter, map: Arc<IdMap>, batch_size: usize) -> (r: Iter)
        requires
            walk.wf(),
            map.wf(),
        ensures
            r.wf(),
            r.upcoming() == walk.remaining(),
            r.spec_walk() == walk.remaining(),
            r.spec_yielded() == Seq::<u64>::empty(),
            r.spec_map() == map,
            r.spec_batch_size() == if batch_size == 0 {
                1
            } else {
                batch_size
            },
            !r.awaiting(),
            !r.is_finished(),
            r.spec_batch().len() == 0,
    {
        let ghost all = walk.remaining();
        let batch_size = if batch_size == 0 {
            1
        } else {
            batch_size
        };
        let r = Iter {
            walk,
            map,
            batch: Vec::new(),
            names: Vec::new(),
            awaiting: false,
            batch_size,
            finished: false,
            yielded: Ghost(Seq::empty()),
            all: Ghost(all),
        };
        proof {
            assert(r.upcoming() =~= all);
            assert(r.yielded@ + r.upcoming() =~= all);
        }
        r
    }

    /// Decides the next step. A vertex whose name is buffered or known locally comes at
    /// once; otherwise the host is asked for the next `batch_size` ids (fewer at the end
    /// of the walk), listed in reverse walk order.
    pub fn next_step(&mut self) -> (r: Step)
        requires
            old(self).wf(),
            !old(self).awaiting(),
        ensures
            step_ok(*old(self), *final(self), r),
    {
        if self.finished {
            return Step::Done;
        }
        let ghost before = *self;
        if self.batch.len() > 0 {
            let id = self.batch.pop();
            let name = self.names.pop();
            match (id, name) {
                (Some(id), Some(name)) => {
                    self.yielded = Ghost(self.yielded@.push(id));
                    proof {
                        assert(rev(before.batch@) =~= seq![id] + rev(self.batch@));
                        assert(self.upcoming() =~= before.upcoming().drop_first());
                        assert(self.yielded@ + self.upcoming() =~= before.yielded@ + before.upcoming());
                    }
                    return Step::Vertex(name);
                },
                _ => {
                    return Step::Done;
                },
            }
        }
        proof {
            assert(rev(self.batch@) =~= Seq::<u64>::empty());
            assert(before.upcoming() =~= before.walk.remaining());
        }
        match self.walk.next() {
            None => Step::Done,
            Some(id) => {
                if let Some(name) = self.map.vertex_name_local(id) {
                    self.yielded = Ghost(self.yielded@.push(id));
                    proof {
                        assert(self.upcoming() =~= before.upcoming().drop_first());
                        assert(self.yielded@ + self.upcoming() =~= before.yielded@ + before.upcoming());
                    }
                    Step::Vertex(name.duplicate())
                } else {
                    let mut ids: Vec<u64> = Vec::new();
                    ids.push(id);
                    while ids.len() < self.batch_size
                        invariant
                            self.walk.wf(),
                            self.map == before.map,
                            self.batch == before.batch,
                            self.names == before.names,
                            self.awaiting == before.awaiting,
                            self.batch_size == before.batch_size,
                            self.finished == before.finished,
                            self.yielded == before.yielded,
                            self.all == before.all,
                            1 <= ids@.len() <= self.batch_size,
                            ids@ + self.walk.remaining() == before.upcoming(),
                        ensures
                            self.walk.wf(),
                            self.map == before.map,
                            self.batch == before.batch,
                            self.names == before.names,
                            self.awaiting == before.awaiting,
                            self.batch_size == before.batch_size,
                            self.finished == before.finished,
                            self.yielded == before.yielded,
                            self.all == before.all,
                            1 <= ids@.len() <= self.batch_size,
                            ids@ + self.walk.remaining() == before.upcoming(),
                            ids@.len() == self.batch_size || self.walk.remaining().len() == 0,
                        decreases self.walk.remaining().len(),
                    {
                        let ghost w = self.walk.remaining();
                        match self.walk.next() {
                            Some(next) => {
                                proof {
                                    assert(ids@.push(next) + self.walk.remaining() =~= ids@ + w);
                                }
                                ids.push(next);
                            },
                            None => {
                                break;
                            },
                        }
                    }
                    proof {
                        assert(ids@ =~= before.upcoming().take(ids@.len() as int));
                    }
                    let mut request: Vec<u64> = Vec::new();
                    let mut k: usize = ids.len();
                    while k > 0
                        invariant
                            0 <= k <= ids@.len(),
                            request@ == rev(ids@.subrange(k as int, ids@.len() as int)),
                        decreases k,
                    {
                        request.push(ids[k - 1]);
                        k = k - 1;
                        proof {
                            assert(request@ =~= rev(ids@.subrange(k as int, ids@.len() as int)));
                        }
                    }
                    proof {
                        assert(ids@.subrange(0, ids@.len() as int) =~= ids@);
                    }
                    self.batch = request.clone();
                    self.awaiting = true;
                    proof {
                        assert(self.batch@ =~= request@);
                        assert(rev(rev(ids@)) =~= ids@);
                        assert(self.upcoming() =~= before.upcoming());
                    }
                    Step::ResolveBatch(request)
                }
            },
        }
    }

    /// Takes the host's names for the pending batch, in the order of the request, and
    /// yields the first vertex of the batch in walk order (the last name). A failed
    /// answer, or one whose length differs from the request, ends the walk with an error.
    pub fn feed_batch(&mut self, names: Result<Vec<Vertex>, DagError>) -> (r: Result<Vertex, DagError>)
        requires
            old(self).wf(),
            old(self).awaiting(),
        ensures
            feed_ok(*old(self), *final(self), names, r),
    {
        let ghost before = *self;
        self.awaiting = false;
        match names {
            Err(e) => {
                self.finished = true;
                self.batch = Vec::new();
                Err(e)
            },
            Ok(v) => {
                if v.len() != self.batch.len() {
                    self.finished = true;
                    self.batch = Vec::new();
                    Err(DagError::Bug("vertex_name_batch does not return enough items".to_owned()))
                } else {
                    let mut v = v;
                    let ghost all_names = v@;
                    let id = self.batch.pop();
                    let first = v.pop();
                    self.names = v;
                    match (id, first) {
                        (Some(id), Some(first)) => {
                            self.yielded = Ghost(self.yielded@.push(id));
                            proof {
                                assert(rev(before.batch@) =~= seq![id] + rev(self.batch@));
                                assert(self.upcoming() =~= before.upcoming().drop_first());
                                assert(self.yielded@ + self.upcoming() =~= before.yielded@
                                    + before.upcoming());
                            }
                            Ok(first)
                        },
                        _ => {
                            Err(DagError::Bug("vertex_name_batch does not return enough items".to_owned()))
                        },
                    }
                }
            },
        }
    }
}

/// Until an error ends it, a walk has handed out the vertices of a prefix of its ids,
/// and the rest are still to come.
pub proof fn lemma_walk_split(it: Iter)
    requires
        it.wf(),
        !it.is_finished(),
    ensures
        it.spec_yielded() + it.upcoming() == it.spec_walk(),
{
}

/// A walk that has ended without an error handed out the vertices of exactly the ids of
/// the walk, in walk order.
pub proof fn lemma_walk_complete(it: Iter)
    requires
        it.wf(),
        !it.is_finished(),
        it.upcoming().len() == 0,
    ensures
        it.spec_yielded() == it.spec_walk(),
{
    assert(it.spec_yielded() + it.upcoming() =~= it.spec_yielded());
}

proof fn lemma_local_prefix(its: Seq<Iter>, rs: Seq<Step>, k: int, j: int)
    requires
        0 <= j <= k,
        its.len() == k + 2,
        rs.len() == k + 1,
        its[0].wf(),
        !its[0].awaiting(),
        !its[0].is_finished(),
        its[0].spec_batch().len() == 0,
        k < its[0].upcoming().len(),
        forall|i: int| 0 <= i < k ==> its[0].spec_map()@.contains_key(#[trigger] its[0].upcoming()[i]),
        forall|i: int| 0 <= i <= k ==> #[trigger] step_ok(its[i], its[i + 1], rs[i]),
    ensures
        its[j].wf(),
        !its[j].awaiting(),
        !its[j].is_finished(),
        its[j].spec_batch().len() == 0,
        its[j].spec_map() == its[0].spec_map(),
        its[j].spec_batch_size() == its[0].spec_batch_size(),
        its[j].upcoming() == its[0].upcoming().skip(j),
        forall|i: int|
            0 <= i < j ==> (#[trigger] rs[i] matches Step::Vertex(v) && v@ == its[0].spec_map()@[
                its[0].upcoming()[i]
            ]),
    decreases j,
{
    if j > 0 {
        lemma_local_prefix(its, rs, k, j - 1);
        let a = its[j - 1];
        let u0 = its[0].upcoming();
        assert(step_ok(its[j - 1], its[j - 1 + 1], rs[j - 1]));
        assert(its[j - 1 + 1] == its[j]);
        assert(a.upcoming()[0] == u0[j - 1]);
        assert(its[0].spec_map()@.contains_key(u0[j - 1]));
        assert(a.upcoming().len() > 0);
        assert(its[j].upcoming() =~= u0.skip(j));
    } else {
        assert(its[0].upcoming() =~= its[0].upcoming().skip(0));
    }
}

/// Resolving a walk whose first `k` ids are known locally and whose next id is not: the
/// first `k` steps hand out the local names in walk order without asking the host, and
/// step `k + 1` asks for one batch: the next `batch_size` ids (fewer at the end of the
/// walk) in reverse walk order, so that the id not known locally comes last.
pub proof fn lemma_local_run_then_batch(its: Seq<Iter>, rs: Seq<Step>, k: int)
    requires
        k >= 0,
        its.len() == k + 2,
        rs.len() == k + 1,
        its[0].wf(),
        !its[0].awaiting(),
        !its[0].is_finished(),
        its[0].spec_batch().len() == 0,
        k < its[0].upcoming().len(),
        forall|i: int| 0 <= i < k ==> its[0].spec_map()@.contains_key(#[trigger] its[0].upcoming()[i]),
        !its[0].spec_map()@.contains_key(its[0].upcoming()[k]),
        forall|i: int| 0 <= i <= k ==> #[trigger] step_ok(its[i], its[i + 1], rs[i]),
    ensures
        forall|i: int|
            0 <= i < k ==> (#[trigger] rs[i] matches Step::Vertex(v) && v@ == its[0].spec_map()@[
                its[0].upcoming()[i]
            ]),
        ({
            let u = its[0].upcoming();
            let end = if k + its[0].spec_batch_size() < u.len() {
                k + its[0].spec_batch_size()
            } else {
                u.len() as int
            };
            rs[k] matches Step::ResolveBatch(ids) && ids@ == rev(u.subrange(k, end))
        }),
        its[k + 1].awaiting(),
{
    lemma_local_prefix(its, rs, k, k);
    let a = its[k];
    let u = its[0].upcoming();
    assert(step_ok(its[k], its[k + 1], rs[k]));
    assert(a.upcoming()[0] == u[k]);
    let end = if k + its[0].spec_batch_size() < u.len() {
        k + its[0].spec_batch_size()
    } else {
        u.len() as int
    };
    let n = if a.upcoming().len() < a.spec_batch_size() {
        a.upcoming().len() as int
    } else {
        a.spec_batch_size() as int
    };
    assert(a.upcoming().take(n) =~= u.subrange(k, end));
}

proof fn lemma_drain_prefix(its: Seq<Iter>, rs: Seq<Step>, l: int, j: int)
    requires
        0 <= j <= l,
        its.len() >= j + 1,
        rs.len() >= j,
        its[0].wf(),
        !its[0].awaiting(),
        !its[0].is_finished(),
        its[0].spec_batch().len() == l,
        forall|i: int| 0 <= i < j ==> #[trigger] step_ok(its[i], its[i + 1], rs[i]),
    ensures
        its[j].wf(),
        !its[j].awaiting(),
        !its[j].is_finished(),
        its[j].spec_batch() == its[0].spec_batch().take(l - j),
        its[j].spec_names() == its[0].spec_names().take(l - j),
        its[j].upcoming() == its[0].upcoming().skip(j),
        forall|i: int|
            0 <= i < j ==> (#[trigger] rs[i] matches Step::Vertex(v) && v == its[0].spec_names()[l - 1
                - i]),
    decreases j,
{
    let b0 = its[0].spec_batch();
    let n0 = its[0].spec_names();
    if j > 0 {
        assert forall|i: int| 0 <= i < j - 1 implies #[trigger] step_ok(its[i], its[i + 1], rs[i]) by {
            assert(step_ok(its[i], its[i + 1], rs[i]));
        }
        lemma_drain_prefix(its, rs, l, j - 1);
        let a = its[j - 1];
        assert(step_ok(its[j - 1], its[j - 1 + 1], rs[j - 1]));
        assert(its[j - 1 + 1] == its[j]);
        assert(a.spec_batch().len() == l - j + 1);
        assert(a.upcoming() == rev(a.spec_batch()) + a.walk.remaining());
        assert(a.upcoming().len() > 0);
        assert(a.spec_names().len() == a.spec_batch().len());
        assert(a.spec_names().last() == n0[l - j]);
        assert(its[j].spec_batch() =~= b0.take(l - j));
        assert(its[j].spec_names() =~= n0.take(l - j));
        assert(its[j].upcoming() =~= its[0].upcoming().skip(j));
    } else {
        assert(b0.take(l) =~= b0);
        assert(n0.take(l) =~= n0);
        assert(its[0].upcoming() =~= its[0].upcoming().skip(0));
    }
}

/// After the host has answered a batch, the steps that follow hand out the buffered
/// names, from the end of the answer back, without asking the host again, one for each
/// buffered id in walk order.
pub proof fn lemma_batch_drains(its: Seq<Iter>, rs: Seq<Step>, l: int)
    requires
        l >= 0,
        its.len() == l + 1,
        rs.len() == l,
        its[0].wf(),
        !its[0].awaiting(),
        !its[0].is_finished(),
        its[0].spec_batch().len() == l,
        forall|i: int| 0 <= i < l ==> #[trigger] step_ok(its[i], its[i + 1], rs[i]),
    ensures
        forall|i: int|
            0 <= i < l ==> (#[trigger] rs[i] matches Step::Vertex(v) && v == its[0].spec_names()[l - 1
                - i] && its[0].upcoming()[i] == its[0].spec_batch()[l - 1 - i]),
        its[l].spec_batch().len() == 0,
{
    lemma_drain_prefix(its, rs, l, l);
    let b0 = its[0].spec_batch();
    assert forall|i: int| 0 <= i < l implies its[0].upcoming()[i] == b0[l - 1 - i] by {
        assert(its[0].upcoming() == rev(b0) + its[0].walk.remaining());
    }
}

/// A walk whose first `k` ids are known locally and whose next `m` ids are not, with
/// `1 <= m <= batch_size`: the first `k` steps hand out the local names; step `k + 1`
/// makes the one request, for the next `batch_size` ids (fewer at the end) in reverse
/// walk order; the host's answer, names in the order of the request, yields the vertex
/// of id `k` (its last name); the `m - 1` steps after it hand out the vertices of the
/// next ids from the rest of the answer, without another request.
pub proof fn lemma_batch_scenario(
    pre: Seq<Iter>,
    rs: Seq<Step>,
    k: int,
    m: int,
    answer: Vec<Vertex>,
    first: Result<Vertex, DagError>,
    post: Seq<Iter>,
    rs2: Seq<Step>,
)
    requires
        k >= 0,
        m >= 1,
        pre.len() == k + 2,
        rs.len() == k + 1,
        post.len() == m,
        rs2.len() == m - 1,
        m <= pre[0].spec_batch_size(),
        k + m <= pre[0].upcoming().len(),
        pre[0].wf(),
        !pre[0].awaiting(),
        !pre[0].is_finished(),
        pre[0].spec_batch().len() == 0,
        forall|i: int| 0 <= i < k ==> pre[0].spec_map()@.contains_key(#[trigger] pre[0].upcoming()[i]),
        !pre[0].spec_map()@.contains_key(pre[0].upcoming()[k]),
        forall|i: int| 0 <= i <= k ==> #[trigger] step_ok(pre[i], pre[i + 1], rs[i]),
        rs[k] matches Step::ResolveBatch(ids) && answer@.len() == ids@.len(),
        feed_ok(pre[k + 1], post[0], Ok(answer), first),
        forall|i: int| 0 <= i < m - 1 ==> #[trigger] step_ok(post[i], post[i + 1], rs2[i]),
    ensures
        forall|i: int|
            0 <= i < k ==> (#[trigger] rs[i] matches Step::Vertex(v) && v@ == pre[0].spec_map()@[
                pre[0].upcoming()[i]
            ]),
        ({
            let u = pre[0].upcoming();
            let end = if k + pre[0].spec_batch_size() < u.len() {
                k + pre[0].spec_batch_size()
            } else {
                u.len() as int
            };
            rs[k] matches Step::ResolveBatch(ids) && ids@ == rev(u.subrange(k, end))
        }),
        first == Ok::<Vertex, DagError>(answer@.last()),
        forall|i: int|
            0 <= i < m - 1 ==> (#[trigger] rs2[i] matches Step::Vertex(v) && v == answer@[answer@.len()
                - 2 - i]),
        post[0].upcoming().take(m - 1) == pre[0].upcoming().subrange(k + 1, k + m),
{
    lemma_local_run_then_batch(pre, rs, k);
    let u = pre[0].upcoming();
    let req = pre[k + 1];
    let l = answer@.len() as int;
    lemma_local_prefix(pre, rs, k, k);
    assert(step_ok(pre[k], pre[k + 1], rs[k]));
    assert(req.spec_batch().len() == l);
    assert(!req.is_finished());
    assert(l >= m);
    let q = post[0];
    assert(q.spec_batch().len() == l - 1);
    assert(q.spec_names() == answer@.drop_last());
    assert(!q.is_finished());
    lemma_drain_prefix(post, rs2, l - 1, m - 1);
    lemma_local_prefix(pre, rs, k, k);
    assert(req.upcoming() == u.skip(k)) by {
        assert(step_ok(pre[k], pre[k + 1], rs[k]));
    }
    assert forall|i: int| 0 <= i < m - 1 implies post[0].upcoming()[i] == u[k + 1 + i] by {
        assert(post[0].upcoming() == req.upcoming().drop_first());
    }
    assert(post[0].upcoming().take(m - 1) =~= u.subrange(k + 1, k + m));
}

} // verus!
