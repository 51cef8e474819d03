//! Turning a stream of vertices into indices, with a bounded memory of the
//! vertices seen last.

use vstd::laws_eq::obeys_concrete_eq;
use vstd::prelude::*;
use vstd::std_specs::cmp::PartialEqSpec;

verus! {

/// An indexer is an object that collects vertices and emits indices for the
/// given vertex. The intent is that an indexer can find redundant vertices
/// and deduplicate them by returning aliased indices.
pub trait Indexer<T> {
    /// Whether `index` can be called on the indexer with `v`.
    spec fn can_index(&self, v: T) -> bool;

    /// Converts a vertex into an index.
    fn index(&mut self, v: T) -> (r: usize)
        requires
            old(self).can_index(v),
    ;
}

/// What an `LruIndexer` holds, as plain values.
pub struct LruState<T> {
    /// The remembered vertices with their indices, the one used longest ago
    /// first.
    pub cache: Seq<(T, usize)>,
    /// The index that the next new vertex gets.
    pub counter: usize,
    /// The number of vertices that can be remembered.
    pub window: usize,
    /// The calls of `emit` that have been made, first to last.
    pub emitted: Seq<(usize, T)>,
}

/// The place of the first entry of `cache` that equals `v`, or the length of
/// `cache` where there is none.
pub open spec fn first_match<T: PartialEq>(cache: Seq<(T, usize)>, v: T) -> int
    decreases cache.len(),
{
    if cache.len() == 0 {
        0
    } else if cache[0].0.eq_spec(&v) {
        0
    } else {
        1 + first_match(cache.drop_first(), v)
    }
}

/// `first_match` is within the cache or just behind it; no entry before it
/// equals `v`, and where it is within the cache, the entry there does.
pub proof fn lemma_first_match<T: PartialEq>(cache: Seq<(T, usize)>, v: T)
    ensures
        0 <= first_match(cache, v) <= cache.len(),
        forall|j: int| 0 <= j < first_match(cache, v) ==> !(#[trigger] cache[j]).0.eq_spec(&v),
        first_match(cache, v) < cache.len() ==> cache[first_match(cache, v)].0.eq_spec(&v),
    decreases cache.len(),
{
    if cache.len() > 0 && !cache[0].0.eq_spec(&v) {
        let rest = cache.drop_first();
        lemma_first_match(rest, v);
        assert forall|j: int| 0 <= j < first_match(cache, v) implies !(#[trigger] cache[j]).0.eq_spec(
            &v,
        ) by {
            if j > 0 {
                assert(cache[j] == rest[j - 1]);
            }
        }
    }
}

impl<T> LruState<T> {
    /// What a new indexer with a window of `size` vertices holds: nothing.
    pub open spec fn empty(size: usize) -> LruState<T> {
        LruState { cache: Seq::empty(), counter: 0, window: size, emitted: Seq::empty() }
    }
}

impl<T: PartialEq> LruState<T> {
    /// Whether a vertex that equals `v` is remembered.
    pub open spec fn holds(self, v: T) -> bool {
        first_match(self.cache, v) < self.cache.len()
    }

    /// The state after `v` was indexed.
    ///
    /// Where a remembered vertex equals `v`, the first such entry moves to
    /// the back and nothing else changes. Otherwise `v` is remembered at the
    /// back under the next index, in place of the front entry where the
    /// window is full, and `emit` is called with that index and `v`.
    pub open spec fn after(self, v: T) -> LruState<T> {
        let p = first_match(self.cache, v);
        if p < self.cache.len() {
            LruState { cache: self.cache.remove(p).push(self.cache[p]), ..self }
        } else {
            let kept = if self.cache.len() >= self.window {
                self.cache.drop_first()
            } else {
                self.cache
            };
            LruState {
                cache: kept.push((v, self.counter)),
                counter: (self.counter + 1) as usize,
                window: self.window,
                emitted: self.emitted.push((self.counter, v)),
            }
        }
    }

    /// The index that indexing `v` gives.
    pub open spec fn index_of(self, v: T) -> usize {
        let p = first_match(self.cache, v);
        if p < self.cache.len() {
            self.cache[p].1
        } else {
            self.counter
        }
    }

    /// The state after the vertices of `vs` were indexed, first to last.
    pub open spec fn after_all(self, vs: Seq<T>) -> LruState<T>
        decreases vs.len(),
    {
        if vs.len() == 0 {
            self
        } else {
            self.after_all(vs.drop_last()).after(vs.last())
        }
    }

    /// What every state that can be reached from a new indexer has: no more
    /// is remembered than the window holds, each remembered index has been
    /// given out, `emit` was called once for each index given out, in
    /// order, and each vertex is remembered under the index with which it
    /// was emitted. Where `==` on the vertices is equality, no vertex is
    /// remembered twice.
    pub open spec fn wf(self) -> bool {
        &&& self.cache.len() <= self.window
        &&& forall|i: int| 0 <= i < self.cache.len() ==> (#[trigger] self.cache[i]).1 < self.counter
        &&& self.emitted.len() == self.counter
        &&& forall|k: int| 0 <= k < self.emitted.len() ==> (#[trigger] self.emitted[k]).0 == k
        &&& forall|i: int|
            0 <= i < self.cache.len() ==> self.emitted[(#[trigger] self.cache[i]).1 as int].1
                == self.cache[i].0
        &&& obeys_concrete_eq::<T>() ==> forall|i: int, j: int|
            0 <= i < j < self.cache.len() ==> (#[trigger] self.cache[i]).0 != (
            #[trigger] self.cache[j]).0
    }
}

/// Whether no two vertices of `vs` are the same.
pub open spec fn distinct<T>(vs: Seq<T>) -> bool {
    forall|i: int, j: int| 0 <= i < j < vs.len() ==> vs[i] != vs[j]
}

/// Whether the vertices that `cache` holds at its back are those of `vs`, in
/// order.
pub open spec fn ends_with<T>(cache: Seq<(T, usize)>, vs: Seq<T>) -> bool {
    &&& cache.len() >= vs.len()
    &&& forall|j: int| 0 <= j < vs.len() ==> (#[trigger] cache[cache.len() - vs.len() + j]).0 == vs[j]
}

/// Where `==` on `T` is equality, the first match is the first entry that
/// holds `v`.
proof fn lemma_first_match_concrete<T: PartialEq>(cache: Seq<(T, usize)>, v: T)
    requires
        obeys_concrete_eq::<T>(),
    ensures
        0 <= first_match(cache, v) <= cache.len(),
        forall|j: int| 0 <= j < first_match(cache, v) ==> (#[trigger] cache[j]).0 != v,
        first_match(cache, v) < cache.len() ==> cache[first_match(cache, v)].0 == v,
{
    reveal(obeys_concrete_eq);
    lemma_first_match(cache, v);
}

/// Indexing keeps a state well-formed and its window as it was; the counter
/// does not go down, and the index given is below it afterwards.
pub proof fn lemma_after_wf<T: PartialEq>(s: LruState<T>, v: T)
    requires
        s.wf(),
        s.window > 0,
        s.holds(v) || s.counter < usize::MAX,
    ensures
        s.after(v).wf(),
        s.after(v).window == s.window,
        s.counter <= s.after(v).counter <= s.counter + 1,
        s.index_of(v) < s.after(v).counter,
{
    lemma_first_match(s.cache, v);
    let p = first_match(s.cache, v);
    let t = s.after(v);
    if p < s.cache.len() {
        assert forall|i: int| 0 <= i < t.cache.len() implies (#[trigger] t.cache[i]).1
            < t.counter by {
            if i < p {
                assert(t.cache[i] == s.cache[i]);
            } else if i < t.cache.len() - 1 {
                assert(t.cache[i] == s.cache[i + 1]);
            } else {
                assert(t.cache[i] == s.cache[p]);
            }
        }
        if obeys_concrete_eq::<T>() {
            assert forall|i: int, j: int| 0 <= i < j < t.cache.len() implies (
            #[trigger] t.cache[i]).0 != (#[trigger] t.cache[j]).0 by {
                let a = if i < p { i } else { i + 1 };
                let b = if j == t.cache.len() - 1 { p } else if j < p { j } else { j + 1 };
                assert(t.cache[i] == s.cache[a]);
                assert(t.cache[j] == s.cache[b]);
                assert(a != b);
                if a < b {
                    assert(s.cache[a].0 != s.cache[b].0);
                } else {
                    assert(s.cache[b].0 != s.cache[a].0);
                }
            }
        }
    } else {
        let kept = if s.cache.len() >= s.window { s.cache.drop_first() } else { s.cache };
        let off: int = if s.cache.len() >= s.window { 1 } else { 0 };
        assert forall|i: int| 0 <= i < t.cache.len() implies (#[trigger] t.cache[i]).1
            < t.counter by {
            if i < kept.len() {
                assert(t.cache[i] == s.cache[i + off]);
            }
        }
        assert forall|k: int| 0 <= k < t.emitted.len() implies (#[trigger] t.emitted[k]).0 == k by {
            if k < s.emitted.len() {
                assert(t.emitted[k] == s.emitted[k]);
            }
        }
        if obeys_concrete_eq::<T>() {
            lemma_first_match_concrete(s.cache, v);
            assert forall|i: int, j: int| 0 <= i < j < t.cache.len() implies (
            #[trigger] t.cache[i]).0 != (#[trigger] t.cache[j]).0 by {
                assert(t.cache[i] == s.cache[i + off]);
                if j < kept.len() {
                    assert(t.cache[j] == s.cache[j + off]);
                    assert(s.cache[i + off].0 != s.cache[j + off].0);
                } else {
                    assert(t.cache[j].0 == v);
                    assert(s.cache[i + off].0 != v);
                }
            }
        }
    }
}

/// The index that a vertex gets is that of an emitted vertex that equals
/// it: looking the indices up among the emitted vertices gives the indexed
/// vertices back.
pub proof fn lemma_index_resolves<T: PartialEq>(s: LruState<T>, v: T)
    requires
        s.wf(),
        s.window > 0,
        s.holds(v) || s.counter < usize::MAX,
    ensures
        s.index_of(v) < s.after(v).emitted.len(),
        s.after(v).emitted[s.index_of(v) as int].0 == s.index_of(v),
        s.holds(v) ==> s.after(v).emitted[s.index_of(v) as int].1.eq_spec(&v),
        !s.holds(v) ==> s.after(v).emitted[s.index_of(v) as int].1 == v,
{
    lemma_first_match(s.cache, v);
    lemma_after_wf(s, v);
}

/// Indexing the same vertex twice in a row gives the same index both times.
/// The second call emits nothing; the first emits once where the vertex was
/// not remembered, and nothing where it was.
pub proof fn lemma_index_twice<T: PartialEq>(s: LruState<T>, v: T)
    requires
        s.wf(),
        s.window > 0,
        obeys_concrete_eq::<T>(),
    ensures
        s.after(v).holds(v),
        s.after(v).index_of(v) == s.index_of(v),
        s.after(v).after(v).emitted == s.after(v).emitted,
        s.after(v).emitted == if s.holds(v) {
            s.emitted
        } else {
            s.emitted.push((s.index_of(v), v))
        },
{
    lemma_first_match_concrete(s.cache, v);
    let p = first_match(s.cache, v);
    let t = s.after(v);
    lemma_first_match_concrete(t.cache, v);
    let q = first_match(t.cache, v);
    let last = t.cache.len() - 1;
    assert(t.cache[last].0 == v);
    assert(q <= last) by {
        if q > last {
            assert(t.cache[last].0 != v);
        }
    }
    if p < s.cache.len() {
        if q < last {
            let k = if q < p { q } else { q + 1 };
            assert(t.cache[q] == s.cache[k]);
            if k < p {
                assert(s.cache[k].0 != s.cache[p].0);
            } else {
                assert(s.cache[p].0 != s.cache[k].0);
            }
        }
    } else {
        let off: int = if s.cache.len() >= s.window { 1 } else { 0 };
        if q < last {
            assert(t.cache[q] == s.cache[q + off]);
            assert(s.cache[q + off].0 != v);
        }
    }
}

/// After the vertices of `vs`, no two the same and no more than the window
/// holds, were indexed, they are what was used last, in their order.
proof fn lemma_after_distinct<T: PartialEq>(s: LruState<T>, vs: Seq<T>)
    requires
        s.wf(),
        s.window > 0,
        obeys_concrete_eq::<T>(),
        distinct(vs),
        1 <= vs.len() <= s.window,
        s.counter + vs.len() < usize::MAX,
    ensures
        s.after_all(vs).wf(),
        s.after_all(vs).window == s.window,
        s.counter <= s.after_all(vs).counter <= s.counter + vs.len(),
        s.index_of(vs[0]) < s.after_all(vs).counter,
        ends_with(s.after_all(vs).cache, vs),
    decreases vs.len(),
{
    let front = vs.drop_last();
    let v = vs.last();
    assert(s.after_all(vs) == s.after_all(front).after(v));
    if front.len() == 0 {
        assert(s.after_all(front) == s);
        lemma_after_wf(s, v);
        lemma_first_match_concrete(s.cache, v);
        let t = s.after(v);
        assert(t.cache[t.cache.len() - 1].0 == v);
    } else {
        assert(distinct(front)) by {
            assert forall|i: int, j: int| 0 <= i < j < front.len() implies front[i] != front[j] by {
                assert(front[i] == vs[i] && front[j] == vs[j]);
            }
        }
        lemma_after_distinct(s, front);
        let m = s.after_all(front);
        lemma_after_wf(m, v);
        lemma_first_match_concrete(m.cache, v);
        let t = m.after(v);
        let p = first_match(m.cache, v);
        let k = front.len() as int;
        let base = m.cache.len() - k;
        assert(front[0] == vs[0]);
        // None of the last `k` entries of `m` holds `v`.
        assert forall|j: int| 0 <= j < k implies (#[trigger] m.cache[base + j]).0 != v by {
            assert(m.cache[base + j].0 == front[j]);
            assert(front[j] == vs[j]);
        }
        if p < m.cache.len() {
            assert(p < base) by {
                if p >= base {
                    assert(m.cache[base + (p - base)].0 != v);
                }
            }
            assert forall|j: int| 0 <= j < vs.len() implies (#[trigger] t.cache[t.cache.len()
                - vs.len() + j]).0 == vs[j] by {
                let at = t.cache.len() - vs.len() + j;
                if j < k {
                    assert(t.cache[at] == m.cache[base + j]);
                    assert(m.cache[base + j].0 == front[j]);
                }
            }
        } else {
            let off: int = if m.cache.len() >= m.window { 1 } else { 0 };
            assert forall|j: int| 0 <= j < vs.len() implies (#[trigger] t.cache[t.cache.len()
                - vs.len() + j]).0 == vs[j] by {
                let at = t.cache.len() - vs.len() + j;
                if j < k {
                    assert(t.cache[at] == m.cache[base + j]);
                    assert(m.cache[base + j].0 == front[j]);
                }
            }
        }
    }
}

/// With a window of `W` vertices: after `W + 1` vertices, no two the same,
/// were indexed, the first of them is forgotten. Indexing it once more gives
/// the next new index, which is not the index it had, and emits it again.
pub proof fn lemma_eviction<T: PartialEq>(s: LruState<T>, vs: Seq<T>)
    requires
        s.wf(),
        s.window > 0,
        obeys_concrete_eq::<T>(),
        distinct(vs),
        vs.len() == s.window + 1,
        s.counter + vs.len() < usize::MAX,
    ensures
        !s.after_all(vs).holds(vs[0]),
        s.after_all(vs).index_of(vs[0]) == s.after_all(vs).counter,
        s.after_all(vs).index_of(vs[0]) != s.index_of(vs[0]),
        s.after_all(vs).after(vs[0]).emitted == s.after_all(vs).emitted.push(
            (s.after_all(vs).counter, vs[0]),
        ),
{
    let front = vs.drop_last();
    let v = vs.last();
    let w = s.window as int;
    assert(s.after_all(vs) == s.after_all(front).after(v));
    assert(distinct(front)) by {
        assert forall|i: int, j: int| 0 <= i < j < front.len() implies front[i] != front[j] by {
            assert(front[i] == vs[i] && front[j] == vs[j]);
        }
    }
    lemma_after_distinct(s, front);
    let m = s.after_all(front);
    assert(m.cache.len() == w);
    assert(front[0] == vs[0]);
    assert forall|j: int| 0 <= j < w implies (#[trigger] m.cache[j]).0 == vs[j] by {
        assert(m.cache[m.cache.len() - front.len() + j].0 == front[j]);
        assert(front[j] == vs[j]);
    }
    lemma_first_match_concrete(m.cache, v);
    let p = first_match(m.cache, v);
    assert(p == m.cache.len()) by {
        if p < m.cache.len() {
            assert(m.cache[p].0 == vs[p]);
        }
    }
    lemma_after_wf(m, v);
    let t = m.after(v);
    assert(t.cache =~= m.cache.drop_first().push((v, m.counter)));
    lemma_first_match_concrete(t.cache, vs[0]);
    let q = first_match(t.cache, vs[0]);
    assert(q == t.cache.len()) by {
        if q < t.cache.len() {
            if q < w - 1 {
                assert(t.cache[q] == m.cache[q + 1]);
                assert(m.cache[q + 1].0 == vs[q + 1]);
            } else {
                assert(t.cache[q].0 == vs[w]);
            }
        }
    }
}

/// Indexing vertices, no two the same, with a new indexer gives them the
/// indices 0, 1, 2 and so on, and emits each once with its index.
pub proof fn lemma_new_run<T: PartialEq>(w: usize, vs: Seq<T>)
    requires
        w > 0,
        obeys_concrete_eq::<T>(),
        distinct(vs),
        vs.len() < usize::MAX,
    ensures
        LruState::<T>::empty(w).after_all(vs).wf(),
        LruState::<T>::empty(w).after_all(vs).window == w,
        LruState::<T>::empty(w).after_all(vs).counter == vs.len(),
        LruState::<T>::empty(w).after_all(vs).emitted == Seq::new(
            vs.len(),
            |k: int| (k as usize, vs[k]),
        ),
        forall|i: int|
            0 <= i < LruState::<T>::empty(w).after_all(vs).cache.len() ==> exists|j: int|
                0 <= j < vs.len() && (#[trigger] LruState::<T>::empty(w).after_all(vs).cache[i]).0
                    == vs[j],
        forall|k: int|
            0 <= k < vs.len() ==> #[trigger] LruState::<T>::empty(w).after_all(
                vs.take(k),
            ).index_of(vs[k]) == k,
    decreases vs.len(),
{
    let start = LruState::<T>::empty(w);
    if vs.len() > 0 {
        let front = vs.drop_last();
        let v = vs.last();
        let n = front.len() as int;
        assert(distinct(front)) by {
            assert forall|i: int, j: int| 0 <= i < j < front.len() implies front[i] != front[j] by {
                assert(front[i] == vs[i] && front[j] == vs[j]);
            }
        }
        lemma_new_run(w, front);
        let m = start.after_all(front);
        let t = m.after(v);
        assert(start.after_all(vs) == t);
        lemma_first_match_concrete(m.cache, v);
        let p = first_match(m.cache, v);
        assert(p == m.cache.len()) by {
            if p < m.cache.len() {
                let j = choose|j: int| 0 <= j < front.len() && m.cache[p].0 == front[j];
                assert(front[j] == vs[j]);
                assert(vs[j] != vs[n]);
            }
        }
        lemma_after_wf(m, v);
        assert(t.emitted =~= Seq::new(vs.len(), |k: int| (k as usize, vs[k]))) by {
            assert forall|k: int| 0 <= k < vs.len() implies t.emitted[k] == (k as usize, vs[k]) by {
                if k < n {
                    assert(t.emitted[k] == m.emitted[k]);
                    assert(front[k] == vs[k]);
                }
            }
        }
        assert forall|i: int| 0 <= i < t.cache.len() implies exists|j: int|
            0 <= j < vs.len() && (#[trigger] t.cache[i]).0 == vs[j] by {
            if i < t.cache.len() - 1 {
                let off: int = if m.cache.len() >= m.window { 1 } else { 0 };
                assert(t.cache[i] == m.cache[i + off]);
                let j = choose|j: int| 0 <= j < front.len() && m.cache[i + off].0 == front[j];
                assert(front[j] == vs[j]);
            } else {
                assert(t.cache[i].0 == vs[n]);
            }
        }
        assert forall|k: int| 0 <= k < vs.len() implies #[trigger] start.after_all(
            vs.take(k),
        ).index_of(vs[k]) == k by {
            if k < n {
                assert(vs.take(k) =~= front.take(k));
                assert(front[k] == vs[k]);
            } else {
                assert(vs.take(k) =~= front);
            }
        }
    } else {
        assert(start.after_all(vs).emitted =~= Seq::new(vs.len(), |k: int| (k as usize, vs[k])));
    }
}

/// With a new indexer and a window of `W` vertices: after `W + 1` vertices,
/// no two the same, were indexed, indexing the first of them once more gives
/// the index `W + 1` and emits it a second time, which makes `W + 2` calls
/// of `emit` in all.
pub proof fn lemma_eviction_from_new<T: PartialEq>(w: usize, vs: Seq<T>)
    requires
        w > 0,
        obeys_concrete_eq::<T>(),
        distinct(vs),
        vs.len() == w + 1,
        w + 2 < usize::MAX,
    ensures
        LruState::<T>::empty(w).index_of(vs[0]) == 0,
        LruState::<T>::empty(w).after_all(vs).index_of(vs[0]) == w + 1,
        LruState::<T>::empty(w).after_all(vs).after(vs[0]).emitted == Seq::new(
            vs.len(),
            |k: int| (k as usize, vs[k]),
        ).push(((w + 1) as usize, vs[0])),
{
    lemma_new_run(w, vs);
    lemma_eviction(LruState::<T>::empty(w), vs);
}

/// An `LruIndexer` is useful for creating an indexed steam from a stream of
/// vertices. Each vertex that is indexed is only being compared against the
/// vertices which are contained in the cache. If a vertex is not found, the
/// `LruIndexer` will `emit` a new vertex and return the index of that new
/// vertex.
///
/// The oldest sample by time used will be dropped if a new vertex is found.
#[verifier::reject_recursive_types(T)]
pub struct LruIndexer<T, F: FnMut(usize, T)> {
    index: usize,
    max: usize,
    cache: Vec<(T, usize)>,
    emit: F,
    emitted: Ghost<Seq<(usize, T)>>,
}

impl<T, F: FnMut(usize, T)> View for LruIndexer<T, F> {
    type V = LruState<T>;

    closed spec fn view(&self) -> LruState<T> {
        LruState {
            cache: self.cache@,
            counter: self.index,
            window: self.max,
            emitted: self.emitted@,
        }
    }
}

/// Whether `emit` can be called with every index and vertex.
pub open spec fn accepts_all<T, F: FnMut(usize, T)>(emit: F) -> bool {
    forall|i: usize, v: T| #[trigger] emit.requires((i, v))
}

impl<T, F: FnMut(usize, T)> LruIndexer<T, F> {
    /// The function that is called for each new vertex.
    pub closed spec fn emitter(&self) -> F {
        self.emit
    }

    /// Creates a new `LruIndexer` with a given window size limited by the
    /// `size` parameter. It is recommended to keep this small, since lookup
    /// is done in N time.
    ///
    /// If a new vertex is found, `emit` will be called. `emit` will be
    /// supplied with a vertex and an index that was used.
    pub fn new(size: usize, emit: F) -> (r: LruIndexer<T, F>)
        ensures
            r@ == LruState::<T>::empty(size),
            r.emitter() == emit,
    {
        LruIndexer { index: 0, max: size, cache: Vec::new(), emit, emitted: Ghost(Seq::empty()) }
    }
}

impl<T: PartialEq + Copy, F: FnMut(usize, T)> LruIndexer<T, F> {
    /// Whether `v` can be indexed: the window holds at least one vertex,
    /// an index is left to give out unless `v` is known to be remembered,
    /// and `emit` takes whatever it is called with.
    pub open spec fn ready(&self, v: T) -> bool {
        &&& self@.wf()
        &&& self@.window > 0
        &&& (T::obeys_eq_spec() && self@.holds(v)) || self@.counter < usize::MAX
        &&& accepts_all(self.emitter())
    }

    /// The place of the first remembered vertex that equals `v`, if there is
    /// one.
    fn find(&self, v: &T) -> (r: Option<usize>)
        ensures
            T::obeys_eq_spec() ==> match r {
                Some(p) => p == first_match(self.cache@, *v) && p < self.cache@.len(),
                None => first_match(self.cache@, *v) == self.cache@.len(),
            },
            r matches Some(p) ==> p < self.cache@.len(),
    {
        let mut i: usize = 0;
        assert(self.cache@.skip(0) =~= self.cache@);
        while i < self.cache.len()
            invariant
                i <= self.cache@.len(),
                T::obeys_eq_spec() ==> first_match(self.cache@, *v) == i + first_match(
                    self.cache@.skip(i as int),
                    *v,
                ),
            decreases self.cache@.len() - i,
        {
            let ghost rest = self.cache@.skip(i as int);
            assert(rest[0] == self.cache@[i as int]);
            assert(rest.drop_first() =~= self.cache@.skip(i + 1));
            if self.cache[i].0 == *v {
                return Some(i);
            }
            i += 1;
        }
        assert(self.cache@.skip(i as int) =~= Seq::empty());
        None
    }

    /// Converts a vertex into an index: that of the first remembered vertex
    /// that equals `v`, which becomes the one used last, or else the next
    /// new index, for which `emit` is called.
    ///
    /// Whatever `==` on the vertices does, the index has been given out
    /// afterwards, and either nothing was emitted and the counter stands,
    /// or `v` was emitted with the index and the counter went up by one.
    pub fn index(&mut self, v: T) -> (r: usize)
        requires
            old(self).ready(v),
        ensures
            final(self)@.wf(),
            final(self)@.window == old(self)@.window,
            final(self).emitter() == old(self).emitter(),
            r < final(self)@.counter,
            (final(self)@.counter == old(self)@.counter && final(self)@.emitted == old(
                self,
            )@.emitted) || (final(self)@.counter == old(self)@.counter + 1 && final(self)@.emitted
                == old(self)@.emitted.push((r, v))),
            T::obeys_eq_spec() ==> r == old(self)@.index_of(v) && final(self)@ == old(self)@.after(v),
    {
        let found = self.find(&v);
        proof {
            lemma_first_match(self.cache@, v);
            if obeys_concrete_eq::<T>() {
                reveal(obeys_concrete_eq);
                lemma_after_wf(self@, v);
            }
        }
        match found {
            Some(i) => {
                let item = self.cache.remove(i);
                self.cache.push(item);
                item.1
            },
            None => {
                if self.cache.len() >= self.max {
                    self.cache.remove(0);
                    assert(self.cache@ =~= old(self).cache@.drop_first());
                }
                let index = self.index;
                self.index += 1;
                self.cache.push((v, index));
                (self.emit)(index, v);
                proof {
                    self.emitted@ = self.emitted@.push((index, v));
                }
                index
            },
        }
    }
}

impl<T: PartialEq + Copy, F: FnMut(usize, T)> Indexer<T> for LruIndexer<T, F> {
    open spec fn can_index(&self, v: T) -> bool {
        self.ready(v)
    }

    fn index(&mut self, v: T) -> (r: usize)
        ensures
            final(self)@.wf(),
            final(self)@.window == old(self)@.window,
            final(self).emitter() == old(self).emitter(),
            r < final(self)@.counter,
            (final(self)@.counter == old(self)@.counter && final(self)@.emitted == old(
                self,
            )@.emitted) || (final(self)@.counter == old(self)@.counter + 1 && final(self)@.emitted
                == old(self)@.emitted.push((r, v))),
            T::obeys_eq_spec() ==> r == old(self)@.index_of(v) && final(self)@ == old(self)@.after(v),
    {
        LruIndexer::index(self, v)
    }
}

} // verus!
