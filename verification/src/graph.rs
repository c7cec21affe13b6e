//! Directed graphs over vertices numbered from zero, as successor maps:
//! projecting them, turning them around, and sorting them topologically.

use vstd::prelude::*;

verus! {

/// A sequence in strictly increasing order.
pub open spec fn sorted_set(v: Seq<usize>) -> bool {
    forall|i: int, j: int| 0 <= i < j < v.len() ==> v[i] < v[j]
}

/// Inserts `x` into the strictly increasing `v`, unless it is there.
pub fn set_insert(v: &mut Vec<usize>, x: usize)
    requires
        sorted_set(old(v)@),
    ensures
        sorted_set(final(v)@),
        final(v)@.to_set() == old(v)@.to_set().insert(x),
{
    let ghost o = v@;
    let mut i: usize = 0;
    while i < v.len() && v[i] < x
        invariant
            i <= v@.len(),
            v@ == o,
            sorted_set(o),
            forall|k: int| 0 <= k < i ==> o[k] < x,
        decreases v.len() - i,
    {
        i = i + 1;
    }
    if i < v.len() && v[i] == x {
        assert(o.to_set().insert(x) =~= o.to_set()) by {
            assert(o.to_set().contains(o[i as int]));
        }
        return;
    }
    v.insert(i, x);
    proof {
        let n = v@;
        assert(n =~= o.insert(i as int, x));
        assert forall|a: int, b: int| 0 <= a < b < n.len() implies n[a] < n[b] by {
            if b < i {
            } else if b == i {
            } else if a < i {
                assert(o[b - 1] >= o[i as int]);
            } else if a == i {
                assert(o[b - 1] >= o[i as int]);
            } else {
            }
        }
        assert forall|y: usize| n.to_set().contains(y) <==> o.to_set().insert(x).contains(y) by {
            if n.to_set().contains(y) {
                let k = choose|k: int| 0 <= k < n.len() && n[k] == y;
                if k < i {
                    assert(o[k] == y);
                } else if k > i {
                    assert(o[k - 1] == y);
                }
            }
            if o.to_set().contains(y) {
                let k = choose|k: int| 0 <= k < o.len() && o[k] == y;
                if k < i {
                    assert(n[k] == y);
                } else {
                    assert(n[k + 1] == y);
                }
            }
            if y == x {
                assert(n[i as int] == y);
            }
        }
        assert(n.to_set() =~= o.to_set().insert(x));
    }
}

/// Removes `x` from the strictly increasing `v`.
pub fn set_remove(v: &mut Vec<usize>, x: usize)
    requires
        sorted_set(old(v)@),
    ensures
        sorted_set(final(v)@),
        final(v)@.to_set() == old(v)@.to_set().remove(x),
{
    let ghost o = v@;
    let mut i: usize = 0;
    while i < v.len() && v[i] != x
        invariant
            i <= v@.len(),
            v@ == o,
            forall|k: int| 0 <= k < i ==> o[k] != x,
        decreases v.len() - i,
    {
        i = i + 1;
    }
    if i == v.len() {
        assert(o.to_set().remove(x) =~= o.to_set());
        return;
    }
    v.remove(i);
    proof {
        let n = v@;
        assert(n =~= o.remove(i as int));
        assert forall|a: int, b: int| 0 <= a < b < n.len() implies n[a] < n[b] by {
            if b < i {
            } else if a < i {
                assert(o[a] < o[b + 1]);
            } else {
                assert(o[a + 1] < o[b + 1]);
            }
        }
        assert forall|y: usize| n.to_set().contains(y) <==> o.to_set().remove(x).contains(y) by {
            if n.to_set().contains(y) {
                let k = choose|k: int| 0 <= k < n.len() && n[k] == y;
                if k < i {
                    assert(o[k] == y);
                    assert(o[k] < o[i as int]);
                } else {
                    assert(o[k + 1] == y);
                    assert(o[i as int] < o[k + 1]);
                }
            }
            if o.to_set().remove(x).contains(y) {
                let k = choose|k: int| 0 <= k < o.len() && o[k] == y;
                if k < i {
                    assert(n[k] == y);
                } else {
                    assert(k != i);
                    assert(n[k - 1] == y);
                }
            }
        }
        assert(n.to_set() =~= o.to_set().remove(x));
    }
}

/// A graph: for each vertex below the size, whether it is a key of the
/// map, and its successors in increasing order.
pub struct Graph {
    pub present: Vec<bool>,
    pub adj: Vec<Vec<usize>>,
}

impl Graph {
    /// The two tables have one entry per vertex, successor lists are
    /// increasing, and a vertex that is not a key has no successor.
    pub open spec fn wf(&self) -> bool {
        &&& self.present@.len() == self.adj@.len()
        &&& forall|k: int| 0 <= k < self.adj@.len() ==> #[trigger] sorted_set(self.adj@[k]@)
        &&& forall|k: int| 0 <= k < self.adj@.len() && !self.present@[k] ==> #[trigger] self.adj@[k]@.len() == 0
    }

    /// Whether `k` is a key of the map.
    pub open spec fn has(&self, k: usize) -> bool {
        k < self.present@.len() && self.present@[k as int]
    }

    /// The successors of `k`.
    pub open spec fn succs(&self, k: usize) -> Set<usize> {
        if k < self.adj@.len() {
            self.adj@[k as int]@.to_set()
        } else {
            Set::empty()
        }
    }

    /// The empty graph.
    pub fn new() -> (g: Graph)
        ensures
            g.wf(),
            forall|k: usize| !g.has(k) && g.succs(k) == Set::<usize>::empty(),
    {
        Graph { present: Vec::new(), adj: Vec::new() }
    }

    /// The number of vertices the tables cover.
    pub fn size(&self) -> (r: usize)
        ensures
            r == self.adj@.len(),
    {
        self.adj.len()
    }

    /// Whether `k` is a key.
    pub fn contains_key(&self, k: usize) -> (r: bool)
        requires
            self.wf(),
        ensures
            r == self.has(k),
    {
        k < self.present.len() && self.present[k]
    }

    /// The successors of `k`, in increasing order.
    pub fn successors(&self, k: usize) -> (r: Vec<usize>)
        requires
            self.wf(),
        ensures
            sorted_set(r@),
            r@.to_set() == self.succs(k),
    {
        if k < self.adj.len() {
            let r = self.adj[k].clone();
            assert(r@ =~= self.adj@[k as int]@);
            r
        } else {
            assert(Seq::<usize>::empty().to_set() =~= Set::<usize>::empty());
            Vec::new()
        }
    }

    fn grow(&mut self, n: usize)
        requires
            old(self).wf(),
        ensures
            final(self).wf(),
            final(self).adj@.len() >= n,
            final(self).adj@.len() >= old(self).adj@.len(),
            forall|j: usize| final(self).has(j) == old(self).has(j),
            forall|j: usize| final(self).succs(j) == old(self).succs(j),
    {
        let ghost o = *self;
        while self.adj.len() < n
            invariant
                self.wf(),
                self.adj@.len() >= o.adj@.len(),
                forall|j: usize| self.has(j) == o.has(j),
                forall|j: usize| self.succs(j) == o.succs(j),
            decreases n - self.adj.len(),
        {
            let ghost before = *self;
            self.present.push(false);
            self.adj.push(Vec::new());
            proof {
                assert forall|j: usize| self.succs(j) == before.succs(j) by {
                    if j == before.adj@.len() {
                        assert(self.adj@[j as int]@.to_set() =~= Set::<usize>::empty());
                    }
                }
            }
        }
    }

    /// Makes `k` a key, keeping its successors.
    pub fn add_key(&mut self, k: usize)
        requires
            old(self).wf(),
            k < usize::MAX,
        ensures
            final(self).wf(),
            k < final(self).adj@.len(),
            forall|j: usize| final(self).has(j) == (old(self).has(j) || j == k),
            forall|j: usize| final(self).succs(j) == old(self).succs(j),
    {
        self.grow(k + 1);
        self.present.set(k, true);
    }

    /// Makes `k` a key and adds `x` to its successors.
    pub fn add_edge(&mut self, k: usize, x: usize)
        requires
            old(self).wf(),
            k < usize::MAX,
        ensures
            final(self).wf(),
            k < final(self).adj@.len(),
            forall|j: usize| final(self).has(j) == (old(self).has(j) || j == k),
            final(self).succs(k) == old(self).succs(k).insert(x),
            forall|j: usize| j != k ==> final(self).succs(j) == old(self).succs(j),
    {
        self.add_key(k);
        let mut s = self.adj[k].clone();
        assert(s@ =~= self.adj@[k as int]@);
        assert(sorted_set(self.adj@[k as int]@));
        set_insert(&mut s, x);
        let ghost mid = *self;
        assert(mid.has(k));
        self.adj.set(k, s);
        proof {
            assert(self.present@ == mid.present@);
            assert forall|j: int| 0 <= j < self.adj@.len() implies #[trigger] sorted_set(self.adj@[j]@) by {
                if j != k {
                    assert(self.adj@[j] == mid.adj@[j]);
                    assert(sorted_set(mid.adj@[j]@));
                }
            }
            assert forall|j: int| 0 <= j < self.adj@.len() && !self.present@[j] implies #[trigger] self.adj@[j]@.len() == 0 by {
                if j != k {
                    assert(self.adj@[j] == mid.adj@[j]);
                }
            }
        }
    }

    /// Makes `k` a key and removes `x` from its successors.
    pub fn remove_edge(&mut self, k: usize, x: usize)
        requires
            old(self).wf(),
            k < usize::MAX,
        ensures
            final(self).wf(),
            k < final(self).adj@.len(),
            forall|j: usize| final(self).has(j) == (old(self).has(j) || j == k),
            final(self).succs(k) == old(self).succs(k).remove(x),
            forall|j: usize| j != k ==> final(self).succs(j) == old(self).succs(j),
    {
        self.add_key(k);
        let mut s = self.adj[k].clone();
        assert(s@ =~= self.adj@[k as int]@);
        assert(sorted_set(self.adj@[k as int]@));
        set_remove(&mut s, x);
        let ghost mid = *self;
        assert(mid.has(k));
        self.adj.set(k, s);
        proof {
            assert(self.present@ == mid.present@);
            assert forall|j: int| 0 <= j < self.adj@.len() implies #[trigger] sorted_set(self.adj@[j]@) by {
                if j != k {
                    assert(self.adj@[j] == mid.adj@[j]);
                    assert(sorted_set(mid.adj@[j]@));
                }
            }
            assert forall|j: int| 0 <= j < self.adj@.len() && !self.present@[j] implies #[trigger] self.adj@[j]@.len() == 0 by {
                if j != k {
                    assert(self.adj@[j] == mid.adj@[j]);
                }
            }
        }
    }

    /// Makes `set` the successors of the key `k`.
    pub fn set_successors(&mut self, k: usize, set: Vec<usize>)
        requires
            old(self).wf(),
            old(self).has(k),
            sorted_set(set@),
        ensures
            final(self).wf(),
            final(self).adj@.len() == old(self).adj@.len(),
            forall|j: usize| final(self).has(j) == old(self).has(j),
            final(self).succs(k) == set@.to_set(),
            forall|j: usize| j != k ==> final(self).succs(j) == old(self).succs(j),
    {
        let ghost mid = *self;
        self.adj.set(k, set);
        proof {
            assert(self.present@ == mid.present@);
            assert forall|j: int| 0 <= j < self.adj@.len() implies #[trigger] sorted_set(self.adj@[j]@) by {
                if j != k {
                    assert(self.adj@[j] == mid.adj@[j]);
                    assert(sorted_set(mid.adj@[j]@));
                }
            }
            assert forall|j: int| 0 <= j < self.adj@.len() && !self.present@[j] implies #[trigger] self.adj@[j]@.len() == 0 by {
                if j != k {
                    assert(self.adj@[j] == mid.adj@[j]);
                }
            }
        }
    }

    /// A copy of the graph.
    pub fn duplicate(&self) -> (r: Graph)
        requires
            self.wf(),
        ensures
            r.wf(),
            r.adj@.len() == self.adj@.len(),
            forall|j: usize| r.has(j) == self.has(j),
            forall|j: usize| r.succs(j) == self.succs(j),
    {
        let mut present: Vec<bool> = Vec::new();
        let mut adj: Vec<Vec<usize>> = Vec::new();
        let mut k: usize = 0;
        while k < self.adj.len()
            invariant
                self.wf(),
                k <= self.adj@.len(),
                present@.len() == k,
                adj@.len() == k,
                forall|i: int| 0 <= i < k ==> present@[i] == self.present@[i],
                forall|i: int| 0 <= i < k ==> (#[trigger] adj@[i])@ == self.adj@[i]@,
            decreases self.adj@.len() - k,
        {
            present.push(self.present[k]);
            let a = self.adj[k].clone();
            assert(a@ =~= self.adj@[k as int]@);
            adj.push(a);
            k = k + 1;
        }
        let r = Graph { present, adj };
        proof {
            assert forall|i: int| 0 <= i < r.adj@.len() implies #[trigger] sorted_set(r.adj@[i]@) by {
                assert(sorted_set(self.adj@[i]@));
            }
        }
        r
    }

    /// Whether every vertex is below `usize::MAX`, so that each can be a key.
    pub open spec fn bounded(&self) -> bool {
        forall|k: usize, x: usize| #[trigger] self.succs(k).contains(x) ==> x < usize::MAX
    }
}

/// The graph with every edge turned around: `v` is a predecessor of `x`
/// exactly when `x` is a successor of `v`, and the keys are the vertices
/// with a predecessor.
pub fn succ_to_pred(succ: &Graph) -> (pred: Graph)
    requires
        succ.wf(),
        succ.bounded(),
    ensures
        pred.wf(),
        forall|x: usize| pred.has(x) <==> exists|v: usize| #[trigger] succ.succs(v).contains(x),
        forall|x: usize, v: usize| #[trigger] pred.succs(x).contains(v) <==> succ.succs(v).contains(x),
        reversed(*succ, pred),
{
    let mut pred = Graph::new();
    let mut v: usize = 0;
    while v < succ.size()
        invariant
            v <= succ.adj@.len(),
            succ.wf(),
            succ.bounded(),
            pred.wf(),
            forall|x: usize| pred.has(x) <==> exists|w: usize| w < v && #[trigger] succ.succs(w).contains(x),
            forall|x: usize, w: usize| #[trigger] pred.succs(x).contains(w) <==> w < v && succ.succs(w).contains(x),
        decreases succ.adj@.len() - v,
    {
        let vv = &succ.adj[v];
        let mut j: usize = 0;
        while j < vv.len()
            invariant
                v < succ.adj@.len(),
                *vv == succ.adj@[v as int],
                j <= vv@.len(),
                succ.wf(),
                succ.bounded(),
                pred.wf(),
                forall|x: usize| pred.has(x) <==> ((exists|w: usize| w < v && #[trigger] succ.succs(w).contains(x))
                    || (exists|jj: int| 0 <= jj < j && vv@[jj] == x)),
                forall|x: usize, w: usize| #[trigger] pred.succs(x).contains(w) <==> ((w < v && succ.succs(w).contains(x))
                    || (w == v && exists|jj: int| 0 <= jj < j && vv@[jj] == x)),
            decreases vv.len() - j,
        {
            let x = vv[j];
            assert(succ.succs(v).contains(x));
            pred.add_edge(x, v);
            proof {
                assert forall|y: usize| pred.has(y) <==> ((exists|w: usize| w < v && #[trigger] succ.succs(w).contains(y))
                    || (exists|jj: int| 0 <= jj < j + 1 && vv@[jj] == y)) by {
                    if y == x {
                        assert(vv@[j as int] == y);
                    }
                }
                assert forall|y: usize, w: usize| #[trigger] pred.succs(y).contains(w) <==> ((w < v && succ.succs(w).contains(y))
                    || (w == v && exists|jj: int| 0 <= jj < j + 1 && vv@[jj] == y)) by {
                    if y == x {
                        assert(vv@[j as int] == y);
                    }
                }
            }
            j = j + 1;
        }
        proof {
            assert forall|x: usize| pred.has(x) <==> exists|w: usize| w < v + 1 && #[trigger] succ.succs(w).contains(x) by {
                if exists|jj: int| 0 <= jj < vv@.len() && vv@[jj] == x {
                    let jj = choose|jj: int| 0 <= jj < vv@.len() && vv@[jj] == x;
                    assert(succ.succs(v).contains(x));
                }
                if succ.succs(v).contains(x) {
                    let jj = choose|jj: int| 0 <= jj < vv@.len() && vv@[jj] == x;
                }
            }
            assert forall|x: usize, w: usize| #[trigger] pred.succs(x).contains(w) <==> w < v + 1 && succ.succs(w).contains(x) by {
                if w == v && succ.succs(w).contains(x) {
                    let jj = choose|jj: int| 0 <= jj < vv@.len() && vv@[jj] == x;
                }
                if w == v && exists|jj: int| 0 <= jj < vv@.len() && vv@[jj] == x {
                    let jj = choose|jj: int| 0 <= jj < vv@.len() && vv@[jj] == x;
                    assert(succ.succs(v).contains(x));
                }
            }
        }
        v = v + 1;
    }
    proof {
        assert forall|x: usize| pred.has(x) <==> exists|w: usize| #[trigger] succ.succs(w).contains(x) by {
            if exists|w: usize| #[trigger] succ.succs(w).contains(x) {
                let w = choose|w: usize| #[trigger] succ.succs(w).contains(x);
                assert(w < succ.adj@.len());
            }
        }
        assert forall|x: usize, w: usize| #[trigger] pred.succs(x).contains(w) <==> succ.succs(w).contains(x) by {
            if succ.succs(w).contains(x) {
                assert(w < succ.adj@.len());
            }
        }
    }
    pred
}

/// `p` is `g` with every edge turned around: its keys are the vertices
/// with a predecessor in `g`, and `v` is a predecessor of `x` in `p`
/// exactly when `x` is a successor of `v` in `g`.
pub open spec fn reversed(g: Graph, p: Graph) -> bool {
    &&& forall|x: usize| p.has(x) <==> exists|v: usize| #[trigger] g.succs(v).contains(x)
    &&& forall|x: usize, v: usize| #[trigger] p.succs(x).contains(v) <==> g.succs(v).contains(x)
}

/// Turning the edges around twice gives back the successors of every
/// vertex; the keys are then the vertices with a successor.
pub proof fn lemma_reversed_twice(g: Graph, p: Graph, pp: Graph)
    requires
        reversed(g, p),
        reversed(p, pp),
    ensures
        forall|v: usize| #[trigger] pp.succs(v) == g.succs(v),
        forall|v: usize| pp.has(v) <==> !(#[trigger] g.succs(v)).is_empty(),
{
    assert forall|v: usize| #[trigger] pp.succs(v) == g.succs(v) by {
        assert forall|x: usize| pp.succs(v).contains(x) <==> g.succs(v).contains(x) by {
            assert(pp.succs(v).contains(x) <==> p.succs(x).contains(v));
        }
        assert(pp.succs(v) =~= g.succs(v));
    }
    assert forall|v: usize| pp.has(v) <==> !(#[trigger] g.succs(v)).is_empty() by {
        if pp.has(v) {
            let x = choose|x: usize| #[trigger] p.succs(x).contains(v);
            assert(g.succs(v).contains(x));
        }
        if !g.succs(v).is_empty() {
            let x = g.succs(v).choose();
            assert(g.succs(v).contains(x));
            assert(p.succs(x).contains(v));
        }
    }
}

/// Whether `t` is the image of a key of `g` under `proj`.
pub open spec fn proj_key(g: Graph, proj: Seq<usize>, t: usize, n: int) -> bool {
    exists|s: usize| s < n && #[trigger] g.has(s) && proj[s as int] == t
}

/// Whether `t -> u` is the image of an edge of `g` under `proj`.
pub open spec fn proj_edge(g: Graph, proj: Seq<usize>, t: usize, u: usize, n: int) -> bool {
    exists|s: usize, s2: usize|
        s < n && g.has(s) && proj[s as int] == t && #[trigger] g.succs(s).contains(s2) && proj[s2 as int] == u
}

/// The image of `succ` under `proj`: a key for the image of each key, and
/// an edge for the image of each edge.
pub fn succ_proj(succ: &Graph, proj: &Vec<usize>) -> (r: Graph)
    requires
        succ.wf(),
        succ.adj@.len() <= proj@.len(),
        forall|k: usize, x: usize| #[trigger] succ.succs(k).contains(x) ==> x < proj@.len(),
        forall|i: int| 0 <= i < proj@.len() ==> #[trigger] proj@[i] < usize::MAX,
    ensures
        r.wf(),
        forall|t: usize| r.has(t) <==> proj_key(*succ, proj@, t, succ.adj@.len() as int),
        forall|t: usize, u: usize| #[trigger] r.succs(t).contains(u) <==> proj_edge(*succ, proj@, t, u, succ.adj@.len() as int),
{
    let mut r = Graph::new();
    let mut s: usize = 0;
    while s < succ.size()
        invariant
            s <= succ.adj@.len(),
            succ.wf(),
            succ.adj@.len() <= proj@.len(),
            forall|k: usize, x: usize| #[trigger] succ.succs(k).contains(x) ==> x < proj@.len(),
            forall|i: int| 0 <= i < proj@.len() ==> #[trigger] proj@[i] < usize::MAX,
            r.wf(),
            forall|t: usize| r.has(t) <==> proj_key(*succ, proj@, t, s as int),
            forall|t: usize, u: usize| #[trigger] r.succs(t).contains(u) <==> proj_edge(*succ, proj@, t, u, s as int),
        decreases succ.adj@.len() - s,
    {
        if succ.present[s] {
            let t = proj[s];
            r.add_key(t);
            proof {
                assert forall|t2: usize| r.has(t2) <==> proj_key(*succ, proj@, t2, s + 1) by {
                    if t2 == t {
                        assert(succ.has(s));
                    }
                    if proj_key(*succ, proj@, t2, s + 1) {
                        let a = choose|a: usize| a < s + 1 && #[trigger] succ.has(a) && proj@[a as int] == t2;
                        if a < s {
                            assert(proj_key(*succ, proj@, t2, s as int));
                        }
                    }
                }
            }
            let ss = &succ.adj[s];
            let mut j: usize = 0;
            while j < ss.len()
                invariant
                    s < succ.adj@.len(),
                    succ.has(s),
                    t == proj@[s as int],
                    *ss == succ.adj@[s as int],
                    j <= ss@.len(),
                    succ.wf(),
                    succ.adj@.len() <= proj@.len(),
                    forall|k: usize, x: usize| #[trigger] succ.succs(k).contains(x) ==> x < proj@.len(),
                    forall|i: int| 0 <= i < proj@.len() ==> #[trigger] proj@[i] < usize::MAX,
                    r.wf(),
                    forall|t2: usize| r.has(t2) <==> proj_key(*succ, proj@, t2, s + 1),
                    forall|t2: usize, u: usize| #[trigger] r.succs(t2).contains(u) <==> (proj_edge(*succ, proj@, t2, u, s as int)
                        || (t2 == t && exists|jj: int| 0 <= jj < j && proj@[ss@[jj] as int] == u)),
                decreases ss.len() - j,
            {
                let x = ss[j];
                assert(succ.succs(s).contains(x));
                let u = proj[x];
                assert(succ.has(s) && proj@[s as int] == t);
                assert(proj_key(*succ, proj@, t, s + 1));
                r.add_edge(t, u);
                proof {
                    assert forall|t2: usize| r.has(t2) <==> proj_key(*succ, proj@, t2, s + 1) by {
                        if t2 == t {
                            assert(succ.has(s));
                        }
                    }
                    assert forall|t2: usize, u2: usize| #[trigger] r.succs(t2).contains(u2) <==> (proj_edge(*succ, proj@, t2, u2, s as int)
                        || (t2 == t && exists|jj: int| 0 <= jj < j + 1 && proj@[ss@[jj] as int] == u2)) by {
                        if t2 == t && u2 == u {
                            assert(proj@[ss@[j as int] as int] == u2);
                        }
                    }
                }
                j = j + 1;
            }
            proof {
                assert forall|t2: usize, u: usize| #[trigger] r.succs(t2).contains(u) <==> proj_edge(*succ, proj@, t2, u, s + 1) by {
                    if t2 == t && exists|jj: int| 0 <= jj < ss@.len() && proj@[ss@[jj] as int] == u {
                        let jj = choose|jj: int| 0 <= jj < ss@.len() && proj@[ss@[jj] as int] == u;
                        assert(succ.succs(s).contains(ss@[jj]));
                    }
                    if proj_edge(*succ, proj@, t2, u, s + 1) {
                        let (a, b) = choose|a: usize, b: usize|
                            a < s + 1 && succ.has(a) && proj@[a as int] == t2 && #[trigger] succ.succs(a).contains(b) && proj@[b as int] == u;
                        if a == s {
                            let jj = choose|jj: int| 0 <= jj < ss@.len() && ss@[jj] == b;
                        }
                    }
                }
            }
        } else {
            proof {
                assert forall|t: usize| r.has(t) <==> proj_key(*succ, proj@, t, s + 1) by {
                    if proj_key(*succ, proj@, t, s + 1) {
                        let a = choose|a: usize| a < s + 1 && #[trigger] succ.has(a) && proj@[a as int] == t;
                    }
                }
                assert forall|t: usize, u: usize| #[trigger] r.succs(t).contains(u) <==> proj_edge(*succ, proj@, t, u, s + 1) by {
                    if proj_edge(*succ, proj@, t, u, s + 1) {
                        let (a, b) = choose|a: usize, b: usize|
                            a < s + 1 && succ.has(a) && proj@[a as int] == t && #[trigger] succ.succs(a).contains(b) && proj@[b as int] == u;
                    }
                }
            }
        }
        s = s + 1;
    }
    r
}

/// Whether `x` holds the seeds and every vertex with predecessors that all
/// are in `x`.
pub open spec fn closed_under(pred: Graph, seeds: Seq<usize>, x: Set<usize>) -> bool {
    &&& forall|i: int| 0 <= i < seeds.len() ==> x.contains(#[trigger] seeds[i])
    &&& forall|v: usize| !(#[trigger] pred.succs(v)).is_empty() && pred.succs(v).subset_of(x) ==> x.contains(v)
}

/// Whether `x` is the least such set.
pub open spec fn least_closed(pred: Graph, seeds: Seq<usize>, x: Set<usize>) -> bool {
    &&& closed_under(pred, seeds, x)
    &&& forall|y: Set<usize>| #[trigger] closed_under(pred, seeds, y) ==> x.subset_of(y)
}

/// The vertices a topological sort from `seeds` reaches: the seeds, and
/// every vertex whose predecessors are all reached.
pub open spec fn sortable(pred: Graph, seeds: Seq<usize>) -> Set<usize> {
    choose|x: Set<usize>| least_closed(pred, seeds, x)
}

/// Every vertex of `s` comes after all of its predecessors.
pub open spec fn topological(pred: Graph, s: Seq<usize>) -> bool {
    forall|i: int, w: usize|
        0 <= i < s.len() && #[trigger] pred.succs(s[i]).contains(w) ==> exists|j: int| 0 <= j < i && s[j] == w
}

/// The least closed set exists: it is what every closed set holds.
pub proof fn lemma_sortable_least(pred: Graph, seeds: Seq<usize>)
    ensures
        least_closed(pred, seeds, sortable(pred, seeds)),
{
    let x = Set::new(|v: usize| forall|y: Set<usize>| #[trigger] closed_under(pred, seeds, y) ==> y.contains(v));
    assert forall|i: int| 0 <= i < seeds.len() implies x.contains(#[trigger] seeds[i]) by {
        assert forall|y: Set<usize>| #[trigger] closed_under(pred, seeds, y) implies y.contains(seeds[i]) by {}
    }
    assert forall|v: usize| !(#[trigger] pred.succs(v)).is_empty() && pred.succs(v).subset_of(x) implies x.contains(v) by {
        assert forall|y: Set<usize>| #[trigger] closed_under(pred, seeds, y) implies y.contains(v) by {
            assert forall|w: usize| pred.succs(v).contains(w) implies y.contains(w) by {
                assert(x.contains(w));
            }
        }
    }
    assert(closed_under(pred, seeds, x));
    assert forall|y: Set<usize>| #[trigger] closed_under(pred, seeds, y) implies x.subset_of(y) by {}
    assert(least_closed(pred, seeds, x));
}

proof fn lemma_awaited_reached(pred: Graph, seeds: Seq<usize>, rank: spec_fn(usize) -> nat, x: Set<usize>, v: usize, w: usize)
    requires
        forall|a: usize, b: usize| #[trigger] pred.succs(a).contains(b) ==> rank(b) < rank(a),
        forall|a: usize, b: usize| #[trigger] pred.succs(a).contains(b) ==> (pred.succs(b).is_empty() ==> seeds.contains(b)),
        closed_under(pred, seeds, x),
        pred.succs(v).contains(w),
    ensures
        x.contains(w),
    decreases rank(w),
{
    if pred.succs(w).is_empty() {
        assert(seeds.contains(w));
        let i = choose|i: int| 0 <= i < seeds.len() && seeds[i] == w;
        assert(x.contains(seeds[i]));
    } else {
        assert forall|u: usize| pred.succs(w).contains(u) implies x.contains(u) by {
            assert(rank(u) < rank(w));
            lemma_awaited_reached(pred, seeds, rank, x, w, u);
        }
        assert(pred.succs(w).subset_of(x));
    }
}

/// Without cycles (`rank` falls along every edge from a vertex to one it
/// awaits), and with every awaited vertex that awaits nothing among the
/// seeds, the sort reaches every awaited vertex: `topo_sort` succeeds.
pub proof fn lemma_acyclic_sortable(pred: Graph, seeds: Seq<usize>, rank: spec_fn(usize) -> nat)
    requires
        forall|v: usize, w: usize| #[trigger] pred.succs(v).contains(w) ==> rank(w) < rank(v),
        forall|v: usize, w: usize| #[trigger] pred.succs(v).contains(w) ==> (pred.succs(w).is_empty() ==> seeds.contains(w)),
    ensures
        forall|v: usize| (#[trigger] pred.succs(v)).subset_of(sortable(pred, seeds)),
{
    lemma_sortable_least(pred, seeds);
    let x = sortable(pred, seeds);
    assert forall|v: usize| (#[trigger] pred.succs(v)).subset_of(x) by {
        assert forall|w: usize| pred.succs(v).contains(w) implies x.contains(w) by {
            lemma_awaited_reached(pred, seeds, rank, x, v, w);
        }
    }
}

/// A cycle makes the sort fail: where `c[0]` awaits `c[1]`, ..., and the
/// last awaits `c[0]`, and the seeds await nothing (as `topo_sort` asks),
/// no vertex of the cycle is sortable, so some vertex awaits one that is not.
pub proof fn lemma_cycle_unsortable(pred: Graph, seeds: Seq<usize>, c: Seq<usize>)
    requires
        c.len() > 0,
        forall|i: int| 0 <= i < c.len() - 1 ==> #[trigger] pred.succs(c[i]).contains(c[i + 1]),
        pred.succs(c.last()).contains(c[0]),
        forall|i: int| 0 <= i < seeds.len() ==> (#[trigger] pred.succs(seeds[i])).is_empty(),
    ensures
        !pred.succs(c.last()).subset_of(sortable(pred, seeds)),
{
    lemma_sortable_least(pred, seeds);
    let x = sortable(pred, seeds);
    let cs = c.to_set();
    let y = x.difference(cs);
    // every vertex of the cycle awaits one of the cycle
    assert forall|v: usize| cs.contains(v) implies exists|u: usize| pred.succs(v).contains(u) && #[trigger] cs.contains(u) by {
        let i = choose|i: int| 0 <= i < c.len() && c[i] == v;
        if i < c.len() - 1 {
            assert(pred.succs(c[i]).contains(c[i + 1]));
            assert(cs.contains(c[i + 1]));
        } else {
            assert(cs.contains(c[0]));
        }
    }
    assert forall|i: int| 0 <= i < seeds.len() implies y.contains(#[trigger] seeds[i]) by {
        assert(x.contains(seeds[i]));
        if cs.contains(seeds[i]) {
            let u = choose|u: usize| pred.succs(seeds[i]).contains(u) && #[trigger] cs.contains(u);
        }
    }
    assert forall|v: usize| !(#[trigger] pred.succs(v)).is_empty() && pred.succs(v).subset_of(y) implies y.contains(v) by {
        assert(pred.succs(v).subset_of(x));
        assert(x.contains(v));
        if cs.contains(v) {
            let u = choose|u: usize| pred.succs(v).contains(u) && #[trigger] cs.contains(u);
            assert(y.contains(u));
        }
    }
    assert(closed_under(pred, seeds, y));
    assert(x.subset_of(y));
    assert(cs.contains(c[0]));
    assert(!x.contains(c[0]));
}

/// Graphs with the same successors have the same least closed sets.
pub proof fn lemma_least_closed_transfer(g1: Graph, g2: Graph, seeds: Seq<usize>, x: Set<usize>)
    requires
        forall|v: usize| g1.succs(v) == g2.succs(v),
        least_closed(g1, seeds, x),
    ensures
        least_closed(g2, seeds, x),
{
    assert forall|y: Set<usize>| closed_under(g1, seeds, y) <==> closed_under(g2, seeds, y) by {
        if closed_under(g1, seeds, y) {
            assert forall|v: usize| !(#[trigger] g2.succs(v)).is_empty() && g2.succs(v).subset_of(y) implies y.contains(v) by {
                assert(g1.succs(v) == g2.succs(v));
            }
        }
        if closed_under(g2, seeds, y) {
            assert forall|v: usize| !(#[trigger] g1.succs(v)).is_empty() && g1.succs(v).subset_of(y) implies y.contains(v) by {
                assert(g1.succs(v) == g2.succs(v));
            }
        }
    }
}

/// A least closed set is unique.
pub proof fn lemma_least_closed_unique(pred: Graph, seeds: Seq<usize>, x: Set<usize>, y: Set<usize>)
    requires
        least_closed(pred, seeds, x),
        least_closed(pred, seeds, y),
    ensures
        x == y,
{
    assert(x.subset_of(y));
    assert(y.subset_of(x));
    assert(x =~= y);
}

/// A sequence that starts with the seeds, in which every other vertex has
/// predecessors, all of them earlier, lies within every closed set.
proof fn lemma_order_within_closed(pred: Graph, seeds: Seq<usize>, q: Seq<usize>, y: Set<usize>, n: int)
    requires
        seeds.len() <= q.len(),
        q.subrange(0, seeds.len() as int) == seeds,
        topological(pred, q),
        forall|i: int| seeds.len() <= i < q.len() ==> !(#[trigger] pred.succs(q[i])).is_empty(),
        closed_under(pred, seeds, y),
        0 <= n <= q.len(),
    ensures
        forall|i: int| 0 <= i < n ==> y.contains(#[trigger] q[i]),
    decreases n,
{
    if n > 0 {
        lemma_order_within_closed(pred, seeds, q, y, n - 1);
        let i = n - 1;
        if i < seeds.len() {
            assert(q[i] == seeds[i]);
        } else {
            assert forall|w: usize| pred.succs(q[i]).contains(w) implies y.contains(w) by {
                let j = choose|j: int| 0 <= j < i && q[j] == w;
            }
            assert(pred.succs(q[i]).subset_of(y));
        }
    }
}

/// The graph without its keys that have no successor.
pub fn retain_nonempty(g: Graph) -> (r: Graph)
    requires
        g.wf(),
    ensures
        r.wf(),
        forall|v: usize| r.succs(v) == g.succs(v),
        forall|v: usize| r.has(v) <==> !r.succs(v).is_empty(),
{
    let mut g = g;
    let ghost o = g;
    let mut k: usize = 0;
    while k < g.present.len()
        invariant
            g.wf(),
            k <= g.present@.len(),
            g.adj@ == o.adj@,
            forall|v: usize| v < k ==> (g.has(v) <==> g.adj@[v as int]@.len() > 0),
        decreases g.present@.len() - k,
    {
        let nonempty = g.adj[k].len() > 0;
        let ghost before = g;
        g.present.set(k, nonempty);
        proof {
            assert forall|v: usize| v < k + 1 implies (g.has(v) <==> g.adj@[v as int]@.len() > 0) by {
                if v < k {
                    assert(before.has(v) == g.has(v));
                }
            }
            assert forall|j: int| 0 <= j < g.adj@.len() && !g.present@[j] implies #[trigger] g.adj@[j]@.len() == 0 by {
                if j != k {
                    assert(g.present@[j] == before.present@[j]);
                }
            }
        }
        k = k + 1;
    }
    proof {
        assert forall|v: usize| g.has(v) <==> !g.succs(v).is_empty() by {
            if v < g.adj@.len() {
                let s = g.adj@[v as int]@;
                if s.len() > 0 {
                    assert(s.to_set().contains(s[0]));
                } else {
                    assert(s.to_set() =~= Set::<usize>::empty());
                }
            }
        }
    }
    g
}

/// Whether some vertex has a successor.
pub fn any_edge(g: &Graph) -> (r: bool)
    requires
        g.wf(),
    ensures
        r <==> exists|v: usize| !(#[trigger] g.succs(v)).is_empty(),
{
    let mut k: usize = 0;
    while k < g.adj.len()
        invariant
            g.wf(),
            k <= g.adj@.len(),
            forall|v: usize| v < k ==> g.succs(v).is_empty(),
        decreases g.adj@.len() - k,
    {
        if g.adj[k].len() > 0 {
            assert(g.succs(k).contains(g.adj@[k as int]@[0]));
            return true;
        }
        assert(g.adj@[k as int]@.to_set() =~= Set::<usize>::empty());
        k = k + 1;
    }
    false
}

/// Sorts topologically, starting from `seed`: a vertex comes out once all
/// its predecessors in `pred` have; `succ` lists the same edges the other
/// way round. When some vertex never comes out because of a cycle, the
/// predecessors that remain, by vertex, are returned instead.
pub fn topo_sort(seed: &Vec<usize>, succ: &Graph, pred: Graph) -> (r: Result<Vec<usize>, Graph>)
    requires
        succ.wf(),
        pred.wf(),
        succ.bounded(),
        forall|v: usize, x: usize| #[trigger] succ.succs(v).contains(x) <==> pred.succs(x).contains(v),
        seed@.no_duplicates(),
        forall|i: int| 0 <= i < seed@.len() ==> (#[trigger] pred.succs(seed@[i])).is_empty(),
    ensures
        least_closed(pred, seed@, sortable(pred, seed@)),
        r is Ok <==> forall|v: usize| (#[trigger] pred.succs(v)).subset_of(sortable(pred, seed@)),
        r matches Ok(sort) ==> {
            &&& sort@.no_duplicates()
            &&& sort@.to_set() == sortable(pred, seed@)
            &&& seed@.len() <= sort@.len()
            &&& sort@.subrange(0, seed@.len() as int) == seed@
            &&& topological(pred, sort@)
        },
        r matches Err(g) ==> {
            &&& g.wf()
            &&& forall|v: usize| #[trigger] g.succs(v) == pred.succs(v).difference(sortable(pred, seed@))
            &&& forall|v: usize| g.has(v) <==> !(#[trigger] g.succs(v)).is_empty()
        },
{
    let ghost p0 = pred;
    let mut pred = pred;
    let mut queue: Vec<usize> = seed.clone();
    assert(queue@ =~= seed@);
    let mut head: usize = 0;
    proof {
        assert(queue@.subrange(0, 0).to_set() =~= Set::<usize>::empty());
        assert forall|x: usize| pred.succs(x) == p0.succs(x).difference(queue@.subrange(0, 0).to_set()) by {
            assert(p0.succs(x).difference(Set::<usize>::empty()) =~= p0.succs(x));
        }
        assert forall|x: usize| queue@.contains(x) <==> (seed@.contains(x) || (!p0.succs(x).is_empty()
            && p0.succs(x).subset_of(queue@.subrange(0, 0).to_set()))) by {
            if !p0.succs(x).is_empty() {
                let w = p0.succs(x).choose();
                assert(p0.succs(x).contains(w));
            }
        }
        assert(queue@.subrange(0, seed@.len() as int) =~= seed@);
    }
    let n0 = queue.len();
    while head < queue.len()
        invariant
            succ.wf(),
            succ.bounded(),
            forall|v: usize, x: usize| #[trigger] succ.succs(v).contains(x) <==> p0.succs(x).contains(v),
            seed@.no_duplicates(),
            forall|i: int| 0 <= i < seed@.len() ==> (#[trigger] p0.succs(seed@[i])).is_empty(),
            pred.wf(),
            head <= queue@.len(),
            queue@.len() <= usize::MAX,
            forall|x: usize| #[trigger] pred.succs(x) == p0.succs(x).difference(queue@.subrange(0, head as int).to_set()),
            queue@.no_duplicates(),
            forall|x: usize| #[trigger] queue@.contains(x) <==> (seed@.contains(x) || (!p0.succs(x).is_empty()
                && p0.succs(x).subset_of(queue@.subrange(0, head as int).to_set()))),
            seed@.len() <= queue@.len(),
            queue@.subrange(0, seed@.len() as int) == seed@,
            topological(p0, queue@),
            forall|i: int| seed@.len() <= i < queue@.len() ==> !(#[trigger] p0.succs(queue@[i])).is_empty(),
        decreases 2 * (usize::MAX - queue@.len()) + (queue@.len() - head),
    {
        let v = queue[head];
        let ghost q_before = queue@;
        let ghost popped_old = queue@.subrange(0, head as int).to_set();
        head = head + 1;
        let ghost popped = queue@.subrange(0, head as int).to_set();
        proof {
            assert(queue@.subrange(0, head as int) =~= queue@.subrange(0, head - 1).push(v));
            queue@.subrange(0, head - 1).lemma_push_to_set_commute(v);
            assert(popped =~= popped_old.insert(v));
            assert(!popped_old.contains(v)) by {
                if popped_old.contains(v) {
                    let sub = queue@.subrange(0, head - 1);
                    let j = choose|j: int| 0 <= j < sub.len() && #[trigger] sub[j] == v;
                    assert(queue@[j] == queue@[head - 1]);
                }
            }
        }
        let l = succ.successors(v);
        proof {
            assert(l@.subrange(0, l@.len() as int) =~= l@);
            assert forall|x: usize| #[trigger] pred.succs(x) == (if l@.subrange(0, l@.len() as int).contains(x) {
                p0.succs(x).difference(popped).insert(v)
            } else {
                p0.succs(x).difference(popped)
            }) by {
                if l@.contains(x) {
                    let k = choose|k: int| 0 <= k < l@.len() && l@[k] == x;
                    assert(l@.to_set().contains(x));
                    assert(p0.succs(x).contains(v));
                    assert(pred.succs(x) =~= p0.succs(x).difference(popped).insert(v));
                } else {
                    if p0.succs(x).contains(v) {
                        assert(succ.succs(v).contains(x));
                    }
                    assert(pred.succs(x) =~= p0.succs(x).difference(popped));
                }
            }
            assert(queue@.subrange(0, q_before.len() as int) =~= q_before);
            assert forall|x: usize| #[trigger] queue@.contains(x) <==> (seed@.contains(x) || (!p0.succs(x).is_empty()
                && p0.succs(x).subset_of(popped) && !l@.subrange(0, l@.len() as int).contains(x))) by {
                if l@.contains(x) {
                    let k = choose|k: int| 0 <= k < l@.len() && l@[k] == x;
                    assert(l@.to_set().contains(x));
                    assert(p0.succs(x).contains(v));
                    assert(!p0.succs(x).subset_of(popped_old));
                    if seed@.contains(x) {
                        let i = choose|i: int| 0 <= i < seed@.len() && seed@[i] == x;
                        assert(p0.succs(seed@[i]).contains(v));
                    }
                } else {
                    if p0.succs(x).contains(v) {
                        assert(succ.succs(v).contains(x));
                    }
                    if p0.succs(x).subset_of(popped) {
                        assert(p0.succs(x).subset_of(popped_old));
                    }
                }
            }
        }
        let mut j: usize = 0;
        while j < l.len()
            invariant
                succ.wf(),
                succ.bounded(),
                forall|w: usize, x: usize| #[trigger] succ.succs(w).contains(x) <==> p0.succs(x).contains(w),
                seed@.no_duplicates(),
                forall|i: int| 0 <= i < seed@.len() ==> (#[trigger] p0.succs(seed@[i])).is_empty(),
                pred.wf(),
                sorted_set(l@),
                l@.to_set() == succ.succs(v),
                j <= l@.len(),
                1 <= head <= queue@.len(),
                queue@[head - 1] == v,
                q_before.len() <= queue@.len(),
                queue@.subrange(0, q_before.len() as int) == q_before,
                head <= q_before.len(),
                popped == queue@.subrange(0, head as int).to_set(),
                !popped_old.contains(v),
                popped == popped_old.insert(v),
                forall|x: usize| #[trigger] pred.succs(x) == (if l@.subrange(j as int, l@.len() as int).contains(x) {
                    p0.succs(x).difference(popped).insert(v)
                } else {
                    p0.succs(x).difference(popped)
                }),
                queue@.no_duplicates(),
                forall|x: usize| #[trigger] queue@.contains(x) <==> (seed@.contains(x) || (!p0.succs(x).is_empty()
                    && p0.succs(x).subset_of(popped) && !l@.subrange(j as int, l@.len() as int).contains(x))),
                seed@.len() <= queue@.len(),
                queue@.subrange(0, seed@.len() as int) == seed@,
                topological(p0, queue@),
                forall|i: int| seed@.len() <= i < queue@.len() ==> !(#[trigger] p0.succs(queue@[i])).is_empty(),
            decreases l.len() - j,
        {
            let x = l[j];
            assert(succ.succs(v).contains(x)) by {
                assert(l@.to_set().contains(l@[j as int]));
            }
            assert(p0.succs(x).contains(v));
            let ghost rest = l@.subrange(j as int, l@.len() as int);
            let ghost rest2 = l@.subrange(j + 1, l@.len() as int);
            assert(rest.contains(x)) by {
                assert(rest[0] == x);
            }
            assert(!rest2.contains(x)) by {
                if rest2.contains(x) {
                    let k = choose|k: int| 0 <= k < rest2.len() && rest2[k] == x;
                    assert(l@[j + 1 + k] == x);
                }
            }
            assert forall|y: usize| y != x implies (rest.contains(y) <==> rest2.contains(y)) by {
                if rest.contains(y) {
                    let k = choose|k: int| 0 <= k < rest.len() && rest[k] == y;
                    assert(k != 0);
                    assert(rest2[k - 1] == y);
                }
                if rest2.contains(y) {
                    let k = choose|k: int| 0 <= k < rest2.len() && rest2[k] == y;
                    assert(rest[k + 1] == y);
                }
            }
            pred.remove_edge(x, v);
            assert(pred.succs(x) =~= p0.succs(x).difference(popped));
            let ghost q_mid = queue@;
            if pred.adj[x].len() == 0 {
                proof {
                    assert(pred.succs(x) =~= Set::<usize>::empty()) by {
                        assert(pred.adj@[x as int]@ =~= Seq::<usize>::empty());
                    }
                    assert(p0.succs(x).subset_of(popped)) by {
                        assert forall|w: usize| p0.succs(x).contains(w) implies popped.contains(w) by {
                            if !popped.contains(w) {
                                assert(p0.succs(x).difference(popped).contains(w));
                            }
                        }
                    }
                    assert(!queue@.contains(x)) by {
                        if seed@.contains(x) {
                            let i = choose|i: int| 0 <= i < seed@.len() && seed@[i] == x;
                            assert(p0.succs(seed@[i]).contains(v));
                        }
                    }
                }
                queue.push(x);
                proof {
                    let q = queue@;
                    assert(q == q_mid.push(x));
                    assert(q.subrange(0, q_before.len() as int) =~= q_mid.subrange(0, q_before.len() as int));
                    assert(q.subrange(0, head as int) =~= q_mid.subrange(0, head as int));
                    assert(q.subrange(0, seed@.len() as int) =~= q_mid.subrange(0, seed@.len() as int));
                    assert forall|a: int, b: int| 0 <= a < b < q.len() implies q[a] != q[b] by {
                        if b == q.len() - 1 {
                            assert(q_mid.contains(q[a]) || a == q.len() - 1);
                        }
                    }
                    assert(q.no_duplicates());
                    assert forall|i: int, w: usize| 0 <= i < q.len() && #[trigger] p0.succs(q[i]).contains(w) implies exists|k: int|
                        0 <= k < i && q[k] == w by {
                        if i == q.len() - 1 {
                            assert(popped.contains(w));
                            let sub = q_mid.subrange(0, head as int);
                            let k = choose|k: int| 0 <= k < sub.len() && #[trigger] sub[k] == w;
                            assert(q[k] == w);
                        } else {
                            let k = choose|k: int| 0 <= k < i && q_mid[k] == w;
                            assert(q[k] == w);
                        }
                    }
                    assert(p0.succs(x).contains(v));
                    assert(!q_mid.contains(x)) by {
                        if seed@.contains(x) {
                            let i = choose|i: int| 0 <= i < seed@.len() && seed@[i] == x;
                            assert(p0.succs(seed@[i]).contains(v));
                        }
                    }
                    assert forall|y: usize| #[trigger] q.contains(y) <==> (seed@.contains(y) || (!p0.succs(y).is_empty()
                        && p0.succs(y).subset_of(popped) && !rest2.contains(y))) by {
                        if y != x {
                            assert(rest.contains(y) <==> rest2.contains(y));
                            if q.contains(y) {
                                let k = choose|k: int| 0 <= k < q.len() && q[k] == y;
                                assert(k < q_mid.len());
                                assert(q_mid[k] == y);
                            }
                            if q_mid.contains(y) {
                                let k = choose|k: int| 0 <= k < q_mid.len() && q_mid[k] == y;
                                assert(q[k] == y);
                            }
                        } else {
                            assert(q[q.len() - 1] == x);
                        }
                    }
                }
            } else {
                proof {
                    let w = pred.adj@[x as int]@[0];
                    assert(pred.succs(x).contains(w));
                    assert(!p0.succs(x).subset_of(popped));
                    assert forall|y: usize| #[trigger] queue@.contains(y) <==> (seed@.contains(y) || (!p0.succs(y).is_empty()
                        && p0.succs(y).subset_of(popped) && !rest2.contains(y))) by {
                        if y != x {
                            assert(rest.contains(y) <==> rest2.contains(y));
                        } else {
                            if seed@.contains(x) {
                                let i = choose|i: int| 0 <= i < seed@.len() && seed@[i] == x;
                                assert(p0.succs(seed@[i]).contains(v));
                            }
                        }
                    }
                }
            }
            proof {
                assert forall|y: usize| #[trigger] pred.succs(y) == (if rest2.contains(y) {
                    p0.succs(y).difference(popped).insert(v)
                } else {
                    p0.succs(y).difference(popped)
                }) by {
                }
            }
            j = j + 1;
        }
        proof {
            assert(l@.subrange(l@.len() as int, l@.len() as int) =~= Seq::<usize>::empty());
        }
        let n = queue.len();
        assert(queue@.len() <= usize::MAX);
    }
    proof {
        let q = queue@;
        let sset = q.to_set();
        assert(q.subrange(0, head as int) =~= q);
        assert(closed_under(p0, seed@, sset)) by {
            assert forall|i: int| 0 <= i < seed@.len() implies sset.contains(#[trigger] seed@[i]) by {
                assert(q.subrange(0, seed@.len() as int)[i] == seed@[i]);
            }
        }
        assert forall|y: Set<usize>| #[trigger] closed_under(p0, seed@, y) implies sset.subset_of(y) by {
            lemma_order_within_closed(p0, seed@, q, y, q.len() as int);
            assert forall|w: usize| sset.contains(w) implies y.contains(w) by {
                let k = choose|k: int| 0 <= k < q.len() && q[k] == w;
            }
        }
        assert(least_closed(p0, seed@, sset));
        lemma_least_closed_unique(p0, seed@, sset, sortable(p0, seed@));
    }
    let rest = retain_nonempty(pred);
    if any_edge(&rest) {
        proof {
            let v = choose|v: usize| !(#[trigger] rest.succs(v)).is_empty();
            let w = rest.succs(v).choose();
            assert(rest.succs(v).contains(w));
            assert(!p0.succs(v).subset_of(sortable(p0, seed@)));
        }
        Err(rest)
    } else {
        proof {
            assert forall|v: usize| (#[trigger] p0.succs(v)).subset_of(sortable(p0, seed@)) by {
                assert forall|w: usize| p0.succs(v).contains(w) implies sortable(p0, seed@).contains(w) by {
                    if !sortable(p0, seed@).contains(w) {
                        assert(rest.succs(v).contains(w));
                    }
                }
            }
        }
        Ok(queue)
    }
}

/// The elements of `xs` that are neither in `seen` nor earlier in `xs`,
/// in order.
pub open spec fn fresh(seen: Set<usize>, xs: Seq<usize>) -> Seq<usize>
    decreases xs.len(),
{
    if xs.len() == 0 {
        Seq::empty()
    } else {
        let f = fresh(seen, xs.drop_last());
        let x = xs.last();
        if seen.contains(x) || f.contains(x) {
            f
        } else {
            f.push(x)
        }
    }
}

/// One more element for `fresh`: what comes up is what was neither seen
/// nor came up before.
proof fn lemma_fresh_step(seen: Set<usize>, q0: Seq<usize>, xs: Seq<usize>)
    requires
        xs.len() > 0,
        seen == q0.to_set(),
    ensures
        (q0 + fresh(seen, xs.drop_last())).contains(xs.last()) ==> fresh(seen, xs) == fresh(seen, xs.drop_last()),
        !(q0 + fresh(seen, xs.drop_last())).contains(xs.last()) ==> fresh(seen, xs) == fresh(seen, xs.drop_last()).push(
            xs.last(),
        ),
        q0 + fresh(seen, xs.drop_last()).push(xs.last()) == (q0 + fresh(seen, xs.drop_last())).push(xs.last()),
{
    let f = fresh(seen, xs.drop_last());
    let x = xs.last();
    assert((q0 + f).contains(x) <==> (q0.contains(x) || f.contains(x))) by {
        if (q0 + f).contains(x) {
            let j = choose|j: int| 0 <= j < (q0 + f).len() && (q0 + f)[j] == x;
            if j < q0.len() {
                assert(q0[j] == x);
            } else {
                assert(f[j - q0.len()] == x);
            }
        }
        if q0.contains(x) {
            let j = choose|j: int| 0 <= j < q0.len() && q0[j] == x;
            assert((q0 + f)[j] == x);
        }
        if f.contains(x) {
            let j = choose|j: int| 0 <= j < f.len() && f[j] == x;
            assert((q0 + f)[q0.len() + j] == x);
        }
    }
    assert(q0 + f.push(x) =~= (q0 + f).push(x));
}

/// Builds a graph by expanding vertices in breadth-first order: each vertex
/// that comes up gets its hard successors as edges, and its hard and soft
/// successors come up in turn, each once.
pub struct GraphBuilder {
    pub queue: Vec<usize>,
    pub head: usize,
    pub graph: Graph,
}

impl GraphBuilder {
    /// The vertices that came up are distinct; those before `head` were
    /// expanded and are the keys of the graph.
    pub open spec fn wf(&self) -> bool {
        &&& self.graph.wf()
        &&& self.queue@.no_duplicates()
        &&& self.head <= self.queue@.len()
        &&& forall|i: int| 0 <= i < self.queue@.len() ==> #[trigger] self.queue@[i] < usize::MAX
        &&& forall|k: usize| #[trigger] self.graph.has(k) <==> self.queue@.subrange(0, self.head as int).contains(k)
    }

    /// A builder whose first vertices are the seeds, in increasing order,
    /// each once.
    pub fn new(seed: &Vec<usize>) -> (b: GraphBuilder)
        requires
            forall|i: int| 0 <= i < seed@.len() ==> #[trigger] seed@[i] < usize::MAX,
        ensures
            b.wf(),
            b.head == 0,
            sorted_set(b.queue@),
            b.queue@.to_set() == seed@.to_set(),
            forall|k: usize| !b.graph.has(k) && b.graph.succs(k) == Set::<usize>::empty(),
    {
        let mut q: Vec<usize> = Vec::new();
        let mut i: usize = 0;
        while i < seed.len()
            invariant
                i <= seed@.len(),
                forall|j: int| 0 <= j < seed@.len() ==> #[trigger] seed@[j] < usize::MAX,
                sorted_set(q@),
                q@.to_set() == seed@.subrange(0, i as int).to_set(),
            decreases seed.len() - i,
        {
            set_insert(&mut q, seed[i]);
            assert(seed@.subrange(0, i + 1) =~= seed@.subrange(0, i as int).push(seed@[i as int]));
            proof { seed@.subrange(0, i as int).lemma_push_to_set_commute(seed@[i as int]); }
            i = i + 1;
        }
        assert(seed@.subrange(0, seed@.len() as int) =~= seed@);
        let g = Graph::new();
        let b = GraphBuilder { queue: q, head: 0, graph: g };
        proof {
            assert forall|a: int, c: int| 0 <= a < b.queue@.len() && 0 <= c < b.queue@.len() && a != c implies b.queue@[a]
                != b.queue@[c] by {
                if a < c {
                    assert(b.queue@[a] < b.queue@[c]);
                } else {
                    assert(b.queue@[c] < b.queue@[a]);
                }
            }
            assert forall|j: int| 0 <= j < b.queue@.len() implies #[trigger] b.queue@[j] < usize::MAX by {
                assert(b.queue@.to_set().contains(b.queue@[j]));
                assert(seed@.to_set().contains(b.queue@[j]));
                let k = choose|k: int| 0 <= k < seed@.len() && seed@[k] == b.queue@[j];
            }
            assert forall|k: usize| #[trigger] b.graph.has(k) <==> b.queue@.subrange(0, 0).contains(k) by {}
        }
        b
    }

    /// The next vertex to expand, if any.
    pub fn next(&self) -> (r: Option<usize>)
        requires
            self.wf(),
        ensures
            match r {
                Some(v) => self.head < self.queue@.len() && v == self.queue@[self.head as int],
                None => self.head == self.queue@.len(),
            },
    {
        if self.head < self.queue.len() {
            Some(self.queue[self.head])
        } else {
            None
        }
    }

    fn come_up(&mut self, x: usize)
        requires
            old(self).queue@.no_duplicates(),
            x < usize::MAX,
            forall|j: int| 0 <= j < old(self).queue@.len() ==> #[trigger] old(self).queue@[j] < usize::MAX,
        ensures
            final(self).queue@ == (if old(self).queue@.contains(x) {
                old(self).queue@
            } else {
                old(self).queue@.push(x)
            }),
            final(self).queue@.no_duplicates(),
            forall|j: int| 0 <= j < final(self).queue@.len() ==> #[trigger] final(self).queue@[j] < usize::MAX,
            final(self).head == old(self).head,
            final(self).graph == old(self).graph,
    {
        let mut k: usize = 0;
        while k < self.queue.len()
            invariant
                k <= self.queue@.len(),
                forall|j: int| 0 <= j < k ==> self.queue@[j] != x,
                self.queue@.no_duplicates(),
                forall|j: int| 0 <= j < self.queue@.len() ==> #[trigger] self.queue@[j] < usize::MAX,
            decreases self.queue.len() - k,
        {
            if self.queue[k] == x {
                assert(self.queue@.contains(x));
                return;
            }
            k = k + 1;
        }
        let ghost before = self.queue@;
        self.queue.push(x);
        proof {
            assert forall|a: int, c: int| 0 <= a < self.queue@.len() && 0 <= c < self.queue@.len() && a != c implies self.queue@[a]
                != self.queue@[c] by {
                if a == before.len() {
                    assert(before[c] == self.queue@[c]);
                } else if c == before.len() {
                    assert(before[a] == self.queue@[a]);
                }
            }
        }
    }

    /// Expands the next vertex: its successors are `hard`; the vertices of
    /// `hard` and then `soft` that have not come up yet come up now.
    pub fn expand(&mut self, hard: &Vec<usize>, soft: &Vec<usize>)
        requires
            old(self).wf(),
            old(self).head < old(self).queue@.len(),
            forall|i: int| 0 <= i < hard@.len() ==> #[trigger] hard@[i] < usize::MAX,
            forall|i: int| 0 <= i < soft@.len() ==> #[trigger] soft@[i] < usize::MAX,
        ensures
            final(self).wf(),
            final(self).head == old(self).head + 1,
            final(self).queue@ == old(self).queue@ + fresh(old(self).queue@.to_set(), hard@ + soft@),
            final(self).graph.succs(old(self).queue@[old(self).head as int]) == hard@.to_set(),
            forall|k: usize| k != old(self).queue@[old(self).head as int] ==> #[trigger] final(self).graph.succs(k)
                == old(self).graph.succs(k),
    {
        let qlen = self.queue.len();
        let v = self.queue[self.head];
        let ghost q0 = self.queue@;
        let ghost h0 = self.head;
        let ghost seen0 = q0.to_set();
        let ghost g0 = self.graph;
        let mut i: usize = 0;
        while i < hard.len()
            invariant
                i <= hard@.len(),
                forall|j: int| 0 <= j < hard@.len() ==> #[trigger] hard@[j] < usize::MAX,
                self.queue@ == q0 + fresh(seen0, hard@.subrange(0, i as int)),
                seen0 == q0.to_set(),
                self.queue@.no_duplicates(),
                self.head == h0,
                self.graph == g0,
                forall|j: int| 0 <= j < self.queue@.len() ==> #[trigger] self.queue@[j] < usize::MAX,
            decreases hard.len() - i,
        {
            proof {
                lemma_fresh_step(seen0, q0, hard@.subrange(0, i + 1));
                assert(hard@.subrange(0, i + 1).drop_last() =~= hard@.subrange(0, i as int));
            }
            self.come_up(hard[i]);
            i = i + 1;
        }
        assert(hard@.subrange(0, hard@.len() as int) =~= hard@);
        let mut i: usize = 0;
        while i < soft.len()
            invariant
                i <= soft@.len(),
                forall|j: int| 0 <= j < soft@.len() ==> #[trigger] soft@[j] < usize::MAX,
                self.queue@ == q0 + fresh(seen0, hard@ + soft@.subrange(0, i as int)),
                seen0 == q0.to_set(),
                self.queue@.no_duplicates(),
                self.head == h0,
                self.graph == g0,
                forall|j: int| 0 <= j < self.queue@.len() ==> #[trigger] self.queue@[j] < usize::MAX,
            decreases soft.len() - i,
        {
            proof {
                assert((hard@ + soft@.subrange(0, i + 1)).drop_last() =~= hard@ + soft@.subrange(0, i as int));
                assert((hard@ + soft@.subrange(0, i + 1)).last() == soft@[i as int]);
                lemma_fresh_step(seen0, q0, hard@ + soft@.subrange(0, i + 1));
            }
            self.come_up(soft[i]);
            i = i + 1;
        }
        assert(soft@.subrange(0, soft@.len() as int) =~= soft@);
        assert(hard@ + soft@.subrange(0, 0) =~= hard@);
        self.head = self.head + 1;
        let mut set: Vec<usize> = Vec::new();
        let mut j: usize = 0;
        while j < hard.len()
            invariant
                j <= hard@.len(),
                sorted_set(set@),
                set@.to_set() == hard@.subrange(0, j as int).to_set(),
            decreases hard.len() - j,
        {
            set_insert(&mut set, hard[j]);
            assert(hard@.subrange(0, j + 1) =~= hard@.subrange(0, j as int).push(hard@[j as int]));
            proof { hard@.subrange(0, j as int).lemma_push_to_set_commute(hard@[j as int]); }
            j = j + 1;
        }
        assert(hard@.subrange(0, hard@.len() as int) =~= hard@);
        self.graph.add_key(v);
        self.graph.set_successors(v, set);
        proof {
            assert(self.queue@.subrange(0, self.head as int) =~= q0.subrange(0, h0 as int).push(v));
            assert forall|k: usize| #[trigger] self.graph.has(k) <==> self.queue@.subrange(0, self.head as int).contains(k) by {
                if k == v {
                    assert(self.queue@.subrange(0, self.head as int)[h0 as int] == v);
                } else {
                    if self.queue@.subrange(0, self.head as int).contains(k) {
                        let j = choose|j: int| 0 <= j < self.head && self.queue@.subrange(0, self.head as int)[j] == k;
                        assert(q0.subrange(0, h0 as int)[j] == k);
                    }
                    if q0.subrange(0, h0 as int).contains(k) {
                        let j = choose|j: int| 0 <= j < h0 && q0.subrange(0, h0 as int)[j] == k;
                        assert(self.queue@.subrange(0, self.head as int)[j] == k);
                    }
                }
            }
        }
    }
}

/// The keys of `g` without successors, in increasing order.
pub fn roots(g: &Graph) -> (r: Vec<usize>)
    requires
        g.wf(),
    ensures
        sorted_set(r@),
        forall|v: usize| #[trigger] r@.contains(v) <==> g.has(v) && g.succs(v).is_empty(),
{
    let mut r: Vec<usize> = Vec::new();
    let mut k: usize = 0;
    while k < g.present.len()
        invariant
            g.wf(),
            k <= g.present@.len(),
            sorted_set(r@),
            forall|i: int| 0 <= i < r@.len() ==> r@[i] < k,
            forall|v: usize| #[trigger] r@.contains(v) <==> v < k && g.has(v) && g.succs(v).is_empty(),
        decreases g.present@.len() - k,
    {
        if g.present[k] && g.adj[k].len() == 0 {
            let ghost prev = r@;
            r.push(k);
            proof {
                assert(r@ == prev.push(k));
                assert(g.adj@[k as int]@.to_set() =~= Set::<usize>::empty());
                assert forall|v: usize| #[trigger] r@.contains(v) <==> v < k + 1 && g.has(v) && g.succs(v).is_empty() by {
                    if r@.contains(v) && v != k {
                        let i = choose|i: int| 0 <= i < r@.len() && r@[i] == v;
                        assert(i < prev.len());
                        assert(prev[i] == v);
                        assert(prev.contains(v));
                    }
                    if v < k && g.has(v) && g.succs(v).is_empty() {
                        assert(prev.contains(v));
                        let i = choose|i: int| 0 <= i < prev.len() && prev[i] == v;
                        assert(r@[i] == v);
                    }
                    if v == k {
                        assert(r@[r@.len() - 1] == v);
                    }
                }
            }
        } else {
            proof {
                if g.present@[k as int] {
                    assert(g.succs(k).contains(g.adj@[k as int]@[0]));
                    assert(!g.succs(k).is_empty());
                }
                assert forall|v: usize| #[trigger] r@.contains(v) <==> v < k + 1 && g.has(v) && g.succs(v).is_empty() by {
                    if v == k {
                        assert(!(g.has(v) && g.succs(v).is_empty()));
                    }
                }
            }
        }
        k = k + 1;
    }
    r
}

/// The build order of a graph of dependencies between vertices that
/// `proj` maps to packages: the graph of packages it projects to, and its
/// vertices ordered so that each comes after those it depends on, starting
/// from those that depend on nothing; or, when there is a cycle, the
/// dependencies that were never met.
pub fn build_order_of(succ_with_features: &Graph, proj: &Vec<usize>) -> (r: (Graph, Result<Vec<usize>, Graph>))
    requires
        succ_with_features.wf(),
        succ_with_features.adj@.len() <= proj@.len(),
        forall|k: usize, x: usize| #[trigger] succ_with_features.succs(k).contains(x) ==> x < proj@.len(),
        forall|i: int| 0 <= i < proj@.len() ==> #[trigger] proj@[i] < usize::MAX,
    ensures
        r.0.wf(),
        forall|t: usize| r.0.has(t) <==> proj_key(*succ_with_features, proj@, t, succ_with_features.adj@.len() as int),
        forall|t: usize, u: usize| #[trigger] r.0.succs(t).contains(u) <==> proj_edge(
            *succ_with_features,
            proj@,
            t,
            u,
            succ_with_features.adj@.len() as int,
        ),
        r.1 is Ok <==> forall|v: usize| (#[trigger] r.0.succs(v)).subset_of(sortable(r.0, root_seq(r.0))),
        r.1 matches Ok(order) ==> {
            &&& order@.no_duplicates()
            &&& order@.to_set() == sortable(r.0, root_seq(r.0))
            &&& order@.subrange(0, root_seq(r.0).len() as int) == root_seq(r.0)
            &&& topological(r.0, order@)
        },
        r.1 matches Err(g) ==> {
            &&& g.wf()
            &&& forall|v: usize| #[trigger] g.succs(v) == r.0.succs(v).difference(sortable(r.0, root_seq(r.0)))
            &&& forall|v: usize| g.has(v) <==> !(#[trigger] g.succs(v)).is_empty()
        },
{
    let succ = succ_proj(succ_with_features, proj);
    let pred = succ_to_pred(&succ);
    let rs = roots(&succ);
    proof {
        assert(pred.bounded()) by {
            assert forall|k: usize, x: usize| #[trigger] pred.succs(k).contains(x) implies x < usize::MAX by {
                assert(succ.succs(x).contains(k));
                assert(x < succ.adj@.len());
            }
        }
        assert(rs@.no_duplicates()) by {
            assert forall|i: int, j: int| 0 <= i < rs@.len() && 0 <= j < rs@.len() && i != j implies rs@[i] != rs@[j] by {
                if i < j {
                    assert(rs@[i] < rs@[j]);
                } else {
                    assert(rs@[j] < rs@[i]);
                }
            }
        }
        assert forall|i: int| 0 <= i < rs@.len() implies (#[trigger] succ.succs(rs@[i])).is_empty() by {
            let x = rs@[i];
            assert(rs@.contains(x));
            assert(succ.has(x) && succ.succs(x).is_empty());
        }
        lemma_roots_seq(succ, rs@);
    }
    let copy = succ.duplicate();
    let order = topo_sort(&rs, &pred, copy);
    proof {
        let s1 = sortable(copy, rs@);
        lemma_least_closed_transfer(copy, succ, rs@, s1);
        lemma_least_closed_unique(succ, rs@, s1, sortable(succ, rs@));
        assert forall|q: Seq<usize>| topological(copy, q) implies topological(succ, q) by {
            assert forall|i: int, w: usize| 0 <= i < q.len() && #[trigger] succ.succs(q[i]).contains(w) implies exists|j: int|
                0 <= j < i && q[j] == w by {
                assert(copy.succs(q[i]).contains(w));
            }
        }
        if order is Err {
            let g = order->Err_0;
            assert forall|v: usize| #[trigger] g.succs(v) == succ.succs(v).difference(sortable(succ, rs@)) by {
                assert(g.succs(v) == copy.succs(v).difference(s1));
            }
        }
    }
    (succ, order)
}

/// The keys of `g` without successors, in increasing order.
pub open spec fn root_seq(g: Graph) -> Seq<usize> {
    choose|s: Seq<usize>| sorted_set(s) && forall|v: usize| #[trigger] s.contains(v) <==> g.has(v) && g.succs(v).is_empty()
}

/// The keys below `n` without successors, in increasing order.
pub open spec fn roots_below(g: Graph, n: nat) -> Seq<usize>
    decreases n,
{
    if n == 0 {
        Seq::empty()
    } else {
        let r = roots_below(g, (n - 1) as nat);
        let k = (n - 1) as usize;
        if g.has(k) && g.succs(k).is_empty() {
            r.push(k)
        } else {
            r
        }
    }
}

proof fn lemma_roots_below(g: Graph, n: nat)
    requires
        n <= g.present@.len(),
        n <= usize::MAX + 1,
    ensures
        sorted_set(roots_below(g, n)),
        forall|i: int| 0 <= i < roots_below(g, n).len() ==> #[trigger] roots_below(g, n)[i] < n,
        forall|v: usize| #[trigger] roots_below(g, n).contains(v) <==> v < n && g.has(v) && g.succs(v).is_empty(),
    decreases n,
{
    if n > 0 {
        lemma_roots_below(g, (n - 1) as nat);
        let r = roots_below(g, (n - 1) as nat);
        let k = (n - 1) as usize;
        if g.has(k) && g.succs(k).is_empty() {
            assert forall|v: usize| #[trigger] r.push(k).contains(v) <==> v < n && g.has(v) && g.succs(v).is_empty() by {
                if r.push(k).contains(v) && v != k {
                    let j = choose|j: int| 0 <= j < r.push(k).len() && r.push(k)[j] == v;
                    assert(r.contains(v)) by {
                        assert(j < r.len());
                        assert(r[j] == v);
                    }
                }
                if v == k {
                    assert(r.push(k)[r.len() as int] == k);
                }
                if r.contains(v) {
                    let j = choose|j: int| 0 <= j < r.len() && r[j] == v;
                    assert(r.push(k)[j] == v);
                }
            }
        }
    }
}

/// The keys of a well-formed graph that have no successors form a
/// sequence: `root_seq` is that sequence.
pub proof fn lemma_root_seq_exists(g: Graph)
    requires
        g.wf(),
    ensures
        sorted_set(root_seq(g)),
        forall|v: usize| #[trigger] root_seq(g).contains(v) <==> g.has(v) && g.succs(v).is_empty(),
{
    let n: nat = if g.present@.len() <= usize::MAX { g.present@.len() } else { (usize::MAX + 1) as nat };
    lemma_roots_below(g, n);
    let s = roots_below(g, n);
    assert(sorted_set(s) && forall|v: usize| #[trigger] s.contains(v) <==> g.has(v) && g.succs(v).is_empty());
}

/// A graph of dependencies without cycles (`rank` falls along every
/// dependency), in which every vertex depended on is a key, has a build
/// order: every vertex's dependencies are sortable from the vertices that
/// depend on nothing, which is when `build_order_of` succeeds.
pub proof fn lemma_acyclic_has_build_order(g: Graph, rank: spec_fn(usize) -> nat)
    requires
        g.wf(),
        forall|v: usize, w: usize| #[trigger] g.succs(v).contains(w) ==> rank(w) < rank(v),
        forall|v: usize, w: usize| #[trigger] g.succs(v).contains(w) ==> g.has(w),
    ensures
        forall|v: usize| (#[trigger] g.succs(v)).subset_of(sortable(g, root_seq(g))),
{
    lemma_root_seq_exists(g);
    lemma_acyclic_sortable(g, root_seq(g), rank);
}

/// `root_seq` is the increasing sequence of those keys.
proof fn lemma_roots_seq(g: Graph, s: Seq<usize>)
    requires
        sorted_set(s),
        forall|v: usize| #[trigger] s.contains(v) <==> g.has(v) && g.succs(v).is_empty(),
    ensures
        root_seq(g) == s,
{
    let t = root_seq(g);
    assert(sorted_set(t) && forall|v: usize| #[trigger] t.contains(v) <==> g.has(v) && g.succs(v).is_empty());
    lemma_sorted_same_elements(s, t);
}

/// Two increasing sequences with the same elements are equal.
proof fn lemma_sorted_same_elements(s: Seq<usize>, t: Seq<usize>)
    requires
        sorted_set(s),
        sorted_set(t),
        forall|v: usize| s.contains(v) <==> t.contains(v),
    ensures
        s == t,
    decreases s.len() + t.len(),
{
    if s.len() == 0 {
        if t.len() > 0 {
            assert(t.contains(t[0]));
        }
        assert(s =~= t);
    } else if t.len() == 0 {
        assert(s.contains(s[0]));
    } else {
        assert(s.contains(s[0]));
        assert(t.contains(t[0]));
        let i = choose|i: int| 0 <= i < t.len() && t[i] == s[0];
        let j = choose|j: int| 0 <= j < s.len() && s[j] == t[0];
        if i > 0 {
            assert(t[0] < t[i]);
            if j > 0 {
                assert(s[0] < s[j]);
            }
        }
        if j > 0 {
            assert(s[0] < s[j]);
        }
        assert(s[0] == t[0]);
        let s1 = s.drop_first();
        let t1 = t.drop_first();
        assert forall|v: usize| s1.contains(v) <==> t1.contains(v) by {
            if s1.contains(v) {
                let k = choose|k: int| 0 <= k < s1.len() && s1[k] == v;
                assert(s[k + 1] == v);
                assert(s[0] < s[k + 1]);
                assert(t.contains(v));
                let m = choose|m: int| 0 <= m < t.len() && t[m] == v;
                assert(m != 0);
                assert(t1[m - 1] == v);
            }
            if t1.contains(v) {
                let k = choose|k: int| 0 <= k < t1.len() && t1[k] == v;
                assert(t[k + 1] == v);
                assert(t[0] < t[k + 1]);
                assert(s.contains(v));
                let m = choose|m: int| 0 <= m < s.len() && s[m] == v;
                assert(m != 0);
                assert(s1[m - 1] == v);
            }
        }
        lemma_sorted_same_elements(s1, t1);
        assert(s =~= seq![s[0]] + s1);
        assert(t =~= seq![t[0]] + t1);
    }
}

/// Whether `x` holds the successors of `key` and of each of its members.
pub open spec fn reach_closed(g: Graph, key: usize, x: Set<usize>) -> bool {
    &&& g.succs(key).subset_of(x)
    &&& forall|v: usize| #[trigger] x.contains(v) ==> g.succs(v).subset_of(x)
}

/// Whether `x` is the least such set: the vertices reachable from `key` in
/// one step or more.
pub open spec fn least_reach(g: Graph, key: usize, x: Set<usize>) -> bool {
    &&& reach_closed(g, key, x)
    &&& forall|y: Set<usize>| #[trigger] reach_closed(g, key, y) ==> x.subset_of(y)
}

/// The vertices reachable from `key` in one step or more.
pub open spec fn reachable(g: Graph, key: usize) -> Set<usize> {
    choose|x: Set<usize>| least_reach(g, key, x)
}

/// A sequence that starts with `key`, in which each later vertex is a
/// successor of an earlier one (at `par`), lies within every closed set.
proof fn lemma_reach_within(g: Graph, key: usize, q: Seq<usize>, par: Seq<int>, y: Set<usize>, n: int)
    requires
        q.len() >= 1,
        par.len() == q.len(),
        q[0] == key,
        forall|j: int| 1 <= j < q.len() ==> 0 <= #[trigger] par[j] < j && g.succs(q[par[j]]).contains(q[j]),
        reach_closed(g, key, y),
        1 <= n <= q.len(),
    ensures
        forall|j: int| 1 <= j < n ==> y.contains(#[trigger] q[j]),
    decreases n,
{
    if n > 1 {
        lemma_reach_within(g, key, q, par, y, n - 1);
        let j = n - 1;
        let i = par[j];
        if i == 0 {
        } else {
            assert(y.contains(q[i]));
        }
    }
}

/// The vertices reachable from `key` in one step or more, in increasing
/// order.
pub fn traverse_depth(succ: &Graph, key: usize) -> (r: Vec<usize>)
    requires
        succ.wf(),
    ensures
        sorted_set(r@),
        least_reach(*succ, key, r@.to_set()),
        r@.to_set() == reachable(*succ, key),
{
    let mut queue: Vec<usize> = Vec::new();
    queue.push(key);
    let mut seen: Vec<usize> = Vec::new();
    let mut head: usize = 0;
    let ghost mut par: Seq<int> = seq![0int];
    proof {
        assert(queue@.subrange(1, 1).to_set() =~= Set::<usize>::empty());
        assert(seen@.to_set() =~= Set::<usize>::empty());
    }
    while head < queue.len()
        invariant
            succ.wf(),
            queue@.len() >= 1,
            par.len() == queue@.len(),
            queue@[0] == key,
            head <= queue@.len(),
            queue@.len() <= usize::MAX,
            sorted_set(seen@),
            seen@.to_set() == queue@.subrange(1, queue@.len() as int).to_set(),
            queue@.subrange(1, queue@.len() as int).no_duplicates(),
            forall|i: int| 0 <= i < head ==> succ.succs(#[trigger] queue@[i]).subset_of(seen@.to_set()),
            forall|j: int| 1 <= j < queue@.len() ==> 0 <= #[trigger] par[j] < j && par[j] < head && succ.succs(queue@[par[j]]).contains(queue@[j]),
        decreases 2 * (usize::MAX - queue@.len()) + (queue@.len() - head),
    {
        let v = queue[head];
        let l = succ.successors(v);
        let ghost q_before = queue@;
        let mut k: usize = 0;
        while k < l.len()
            invariant
                succ.wf(),
                sorted_set(l@),
                l@.to_set() == succ.succs(v),
                k <= l@.len(),
                head < q_before.len(),
                q_before[head as int] == v,
                queue@.len() >= q_before.len(),
                par.len() == queue@.len(),
                queue@.subrange(0, q_before.len() as int) == q_before,
                queue@[0] == key,
                sorted_set(seen@),
                seen@.to_set() == queue@.subrange(1, queue@.len() as int).to_set(),
                queue@.subrange(1, queue@.len() as int).no_duplicates(),
                forall|i: int| 0 <= i < head ==> succ.succs(#[trigger] queue@[i]).subset_of(seen@.to_set()),
                forall|m: int| 0 <= m < k ==> seen@.to_set().contains(#[trigger] l@[m]),
                forall|j: int| 1 <= j < queue@.len() ==> 0 <= #[trigger] par[j] < j && par[j] <= head && succ.succs(queue@[par[j]]).contains(queue@[j]),
            decreases l.len() - k,
        {
            let x = l[k];
            assert(succ.succs(v).contains(x)) by {
                assert(l@.to_set().contains(l@[k as int]));
            }
            let mut found = false;
            let mut s: usize = 0;
            while s < seen.len()
                invariant
                    s <= seen@.len(),
                    found == exists|t: int| 0 <= t < s && seen@[t] == x,
                decreases seen.len() - s,
            {
                if seen[s] == x {
                    found = true;
                }
                s = s + 1;
            }
            if !found {
                let ghost q_mid = queue@;
                let ghost s_mid = seen@.to_set();
                let ghost p_mid = par;
                set_insert(&mut seen, x);
                queue.push(x);
                proof {
                    par = par.push(head as int);
                    let q = queue@;
                    assert(q.subrange(1, q.len() as int) =~= q_mid.subrange(1, q_mid.len() as int).push(x));
                    q_mid.subrange(1, q_mid.len() as int).lemma_push_to_set_commute(x);
                    assert(!q_mid.subrange(1, q_mid.len() as int).to_set().contains(x));
                    assert(!q_mid.subrange(1, q_mid.len() as int).contains(x));
                    let tail = q.subrange(1, q.len() as int);
                    assert forall|a: int, b: int| 0 <= a < tail.len() && 0 <= b < tail.len() && a != b implies tail[a] != tail[b] by {
                        let pt = q_mid.subrange(1, q_mid.len() as int);
                        if a == tail.len() - 1 {
                            assert(tail[b] == pt[b]);
                        } else if b == tail.len() - 1 {
                            assert(tail[a] == pt[a]);
                        } else {
                            assert(tail[a] == pt[a] && tail[b] == pt[b]);
                        }
                    }
                    assert(q.subrange(0, q_before.len() as int) =~= q_mid.subrange(0, q_before.len() as int));
                    assert forall|j: int| 1 <= j < q.len() implies 0 <= #[trigger] par[j] < j && par[j] <= head && succ.succs(q[par[j]]).contains(q[j]) by {
                        if j == q.len() - 1 {
                            assert(q[head as int] == v);
                        } else {
                            assert(par[j] == p_mid[j]);
                            assert(q[par[j]] == q_mid[p_mid[j]]);
                            assert(q[j] == q_mid[j]);
                        }
                    }
                    assert forall|i: int| 0 <= i < head implies succ.succs(#[trigger] q[i]).subset_of(seen@.to_set()) by {
                        assert(q[i] == q_mid[i]);
                        assert(succ.succs(q_mid[i]).subset_of(s_mid));
                    }
                }
            } else {
                proof {
                    let t = choose|t: int| 0 <= t < seen@.len() && seen@[t] == x;
                    assert(seen@.to_set().contains(seen@[t]));
                }
            }
            k = k + 1;
        }
        proof {
            assert forall|i: int| 0 <= i < head + 1 implies succ.succs(#[trigger] queue@[i]).subset_of(seen@.to_set()) by {
                if i == head {
                    assert(queue@[i] == v);
                    assert forall|w: usize| succ.succs(v).contains(w) implies seen@.to_set().contains(w) by {
                        assert(l@.to_set().contains(w));
                        let m = choose|m: int| 0 <= m < l@.len() && l@[m] == w;
                    }
                }
            }
        }
        head = head + 1;
        let n = queue.len();
        assert(queue@.len() <= usize::MAX);
    }
    proof {
        let q = queue@;
        let sset = seen@.to_set();
        assert(reach_closed(*succ, key, sset)) by {
            assert(succ.succs(q[0]).subset_of(sset));
            assert forall|w: usize| #[trigger] sset.contains(w) implies succ.succs(w).subset_of(sset) by {
                let tail = q.subrange(1, q.len() as int);
                assert(tail.to_set().contains(w));
                let j = choose|j: int| 0 <= j < tail.len() && tail[j] == w;
                assert(q[j + 1] == w);
                assert(succ.succs(q[j + 1]).subset_of(sset));
            }
        }
        assert forall|y: Set<usize>| #[trigger] reach_closed(*succ, key, y) implies sset.subset_of(y) by {
            lemma_reach_within(*succ, key, q, par, y, q.len() as int);
            assert forall|w: usize| sset.contains(w) implies y.contains(w) by {
                let tail = q.subrange(1, q.len() as int);
                assert(tail.to_set().contains(w));
                let j = choose|j: int| 0 <= j < tail.len() && tail[j] == w;
                assert(q[j + 1] == w);
            }
        }
        assert(least_reach(*succ, key, sset));
        let other = reachable(*succ, key);
        assert(least_reach(*succ, key, other));
        assert(sset.subset_of(other) && other.subset_of(sset));
        assert(sset =~= other);
    }
    seen
}

/// The parents of `key`, in order.
pub open spec fn parents_of(parents: Seq<Vec<usize>>, key: usize) -> Seq<usize> {
    if key < parents.len() {
        parents[key as int]@
    } else {
        Seq::empty()
    }
}

/// The value set at `key`, if any.
pub open spec fn value_at(vals: Seq<Option<u64>>, key: usize) -> Option<u64> {
    if key < vals.len() {
        vals[key as int]
    } else {
        None
    }
}

/// Whether all the candidates carry the same value.
pub open spec fn agree(cands: Seq<(usize, u64)>) -> bool {
    forall|i: int| 0 <= i < cands.len() ==> (#[trigger] cands[i]).1 == cands[0].1
}

/// The value at `key` or, failing that, the one its closest ancestors
/// agree on; an error with the candidates when they disagree; none when
/// the ancestry is deeper than `fuel`.
pub open spec fn transitive_val(parents: Seq<Vec<usize>>, vals: Seq<Option<u64>>, key: usize, fuel: nat) -> Option<
    Result<Option<u64>, (usize, Seq<(usize, u64)>)>,
>
    decreases fuel, 0nat,
{
    if value_at(vals, key) is Some {
        Some(Ok(value_at(vals, key)))
    } else if fuel == 0 {
        None
    } else {
        match candidates(parents, vals, parents_of(parents, key), (fuel - 1) as nat) {
            None => None,
            Some(Err(e)) => Some(Err(e)),
            Some(Ok(c)) => if c.len() == 0 {
                Some(Ok(None))
            } else if agree(c) {
                Some(Ok(Some(c.last().1)))
            } else {
                Some(Err((key, c)))
            },
        }
    }
}

/// The values of the parents `ps` that have one, each with its parent, or
/// the first error.
pub open spec fn candidates(parents: Seq<Vec<usize>>, vals: Seq<Option<u64>>, ps: Seq<usize>, fuel: nat) -> Option<
    Result<Seq<(usize, u64)>, (usize, Seq<(usize, u64)>)>,
>
    decreases fuel, ps.len(),
{
    if ps.len() == 0 {
        Some(Ok(Seq::empty()))
    } else {
        match candidates(parents, vals, ps.drop_last(), fuel) {
            None => None,
            Some(Err(e)) => Some(Err(e)),
            Some(Ok(c)) => match transitive_val(parents, vals, ps.last(), fuel) {
                None => None,
                Some(Err(e)) => Some(Err(e)),
                Some(Ok(None)) => Some(Ok(c)),
                Some(Ok(Some(v))) => Some(Ok(c.push((ps.last(), v)))),
            },
        }
    }
}

/// More fuel does not change a result.
pub proof fn lemma_transitive_val_mono(parents: Seq<Vec<usize>>, vals: Seq<Option<u64>>, key: usize, n1: nat, n2: nat)
    requires
        n1 <= n2,
        transitive_val(parents, vals, key, n1) is Some,
    ensures
        transitive_val(parents, vals, key, n2) == transitive_val(parents, vals, key, n1),
    decreases n1, 0nat,
{
    if value_at(vals, key) is None {
        lemma_candidates_mono(parents, vals, parents_of(parents, key), (n1 - 1) as nat, (n2 - 1) as nat);
    }
}

/// More fuel does not change a result.
pub proof fn lemma_candidates_mono(parents: Seq<Vec<usize>>, vals: Seq<Option<u64>>, ps: Seq<usize>, n1: nat, n2: nat)
    requires
        n1 <= n2,
        candidates(parents, vals, ps, n1) is Some,
    ensures
        candidates(parents, vals, ps, n2) == candidates(parents, vals, ps, n1),
    decreases n1, ps.len(),
{
    if ps.len() > 0 {
        lemma_candidates_mono(parents, vals, ps.drop_last(), n1, n2);
        if candidates(parents, vals, ps.drop_last(), n1) matches Some(Ok(_)) {
            lemma_transitive_val_mono(parents, vals, ps.last(), n1, n2);
        }
    }
}

proof fn lemma_candidates_prefix(parents: Seq<Vec<usize>>, vals: Seq<Option<u64>>, ps: Seq<usize>, fuel: nat, j: int)
    requires
        0 <= j <= ps.len(),
        candidates(parents, vals, ps, fuel) is Some,
    ensures
        candidates(parents, vals, ps.subrange(0, j), fuel) is Some,
    decreases ps.len() - j,
{
    if j < ps.len() {
        assert(ps.drop_last() =~= ps.subrange(0, ps.len() - 1));
        lemma_candidates_prefix(parents, vals, ps.drop_last(), fuel, j);
        assert(ps.drop_last().subrange(0, j) =~= ps.subrange(0, j));
    } else {
        assert(ps.subrange(0, j) =~= ps);
    }
}

/// A result with its list as a sequence.
pub open spec fn tv_view(r: Result<Option<u64>, (usize, Vec<(usize, u64)>)>) -> Result<Option<u64>, (usize, Seq<(usize, u64)>)> {
    match r {
        Ok(v) => Ok(v),
        Err((k, c)) => Err((k, c@)),
    }
}

fn transitive_val_exec(parents: &Vec<Vec<usize>>, vals: &Vec<Option<u64>>, key: usize, Ghost(fuel): Ghost<nat>) -> (r: Result<
    Option<u64>,
    (usize, Vec<(usize, u64)>),
>)
    requires
        transitive_val(parents@, vals@, key, fuel) is Some,
    ensures
        Some(tv_view(r)) == transitive_val(parents@, vals@, key, fuel),
    decreases fuel,
{
    if key < vals.len() && vals[key].is_some() {
        return Ok(vals[key]);
    }
    assert(value_at(vals@, key) is None);
    assert(fuel > 0);
    let ghost f1 = (fuel - 1) as nat;
    let empty: Vec<usize> = Vec::new();
    let ps: &Vec<usize> = if key < parents.len() {
        &parents[key]
    } else {
        &empty
    };
    assert(ps@ == parents_of(parents@, key));
    assert(ps@.subrange(0, 0) =~= Seq::<usize>::empty());
    let mut cands: Vec<(usize, u64)> = Vec::new();
    let mut i: usize = 0;
    while i < ps.len()
        invariant
            fuel > 0,
            f1 == fuel - 1,
            i <= ps@.len(),
            ps@ == parents_of(parents@, key),
            candidates(parents@, vals@, ps@, f1) is Some,
            value_at(vals@, key) is None,
            candidates(parents@, vals@, ps@.subrange(0, i as int), f1) == Some(Ok::<Seq<(usize, u64)>, (usize, Seq<(usize, u64)>)>(cands@)),
        decreases ps.len() - i,
    {
        proof {
            lemma_candidates_prefix(parents@, vals@, ps@, f1, i + 1);
            assert(ps@.subrange(0, i + 1).drop_last() =~= ps@.subrange(0, i as int));
            assert(ps@.subrange(0, i + 1).last() == ps@[i as int]);
        }
        let par = ps[i];
        match transitive_val_exec(parents, vals, par, Ghost(f1)) {
            Err(e) => {
                proof {
                    let ev = (e.0, e.1@);
                    assert(transitive_val(parents@, vals@, par, f1) == Some(Err::<Option<u64>, (usize, Seq<(usize, u64)>)>(ev)));
                    assert(candidates(parents@, vals@, ps@.subrange(0, i + 1), f1) == Some(
                        Err::<Seq<(usize, u64)>, (usize, Seq<(usize, u64)>)>(ev),
                    ));
                    lemma_candidates_err_stays(parents@, vals@, ps@, f1, i + 1);
                    assert(candidates(parents@, vals@, ps@, f1) == Some(Err::<Seq<(usize, u64)>, (usize, Seq<(usize, u64)>)>(ev)));
                    assert(transitive_val(parents@, vals@, key, fuel) == Some(Err::<Option<u64>, (usize, Seq<(usize, u64)>)>(ev)));
                }
                return Err(e);
            },
            Ok(None) => {},
            Ok(Some(v)) => {
                cands.push((par, v));
            },
        }
        i = i + 1;
    }
    assert(ps@.subrange(0, ps@.len() as int) =~= ps@);
    if cands.len() == 0 {
        return Ok(None);
    }
    let first = cands[0].1;
    let mut same = true;
    let mut k: usize = 0;
    while k < cands.len()
        invariant
            k <= cands@.len(),
            cands@.len() > 0,
            first == cands@[0].1,
            same == forall|m: int| 0 <= m < k ==> (#[trigger] cands@[m]).1 == first,
        decreases cands.len() - k,
    {
        if cands[k].1 != first {
            same = false;
        }
        k = k + 1;
    }
    if same {
        let last = cands[cands.len() - 1].1;
        Ok(Some(last))
    } else {
        Err((key, cands))
    }
}

/// An error among the first parents is the error of all of them.
proof fn lemma_candidates_err_stays(parents: Seq<Vec<usize>>, vals: Seq<Option<u64>>, ps: Seq<usize>, fuel: nat, j: int)
    requires
        0 <= j <= ps.len(),
        candidates(parents, vals, ps, fuel) is Some,
        candidates(parents, vals, ps.subrange(0, j), fuel) matches Some(Err(_)),
    ensures
        candidates(parents, vals, ps, fuel) == candidates(parents, vals, ps.subrange(0, j), fuel),
    decreases ps.len() - j,
{
    if j < ps.len() {
        assert(ps.drop_last() =~= ps.subrange(0, ps.len() - 1));
        assert(ps.drop_last().subrange(0, j) =~= ps.subrange(0, j));
        lemma_candidates_prefix(parents, vals, ps, fuel, ps.len() - 1);
        assert(ps.subrange(0, ps.len() - 1) =~= ps.drop_last());
        lemma_candidates_err_stays(parents, vals, ps.drop_last(), fuel, j);
    } else {
        assert(ps.subrange(0, j) =~= ps);
    }
}

/// The value at `key` or, failing that, the one that its closest
/// ancestors agree on (`parents[k]` are the parents of `k`, `vals[k]` the
/// value set at `k`); an error with `key` and the candidates when they
/// disagree. The ancestry must be finite, as any that has no cycle is.
pub fn get_transitive_val(parents: &Vec<Vec<usize>>, vals: &Vec<Option<u64>>, key: usize) -> (r: Result<Option<u64>, (usize, Vec<(usize, u64)>)>)
    requires
        exists|n: nat| #[trigger] transitive_val(parents@, vals@, key, n) is Some,
    ensures
        forall|n: nat| #[trigger] transitive_val(parents@, vals@, key, n) is Some ==> transitive_val(parents@, vals@, key, n) == Some(tv_view(r)),
        value_at(vals@, key) is Some ==> r == Ok::<Option<u64>, (usize, Vec<(usize, u64)>)>(value_at(vals@, key)),
{
    let ghost n = choose|n: nat| #[trigger] transitive_val(parents@, vals@, key, n) is Some;
    let r = transitive_val_exec(parents, vals, key, Ghost(n));
    proof {
        assert forall|n2: nat| #[trigger] transitive_val(parents@, vals@, key, n2) is Some implies transitive_val(parents@, vals@, key, n2)
            == Some(tv_view(r)) by {
            if n <= n2 {
                lemma_transitive_val_mono(parents@, vals@, key, n, n2);
            } else {
                lemma_transitive_val_mono(parents@, vals@, key, n2, n);
            }
        }
    }
    r
}

} // verus!
