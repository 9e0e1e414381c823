//! Mesh topology without coordinates: which vertices hang together (union–find), how an edge
//! is classified by its uses, and the rim of a cut (directed edges that cancel in pairs).
use std::collections::BTreeMap;

use vstd::prelude::*;

verus! {

// ---------------------------------------------------------------- union–find

/// The root of `x`: follow parents down to a vertex that is its own parent. Parents never point
/// upwards, which is what makes the walk end.
pub open spec fn root(p: Seq<u32>, x: int) -> int
    decreases x,
{
    if x < 0 || x >= p.len() || p[x] >= x {
        x
    } else {
        root(p, p[x] as int)
    }
}

/// Every parent is an index at or below its child.
pub open spec fn forest(p: Seq<u32>) -> bool {
    forall|i: int| 0 <= i < p.len() ==> #[trigger] p[i] <= i
}

/// Disjoint sets of `0..n`, each named by its smallest member.
pub struct UnionFind {
    parent: Vec<u32>,
}

impl UnionFind {
    pub closed spec fn parents(&self) -> Seq<u32> {
        self.parent@
    }

    /// The representative of `x`'s set.
    pub closed spec fn rep(&self, x: int) -> int {
        root(self.parent@, x)
    }

    pub closed spec fn size(&self) -> nat {
        self.parent@.len()
    }

    pub closed spec fn wf(&self) -> bool {
        forest(self.parent@)
    }

    /// `n` singletons.
    pub fn new(n: u32) -> (r: Self)
        ensures
            r.wf(),
            r.size() == n,
            forall|x: int| 0 <= x < n ==> #[trigger] r.rep(x) == x,
    {
        let mut parent: Vec<u32> = Vec::new();
        let mut i: u32 = 0;
        while i < n
            invariant
                i <= n,
                parent@.len() == i,
                forall|k: int| 0 <= k < i ==> parent@[k] == k,
            decreases n - i,
        {
            parent.push(i);
            i += 1;
        }
        let r = UnionFind { parent };
        assert forall|x: int| 0 <= x < n implies #[trigger] r.rep(x) == x by {
            assert(parent@[x] == x);
        }
        r
    }

    /// The representative of `x` (halving the path on the way, which changes no representative).
    pub fn find(&mut self, x: u32) -> (r: u32)
        requires
            old(self).wf(),
            x < old(self).size(),
        ensures
            final(self).wf(),
            final(self).size() == old(self).size(),
            r == old(self).rep(x as int),
            forall|y: int| 0 <= y < old(self).size() ==> #[trigger] final(self).rep(y) == old(self).rep(y),
    {
        let ghost p0 = self.parent@;
        let ghost x0 = x;
        let mut x = x;
        proof {
            lemma_root_bound(p0, x as int);
        }
        while self.parent[x as usize] != x
            invariant
                forest(self.parent@),
                self.parent@.len() == p0.len(),
                x < p0.len(),
                forall|y: int| 0 <= y < p0.len() ==> #[trigger] root(self.parent@, y) == root(p0, y),
                root(p0, x as int) == root(p0, x0 as int),
            decreases x,
        {
            let px = self.parent[x as usize];
            let grand = self.parent[px as usize];
            let ghost before = self.parent@;
            self.parent.set(x as usize, grand);
            proof {
                lemma_halving(before, x as int);
                assert(root(before, x as int) == root(before, px as int));
                assert(root(before, px as int) == root(before, grand as int));
                assert(root(self.parent@, grand as int) == root(before, grand as int));
                assert(root(self.parent@, x as int) == root(before, x as int));
            }
            x = grand;
        }
        proof {
            assert(root(self.parent@, x as int) == x);
        }
        x
    }
}

proof fn lemma_root_bound(p: Seq<u32>, x: int)
    requires
        forest(p),
        0 <= x < p.len(),
    ensures
        0 <= root(p, x) <= x,
        p[root(p, x)] == root(p, x),
    decreases x,
{
    if p[x] < x {
        lemma_root_bound(p, p[x] as int);
    }
}

/// Pointing `x` at its grandparent leaves every root where it was.
proof fn lemma_halving(p: Seq<u32>, x: int)
    requires
        forest(p),
        0 <= x < p.len(),
    ensures
        forest(p.update(x, p[p[x] as int])),
        forall|y: int| 0 <= y < p.len() ==> #[trigger] root(p.update(x, p[p[x] as int]), y) == root(p, y),
{
    let q = p.update(x, p[p[x] as int]);
    assert forall|y: int| 0 <= y < p.len() implies #[trigger] root(q, y) == root(p, y) by {
        lemma_halving_at(p, x, y);
    }
}

proof fn lemma_halving_at(p: Seq<u32>, x: int, y: int)
    requires
        forest(p),
        0 <= x < p.len(),
        0 <= y < p.len(),
    ensures
        root(p.update(x, p[p[x] as int]), y) == root(p, y),
    decreases y,
{
    let q = p.update(x, p[p[x] as int]);
    if y == x {
        if p[x] < x {
            let px = p[x] as int;
            let g = p[px] as int;
            lemma_halving_at(p, x, g);
            assert(q[x] == g);
            assert(root(q, x) == root(q, g));
            assert(root(p, x) == root(p, px));
            if p[px] < px {
                assert(root(p, px) == root(p, g));
            } else {
                assert(g == px);
            }
        } else {
            assert(q =~= p);
        }
    } else if p[y] < y {
        lemma_halving_at(p, x, p[y] as int);
        assert(q[y] == p[y]);
        assert(root(q, y) == root(q, p[y] as int));
    } else {
        assert(q[y] == p[y]);
    }
}

/// Hanging root `r` under root `s < r` sends everything of `r`'s set to `s` and moves nothing else.
proof fn lemma_link(p: Seq<u32>, r: int, s: int, y: int)
    requires
        forest(p),
        0 <= s < r < p.len(),
        p[r] == r,
        p[s] == s,
        0 <= y < p.len(),
    ensures
        root(p.update(r, s as u32), y) == (if root(p, y) == r {
            s
        } else {
            root(p, y)
        }),
    decreases y,
{
    let q = p.update(r, s as u32);
    lemma_root_bound(p, y);
    if y == r {
        assert(q[r] == s);
        assert(root(q, r) == root(q, s));
        assert(q[s] == s);
    } else if p[y] < y {
        lemma_link(p, r, s, p[y] as int);
        assert(q[y] == p[y]);
    } else {
        assert(q[y] == p[y]);
    }
}

impl UnionFind {
    /// Joins the sets of `a` and `b`: both are then named by the smaller of their two names.
    pub fn union(&mut self, a: u32, b: u32)
        requires
            old(self).wf(),
            a < old(self).size(),
            b < old(self).size(),
        ensures
            final(self).wf(),
            final(self).size() == old(self).size(),
            forall|y: int|
                0 <= y < old(self).size() ==> #[trigger] final(self).rep(y) == (if old(self).rep(y) == old(self).rep(a as int)
                    || old(self).rep(y) == old(self).rep(b as int) {
                    if old(self).rep(a as int) < old(self).rep(b as int) {
                        old(self).rep(a as int)
                    } else {
                        old(self).rep(b as int)
                    }
                } else {
                    old(self).rep(y)
                }),
    {
        let ghost p0 = self.parent@;
        let ghost u0 = *self;
        let ra = self.find(a);
        let ghost u1 = *self;
        let rb = self.find(b);
        let ghost u2 = *self;
        proof {
            assert(self.rep(ra as int) == u1.rep(ra as int));
            assert(u1.rep(ra as int) == u0.rep(ra as int));
            assert(self.rep(rb as int) == u1.rep(rb as int));
            assert(u1.rep(rb as int) == u0.rep(rb as int));
            lemma_root_bound(p0, a as int);
            lemma_root_bound(p0, b as int);
            assert(self.parent@[ra as int] == ra) by {
                lemma_root_bound(self.parent@, ra as int);
                assert(root(self.parent@, ra as int) == root(p0, ra as int));
            }
            assert(self.parent@[rb as int] == rb) by {
                lemma_root_bound(self.parent@, rb as int);
                assert(root(self.parent@, rb as int) == root(p0, rb as int));
            }
        }
        if ra != rb {
            let (hi, lo) = if ra < rb { (rb, ra) } else { (ra, rb) };
            let ghost p1 = self.parent@;
            self.parent.set(hi as usize, lo);
            proof {
                assert forall|y: int| 0 <= y < p0.len() implies #[trigger] root(self.parent@, y) == (if root(p0, y) == ra
                    || root(p0, y) == rb {
                    if ra < rb {
                        ra as int
                    } else {
                        rb as int
                    }
                } else {
                    root(p0, y)
                }) by {
                    lemma_link(p1, hi as int, lo as int, y);
                    assert(u1.rep(y) == u0.rep(y));
                    assert(u2.rep(y) == u1.rep(y));
                    assert(root(p1, y) == u2.rep(y));
                    lemma_root_bound(p0, y);
                }
            }
        }
    }

    /// The number of elements.
    pub fn len(&self) -> (r: usize)
        ensures
            r == self.size(),
    {
        self.parent.len()
    }
}

/// Two vertices are in one set exactly when they have one representative.
pub open spec fn joined(u: &UnionFind, x: int, y: int) -> bool {
    u.rep(x) == u.rep(y)
}

/// After joining `a` and `b` they are in one set, and two vertices that were already together
/// stay together.
pub proof fn union_joins(before: UnionFind, after: UnionFind, a: int, b: int, x: int, y: int)
    requires
        before.wf(),
        0 <= a < before.size(),
        0 <= b < before.size(),
        0 <= x < before.size(),
        0 <= y < before.size(),
        after.size() == before.size(),
        forall|z: int|
            0 <= z < before.size() ==> #[trigger] after.rep(z) == (if before.rep(z) == before.rep(a) || before.rep(z) == before.rep(b) {
                if before.rep(a) < before.rep(b) {
                    before.rep(a)
                } else {
                    before.rep(b)
                }
            } else {
                before.rep(z)
            }),
    ensures
        after.rep(a) == after.rep(b),
        before.rep(x) == before.rep(y) ==> after.rep(x) == after.rep(y),
{
    assert(after.rep(a) == after.rep(a));
    assert(after.rep(b) == after.rep(b));
    assert(after.rep(x) == after.rep(x));
    assert(after.rep(y) == after.rep(y));
}

// ---------------------------------------------------------------- connected pieces

/// The edges that join a triangle's corners: `a–b` and `b–c` (with `c–a` implied).
pub open spec fn tri_edges(ts: Seq<[u32; 3]>) -> Seq<(int, int)>
    decreases ts.len(),
{
    if ts.len() == 0 {
        seq![]
    } else {
        let t = ts.last();
        tri_edges(ts.drop_last()).push((t[0] as int, t[1] as int)).push((t[1] as int, t[2] as int))
    }
}

/// Labels of `0..n` after joining along `edges` in order: joining `a` and `b` gives both their
/// sets the smaller of the two labels. Two vertices share a label exactly when the edges connect
/// them, and the label is the smallest vertex of the piece.
pub open spec fn labels_after(edges: Seq<(int, int)>, n: nat) -> Seq<int>
    decreases edges.len(),
{
    if edges.len() == 0 {
        Seq::new(n, |v: int| v)
    } else {
        let l = labels_after(edges.drop_last(), n);
        let (a, b) = edges.last();
        let m = if l[a] < l[b] {
            l[a]
        } else {
            l[b]
        };
        Seq::new(n, |v: int| if l[v] == l[a] || l[v] == l[b] { m } else { l[v] })
    }
}

/// Vertex `v` is a corner of some triangle.
pub open spec fn used_in(ts: Seq<[u32; 3]>, v: int) -> bool {
    exists|t: int, k: int| 0 <= t < ts.len() && 0 <= k < 3 && #[trigger] ts[t][k] == v
}

/// How many labels `r < m` are carried by some used vertex.
pub open spec fn label_count(l: Seq<int>, ts: Seq<[u32; 3]>, n: nat, m: int) -> nat
    decreases m,
{
    if m <= 0 {
        0
    } else {
        label_count(l, ts, n, m - 1) + (if exists|v: int| 0 <= v < n && used_in(ts, v) && l[v] == m - 1 {
            1nat
        } else {
            0nat
        })
    }
}

/// How many vertices are used.
pub open spec fn used_count(ts: Seq<[u32; 3]>, m: int) -> nat
    decreases m,
{
    if m <= 0 {
        0
    } else {
        used_count(ts, m - 1) + (if used_in(ts, m - 1) {
            1nat
        } else {
            0nat
        })
    }
}

pub open spec fn in_range(ts: Seq<[u32; 3]>, n: nat) -> bool {
    forall|t: int, k: int| 0 <= t < ts.len() && 0 <= k < 3 ==> #[trigger] ts[t][k] < n
}

proof fn lemma_tri_edges(ts: Seq<[u32; 3]>, i: int)
    requires
        0 <= i < ts.len(),
    ensures
        tri_edges(ts.take(i + 1)) == tri_edges(ts.take(i)).push((ts[i][0] as int, ts[i][1] as int)).push(
            (ts[i][1] as int, ts[i][2] as int),
        ),
        tri_edges(ts.take(i)).len() == 2 * i,
    decreases i,
{
    assert(ts.take(i + 1).drop_last() == ts.take(i));
    assert(ts.take(i + 1).last() == ts[i]);
    if i > 0 {
        lemma_tri_edges(ts, i - 1);
    }
}

/// The separate pieces of a mesh (vertices joined through triangles; unused vertices do not
/// count) and how many vertices are used.
pub fn count_components(n: u32, triangles: &[[u32; 3]]) -> (r: (u32, u32))
    requires
        in_range(triangles@, n as nat),
    ensures
        r.0 == label_count(labels_after(tri_edges(triangles@), n as nat), triangles@, n as nat, n as int),
        r.1 == used_count(triangles@, n as int),
{
    let ghost ts = triangles@;
    let mut uf = UnionFind::new(n);
    let mut used: Vec<bool> = Vec::new();
    let mut v: u32 = 0;
    while v < n
        invariant
            v <= n,
            used@.len() == v,
            forall|k: int| 0 <= k < v ==> !used@[k],
        decreases n - v,
    {
        used.push(false);
        v += 1;
    }
    let mut i: usize = 0;
    while i < triangles.len()
        invariant
            i <= ts.len(),
            ts == triangles@,
            in_range(ts, n as nat),
            uf.wf(),
            uf.size() == n,
            used@.len() == n,
            forall|y: int| 0 <= y < n ==> #[trigger] uf.rep(y) == labels_after(tri_edges(ts.take(i as int)), n as nat)[y],
            forall|y: int| 0 <= y < n ==> (#[trigger] used@[y] <==> used_in(ts.take(i as int), y)),
        decreases triangles.len() - i,
    {
        let t = triangles[i];
        assert(t[0] < n && t[1] < n && t[2] < n) by {
            assert(ts[i as int][0] < n);
            assert(ts[i as int][1] < n);
            assert(ts[i as int][2] < n);
        }
        let ghost l0 = labels_after(tri_edges(ts.take(i as int)), n as nat);
        let ghost u0 = uf;
        uf.union(t[0], t[1]);
        let ghost u1 = uf;
        uf.union(t[1], t[2]);
        proof {
            lemma_tri_edges(ts, i as int);
            let e = tri_edges(ts.take(i + 1));
            assert(e.drop_last().drop_last() == tri_edges(ts.take(i as int)));
            assert(e.drop_last().last() == (t[0] as int, t[1] as int));
            assert(e.last() == (t[1] as int, t[2] as int));
            let l1 = labels_after(e.drop_last(), n as nat);
            assert forall|y: int| 0 <= y < n implies #[trigger] u1.rep(y) == l1[y] by {
                assert(u0.rep(y) == l0[y]);
                assert(u0.rep(t[0] as int) == l0[t[0] as int]);
                assert(u0.rep(t[1] as int) == l0[t[1] as int]);
            }
            assert forall|y: int| 0 <= y < n implies #[trigger] uf.rep(y) == labels_after(e, n as nat)[y] by {
                assert(u1.rep(y) == l1[y]);
                assert(u1.rep(t[1] as int) == l1[t[1] as int]);
                assert(u1.rep(t[2] as int) == l1[t[2] as int]);
            }
        }
        used.set(t[0] as usize, true);
        used.set(t[1] as usize, true);
        used.set(t[2] as usize, true);
        proof {
            assert forall|y: int| 0 <= y < n implies (#[trigger] used@[y] <==> used_in(ts.take(i + 1), y)) by {
                if used_in(ts.take(i as int), y) {
                    let (q, k) = choose|q: int, k: int| 0 <= q < ts.take(i as int).len() && 0 <= k < 3 && #[trigger] ts.take(i as int)[q][k] == y;
                    assert(ts.take(i + 1)[q][k] == y);
                }
                if used_in(ts.take(i + 1), y) {
                    let (q, k) = choose|q: int, k: int| 0 <= q < ts.take(i + 1).len() && 0 <= k < 3 && #[trigger] ts.take(i + 1)[q][k] == y;
                    if q < i {
                        assert(ts.take(i as int)[q][k] == y);
                    } else {
                        assert(ts.take(i + 1)[q] == t);
                    }
                }
                if y == t[0] as int {
                    assert(ts.take(i + 1)[i as int][0] == y);
                }
                if y == t[1] as int {
                    assert(ts.take(i + 1)[i as int][1] == y);
                }
                if y == t[2] as int {
                    assert(ts.take(i + 1)[i as int][2] == y);
                }
            }
        }
        i += 1;
    }
    assert(ts.take(ts.len() as int) == ts);
    let ghost l = labels_after(tri_edges(ts), n as nat);
    // mark the labels carried by used vertices
    let mut mark: Vec<bool> = Vec::new();
    let mut q: u32 = 0;
    while q < n
        invariant
            q <= n,
            mark@.len() == q,
            forall|k: int| 0 <= k < q ==> !mark@[k],
        decreases n - q,
    {
        mark.push(false);
        q += 1;
    }
    let mut used_n: u32 = 0;
    let mut w: u32 = 0;
    while w < n
        invariant
            w <= n,
            uf.wf(),
            uf.size() == n,
            used@.len() == n,
            mark@.len() == n,
            forall|y: int| 0 <= y < n ==> #[trigger] uf.rep(y) == l[y],
            forall|y: int| 0 <= y < n ==> (#[trigger] used@[y] <==> used_in(ts, y)),
            forall|r: int| 0 <= r < n ==> (#[trigger] mark@[r] <==> exists|y: int| 0 <= y < w && used_in(ts, y) && l[y] == r),
            used_n == used_count(ts, w as int),
            used_n <= w,
        decreases n - w,
    {
        if used[w as usize] {
            let ghost u0 = uf;
            let r = uf.find(w);
            proof {
                lemma_root_bound(u0.parents(), w as int);
            }
            assert(r == l[w as int]);
            assert(r < n);
            mark.set(r as usize, true);
            used_n += 1;
        }
        w += 1;
    }
    let mut count: u32 = 0;
    let mut r: u32 = 0;
    while r < n
        invariant
            r <= n,
            mark@.len() == n,
            forall|x: int| 0 <= x < n ==> (#[trigger] mark@[x] <==> exists|y: int| 0 <= y < n && used_in(ts, y) && l[y] == x),
            count == label_count(l, ts, n as nat, r as int),
            count <= r,
        decreases n - r,
    {
        if mark[r as usize] {
            count += 1;
        }
        r += 1;
    }
    (count, used_n)
}

// ---------------------------------------------------------------- the rim of a cut

/// The directed edges along a cut, as a multiset in which `u→v` and `v→u` cancel. Kept in key
/// order, so whatever walks them sees the same order every time.
pub struct Rim {
    edges: BTreeMap<(u32, u32), u32>,
}

/// One edge added: a self-loop is ignored; an edge meets its reverse and both vanish (one copy
/// each); otherwise one more copy of it.
pub open spec fn rim_add(m: Map<(u32, u32), u32>, u: u32, v: u32) -> Map<(u32, u32), u32> {
    if u == v {
        m
    } else if m.contains_key((v, u)) {
        if m[(v, u)] > 1 {
            m.insert((v, u), (m[(v, u)] - 1) as u32)
        } else {
            m.remove((v, u))
        }
    } else {
        m.insert(
            (u, v),
            (if m.contains_key((u, v)) {
                m[(u, v)] + 1
            } else {
                1
            }) as u32,
        )
    }
}

/// No edge is there zero times, none is a loop, and no edge is there together with its reverse.
pub open spec fn rim_wf(m: Map<(u32, u32), u32>) -> bool {
    forall|k: (u32, u32)| #[trigger] m.contains_key(k) ==> m[k] >= 1 && k.0 != k.1 && !m.contains_key((k.1, k.0))
}

impl View for Rim {
    type V = Map<(u32, u32), u32>;

    closed spec fn view(&self) -> Map<(u32, u32), u32> {
        self.edges@
    }
}

impl Rim {
    pub closed spec fn wf(&self) -> bool {
        rim_wf(self.edges@)
    }

    pub fn new() -> (r: Self)
        ensures
            r@ == Map::<(u32, u32), u32>::empty(),
            r.wf(),
    {
        Rim { edges: BTreeMap::new() }
    }

    /// Adds the edge `u→v` (see `rim_add`).
    pub fn add(&mut self, u: u32, v: u32)
        requires
            old(self).wf(),
            old(self)@.contains_key((u, v)) ==> old(self)@[(u, v)] < u32::MAX,
        ensures
            final(self).wf(),
            final(self)@ == rim_add(old(self)@, u, v),
    {
        broadcast use vstd::std_specs::btree::group_btree_axioms;
        broadcast use vstd::laws_cmp::group_laws_cmp;

        if u == v {
            return;
        }
        let back = (v, u);
        match self.edges.get(&back) {
            Some(n) => {
                let n = *n;
                if n > 1 {
                    self.edges.insert(back, n - 1);
                } else {
                    self.edges.remove(&back);
                }
            },
            None => {
                let fwd = (u, v);
                let now = match self.edges.get(&fwd) {
                    Some(n) => *n,
                    None => 0,
                };
                self.edges.insert(fwd, now + 1);
            },
        }
    }

    /// The edges and how many times each is there, in key order.
    pub fn edges(&self) -> (r: &BTreeMap<(u32, u32), u32>)
        ensures
            r@ == self@,
    {
        &self.edges
    }

    pub fn is_empty(&self) -> (r: bool)
        ensures
            r == (self@.dom().len() == 0),
    {
        broadcast use vstd::std_specs::btree::group_btree_axioms;

        self.edges.is_empty()
    }
}

/// Adding an edge and then its reverse leaves the rim as it was: the two cancel.
pub proof fn rim_add_then_reverse(m: Map<(u32, u32), u32>, u: u32, v: u32)
    requires
        rim_wf(m),
        m.contains_key((u, v)) ==> m[(u, v)] < u32::MAX,
    ensures
        rim_wf(rim_add(m, u, v)),
        rim_add(rim_add(m, u, v), v, u) == m,
{
    let m1 = rim_add(m, u, v);
    if u != v {
        if m.contains_key((v, u)) {
            assert(!m.contains_key((u, v)));
            assert(!m1.contains_key((u, v)));
            if m[(v, u)] > 1 {
                assert(rim_add(m1, v, u) =~= m);
            } else {
                assert(rim_add(m1, v, u) =~= m);
            }
        } else {
            assert(m1.contains_key((u, v)));
            assert(rim_add(m1, v, u) =~= m);
        }
    }
    assert forall|k: (u32, u32)| #[trigger] m1.contains_key(k) implies m1[k] >= 1 && k.0 != k.1 && !m1.contains_key((k.1, k.0)) by {
        if m.contains_key(k) {
        }
    }
}

// ---------------------------------------------------------------- edges

/// The key of the undirected edge `i–j`: the smaller end in the high half, the larger in the low.
pub open spec fn edge_key_spec(i: u32, j: u32) -> int {
    let (lo, hi) = if i < j {
        (i, j)
    } else {
        (j, i)
    };
    lo * 0x1_0000_0000 + hi
}

pub fn edge_key(i: u32, j: u32) -> (r: u64)
    ensures
        r == edge_key_spec(i, j),
{
    let (lo, hi) = if i < j { (i, j) } else { (j, i) };
    let (a, b) = (lo as u64, hi as u64);
    assert((a << 32u64) | b == a * 0x1_0000_0000 + b) by (bit_vector)
        requires
            a < 0x1_0000_0000,
            b < 0x1_0000_0000,
    ;
    (a << 32u64) | b
}

/// Walking an edge from its smaller end counts +1, the other way −1: two triangles that agree
/// on their winding walk a shared edge once each way.
pub fn edge_direction(i: u32, j: u32) -> (r: i32)
    ensures
        r == (if i < j {
            1i32
        } else {
            -1i32
        }),
{
    if i < j {
        1
    } else {
        -1
    }
}

/// What an edge is, from how many triangle sides use it and how their directions add up.
#[derive(Debug, Clone, Copy, PartialEq, Eq, Structural)]
pub enum EdgeKind {
    /// Used once: a hole's border.
    Boundary,
    /// Used twice in agreeing directions.
    Manifold,
    /// Used twice the same way: one of the two triangles is flipped.
    Flipped,
    /// Used three times or more (or never).
    NonManifold,
}

pub open spec fn edge_kind_spec(count: u32, balance: i32) -> EdgeKind {
    if count == 1 {
        EdgeKind::Boundary
    } else if count == 2 {
        if balance != 0 {
            EdgeKind::Flipped
        } else {
            EdgeKind::Manifold
        }
    } else {
        EdgeKind::NonManifold
    }
}

pub fn classify_edge(count: u32, balance: i32) -> (r: EdgeKind)
    ensures
        r == edge_kind_spec(count, balance),
{
    if count == 1 {
        EdgeKind::Boundary
    } else if count == 2 {
        if balance != 0 {
            EdgeKind::Flipped
        } else {
            EdgeKind::Manifold
        }
    } else {
        EdgeKind::NonManifold
    }
}

// ---------------------------------------------------------------- edge tally

/// The sides of the triangles in order, each walked the way its triangle winds:
/// `a→b`, `b→c`, `c→a`.
pub open spec fn tri_sides(ts: Seq<[u32; 3]>) -> Seq<(u32, u32)>
    decreases ts.len(),
{
    if ts.len() == 0 {
        seq![]
    } else {
        let t = ts.last();
        tri_sides(ts.drop_last()) + seq![(t[0], t[1]), (t[1], t[2]), (t[2], t[0])]
    }
}

/// Where the entry with key `k` stands (the last one with that key), if any.
pub open spec fn key_pos(s: Seq<(int, int, int)>, k: int) -> Option<int>
    decreases s.len(),
{
    if s.len() == 0 {
        None
    } else if s.last().0 == k {
        Some(s.len() - 1)
    } else {
        key_pos(s.drop_last(), k)
    }
}

/// One more side walked `i→j`: its edge's entry gains a use and the side's direction; an edge
/// not seen before gets a new entry at the end.
pub open spec fn tally_step(prev: Seq<(int, int, int)>, side: (u32, u32)) -> Seq<(int, int, int)> {
    let k = edge_key_spec(side.0, side.1);
    let d = if side.0 < side.1 {
        1int
    } else {
        -1int
    };
    match key_pos(prev, k) {
        Some(p) => prev.update(p, (k, prev[p].1 + 1, prev[p].2 + d)),
        None => prev.push((k, 1, d)),
    }
}

/// Per undirected edge, in the order the edges first appear: its key, how many sides use it, and
/// the balance of their directions (+1 walked from the smaller end, −1 the other way).
pub open spec fn edge_tally(sides: Seq<(u32, u32)>) -> Seq<(int, int, int)>
    decreases sides.len(),
{
    if sides.len() == 0 {
        seq![]
    } else {
        tally_step(edge_tally(sides.drop_last()), sides.last())
    }
}

/// `edge_kind_spec` over unbounded numbers.
pub open spec fn kind_of(uses: int, balance: int) -> EdgeKind {
    if uses == 1 {
        EdgeKind::Boundary
    } else if uses == 2 {
        if balance != 0 {
            EdgeKind::Flipped
        } else {
            EdgeKind::Manifold
        }
    } else {
        EdgeKind::NonManifold
    }
}

/// How many entries of the tally are edges of this kind.
pub open spec fn count_kind(s: Seq<(int, int, int)>, kind: EdgeKind) -> nat
    decreases s.len(),
{
    if s.len() == 0 {
        0
    } else {
        count_kind(s.drop_last(), kind) + if kind_of(s.last().1, s.last().2) == kind {
            1nat
        } else {
            0nat
        }
    }
}

pub open spec fn tally_view(v: Seq<(u64, u32, i64)>) -> Seq<(int, int, int)> {
    v.map_values(|e: (u64, u32, i64)| (e.0 as int, e.1 as int, e.2 as int))
}

proof fn lemma_key_pos(s: Seq<(int, int, int)>, k: int)
    ensures
        match key_pos(s, k) {
            Some(p) => 0 <= p < s.len() && s[p].0 == k,
            None => forall|i: int| 0 <= i < s.len() ==> #[trigger] s[i].0 != k,
        },
    decreases s.len(),
{
    if s.len() > 0 && s.last().0 != k {
        lemma_key_pos(s.drop_last(), k);
        assert forall|i: int| 0 <= i < s.len() - 1 implies s[i] == s.drop_last()[i] by {}
    }
}

proof fn lemma_key_pos_push(s: Seq<(int, int, int)>, e: (int, int, int), k: int)
    ensures
        key_pos(s.push(e), k) == if e.0 == k {
            Some(s.len() as int)
        } else {
            key_pos(s, k)
        },
{
    assert(s.push(e).drop_last() == s);
}

proof fn lemma_key_pos_update(s: Seq<(int, int, int)>, p: int, e: (int, int, int), k: int)
    requires
        0 <= p < s.len(),
        e.0 == s[p].0,
    ensures
        key_pos(s.update(p, e), k) == key_pos(s, k),
    decreases s.len(),
{
    let u = s.update(p, e);
    if p == s.len() - 1 {
        assert(u.drop_last() == s.drop_last());
    } else {
        assert(u.last() == s.last());
        assert(u.drop_last() == s.drop_last().update(p, e));
        lemma_key_pos_update(s.drop_last(), p, e, k);
    }
}

/// Walks one side `i→j` into the tally; `index` maps each edge key to its entry.
fn add_side(index: &mut std::collections::HashMap<u64, usize>, tally: &mut Vec<(u64, u32, i64)>, i: u32, j: u32, m: u32)
    requires
        m < u32::MAX,
        old(tally)@.len() <= m,
        forall|p: int| 0 <= p < old(tally)@.len() ==> 1 <= (#[trigger] old(tally)@[p]).1 <= m && -(old(tally)@[p].1 as int)
            <= old(tally)@[p].2 <= old(tally)@[p].1,
        forall|k: u64|
            #![trigger old(index)@.contains_key(k)]
            old(index)@.contains_key(k) <==> key_pos(tally_view(old(tally)@), k as int) is Some,
        forall|k: u64|
            old(index)@.contains_key(k) ==> key_pos(tally_view(old(tally)@), k as int) == Some(
                #[trigger] old(index)@[k] as int,
            ),
    ensures
        tally_view(final(tally)@) == tally_step(tally_view(old(tally)@), (i, j)),
        final(tally)@.len() <= m + 1,
        forall|p: int| 0 <= p < final(tally)@.len() ==> 1 <= (#[trigger] final(tally)@[p]).1 <= m + 1 && -(final(tally)@[p].1 as int)
            <= final(tally)@[p].2 <= final(tally)@[p].1,
        forall|k: u64|
            #![trigger final(index)@.contains_key(k)]
            final(index)@.contains_key(k) <==> key_pos(tally_view(final(tally)@), k as int) is Some,
        forall|k: u64|
            final(index)@.contains_key(k) ==> key_pos(tally_view(final(tally)@), k as int) == Some(
                #[trigger] final(index)@[k] as int,
            ),
{
    broadcast use vstd::std_specs::hash::group_hash_axioms;

    let ghost tv = tally_view(tally@);
    let k = edge_key(i, j);
    let d: i64 = if i < j { 1 } else { -1 };
    proof {
        lemma_key_pos(tv, k as int);
    }
    match index.get(&k) {
        Some(p) => {
            let p = *p;
            assert(index@.contains_key(k));
            let e = tally[p];
            proof {
                assert(tv[p as int] == (e.0 as int, e.1 as int, e.2 as int));
            }
            tally.set(p, (e.0, e.1 + 1, e.2 + d));
            proof {
                let ne = (k as int, e.1 + 1, e.2 + d);
                assert(tally_view(tally@) =~= tv.update(p as int, ne));
                assert forall|x: u64| #![trigger index@.contains_key(x)]
                    index@.contains_key(x) <==> key_pos(tally_view(tally@), x as int) is Some by {
                    lemma_key_pos_update(tv, p as int, ne, x as int);
                }
                assert forall|x: u64| index@.contains_key(x) implies key_pos(tally_view(tally@), x as int) == Some(
                    #[trigger] index@[x] as int,
                ) by {
                    lemma_key_pos_update(tv, p as int, ne, x as int);
                }
            }
        },
        None => {
            let ghost old_index = index@;
            let n = tally.len();
            index.insert(k, n);
            tally.push((k, 1, d));
            proof {
                let ne = (k as int, 1int, d as int);
                assert(tally_view(tally@) =~= tv.push(ne));
                assert forall|x: u64| #![trigger index@.contains_key(x)]
                    index@.contains_key(x) <==> key_pos(tally_view(tally@), x as int) is Some by {
                    lemma_key_pos_push(tv, ne, x as int);
                    assert(old_index.contains_key(x) <==> key_pos(tv, x as int) is Some);
                }
                assert forall|x: u64| index@.contains_key(x) implies key_pos(tally_view(tally@), x as int) == Some(
                    #[trigger] index@[x] as int,
                ) by {
                    lemma_key_pos_push(tv, ne, x as int);
                    if x != k {
                        assert(old_index.contains_key(x));
                        assert(key_pos(tv, x as int) == Some(old_index[x] as int));
                    }
                }
            }
        },
    }
}

proof fn lemma_tri_sides(ts: Seq<[u32; 3]>, i: int)
    requires
        0 <= i < ts.len(),
    ensures
        tri_sides(ts.take(i + 1)) == tri_sides(ts.take(i)).push((ts[i][0], ts[i][1])).push((ts[i][1], ts[i][2])).push(
            (ts[i][2], ts[i][0]),
        ),
        tri_sides(ts.take(i)).len() == 3 * i,
    decreases i,
{
    assert(ts.take(i + 1).drop_last() == ts.take(i));
    assert(ts.take(i + 1).last() == ts[i]);
    assert(tri_sides(ts.take(i + 1)) =~= tri_sides(ts.take(i)).push((ts[i][0], ts[i][1])).push((ts[i][1], ts[i][2])).push(
        (ts[i][2], ts[i][0]),
    ));
    if i > 0 {
        lemma_tri_sides(ts, i - 1);
    }
}

proof fn lemma_tally_push(s: Seq<(u32, u32)>, x: (u32, u32))
    ensures
        edge_tally(s.push(x)) == tally_step(edge_tally(s), x),
{
    assert(s.push(x).drop_last() == s);
}

/// How many edges of a mesh are boundary edges (used by one triangle side), non-manifold
/// (used by three sides or more) and flipped (used twice, both the same way), in that order.
pub fn edge_kind_counts(triangles: &[[u32; 3]]) -> (r: (u32, u32, u32))
    requires
        triangles@.len() * 3 <= u32::MAX,
    ensures
        r.0 == count_kind(edge_tally(tri_sides(triangles@)), EdgeKind::Boundary),
        r.1 == count_kind(edge_tally(tri_sides(triangles@)), EdgeKind::NonManifold),
        r.2 == count_kind(edge_tally(tri_sides(triangles@)), EdgeKind::Flipped),
{
    broadcast use vstd::std_specs::hash::group_hash_axioms;

    let ghost ts = triangles@;
    let mut index: std::collections::HashMap<u64, usize> = std::collections::HashMap::new();
    let mut tally: Vec<(u64, u32, i64)> = Vec::new();
    let mut i: usize = 0;
    proof {
        assert(ts.take(0) =~= Seq::<[u32; 3]>::empty());
        assert(tally_view(tally@) =~= Seq::<(int, int, int)>::empty());
    }
    while i < triangles.len()
        invariant
            i <= ts.len(),
            ts == triangles@,
            ts.len() * 3 <= u32::MAX,
            tally_view(tally@) == edge_tally(tri_sides(ts.take(i as int))),
            tally@.len() <= 3 * i,
            forall|p: int| 0 <= p < tally@.len() ==> 1 <= (#[trigger] tally@[p]).1 <= 3 * i && -(tally@[p].1 as int)
                <= tally@[p].2 <= tally@[p].1,
            forall|k: u64|
                #![trigger index@.contains_key(k)]
                index@.contains_key(k) <==> key_pos(tally_view(tally@), k as int) is Some,
            forall|k: u64|
                index@.contains_key(k) ==> key_pos(tally_view(tally@), k as int) == Some(#[trigger] index@[k] as int),
        decreases triangles.len() - i,
    {
        let t = triangles[i];
        let m = (3 * i) as u32;
        let ghost s0 = tri_sides(ts.take(i as int));
        proof {
            lemma_tri_sides(ts, i as int);
        }
        add_side(&mut index, &mut tally, t[0], t[1], m);
        proof {
            lemma_tally_push(s0, (t[0], t[1]));
        }
        add_side(&mut index, &mut tally, t[1], t[2], m + 1);
        proof {
            lemma_tally_push(s0.push((t[0], t[1])), (t[1], t[2]));
        }
        add_side(&mut index, &mut tally, t[2], t[0], m + 2);
        proof {
            lemma_tally_push(s0.push((t[0], t[1])).push((t[1], t[2])), (t[2], t[0]));
            assert(ts[i as int] == t);
        }
        i += 1;
    }
    assert(ts.take(ts.len() as int) == ts);
    let ghost tv = tally_view(tally@);
    let (mut boundary, mut non_manifold, mut flipped) = (0u32, 0u32, 0u32);
    let mut q: usize = 0;
    while q < tally.len()
        invariant
            q <= tally@.len(),
            tally@.len() <= u32::MAX,
            tv == tally_view(tally@),
            forall|p: int| 0 <= p < tally@.len() ==> 1 <= (#[trigger] tally@[p]).1,
            boundary == count_kind(tv.take(q as int), EdgeKind::Boundary),
            non_manifold == count_kind(tv.take(q as int), EdgeKind::NonManifold),
            flipped == count_kind(tv.take(q as int), EdgeKind::Flipped),
            boundary <= q && non_manifold <= q && flipped <= q,
        decreases tally.len() - q,
    {
        let (_, uses, balance) = tally[q];
        proof {
            assert(tv.take(q + 1).drop_last() == tv.take(q as int));
            assert(tv.take(q + 1).last() == (tally@[q as int].0 as int, uses as int, balance as int));
        }
        if uses == 1 {
            boundary += 1;
        } else if uses == 2 {
            if balance != 0 {
                flipped += 1;
            }
        } else {
            non_manifold += 1;
        }
        q += 1;
    }
    assert(tv.take(tv.len() as int) == tv);
    (boundary, non_manifold, flipped)
}

} // verus!

verus! {

/// Two edges have one key exactly when they join the same two vertices, in either direction.
pub proof fn edge_keys_name_edges(i: u32, j: u32, k: u32, l: u32)
    ensures
        edge_key_spec(i, j) == edge_key_spec(j, i),
        edge_key_spec(i, j) == edge_key_spec(k, l) <==> ((i == k && j == l) || (i == l && j == k)),
{
    let (a, b) = if i < j {
        (i as int, j as int)
    } else {
        (j as int, i as int)
    };
    let (c, d) = if k < l {
        (k as int, l as int)
    } else {
        (l as int, k as int)
    };
    assert(a * 0x1_0000_0000 + b == c * 0x1_0000_0000 + d ==> a == c && b == d) by (nonlinear_arith)
        requires
            0 <= b < 0x1_0000_0000,
            0 <= d < 0x1_0000_0000,
            0 <= a,
            0 <= c,
    ;
}

} // verus!
