//! One declared relation between two record kinds: a forward adjacency
//! from source handles to target handle-sets, and its inverse, kept
//! consistent by construction.

use vstd::prelude::*;

use crate::idxset::{below, insert_sorted, strictly_sorted, union_sorted};

verus! {

broadcast use vstd::set::group_set_axioms;

/// A directed relation between the records of two kinds, both directions
/// first-class.
pub struct Relation {
    forward: Vec<Vec<usize>>,
    reverse: Vec<Vec<usize>>,
}

/// The handles reachable from some handle of `s` through the adjacency.
pub open spec fn image(adj: Seq<Seq<usize>>, s: Set<usize>) -> Set<usize> {
    Set::new(
        |t: usize| exists|h: usize| s.contains(h) && 0 <= h < adj.len() && adj[h as int].contains(t),
    )
}

impl Relation {
    /// The forward adjacency: targets of each source handle.
    pub closed spec fn fwd(&self) -> Seq<Seq<usize>> {
        self.forward@.map_values(|v: Vec<usize>| v@)
    }

    /// The reverse adjacency: sources of each target handle.
    pub closed spec fn rev(&self) -> Seq<Seq<usize>> {
        self.reverse@.map_values(|v: Vec<usize>| v@)
    }

    /// How many source handles the relation covers.
    pub open spec fn n_src(&self) -> int {
        self.fwd().len() as int
    }

    /// How many target handles the relation covers.
    pub open spec fn n_tgt(&self) -> int {
        self.rev().len() as int
    }

    /// Whether source `i` and target `j` are related.
    pub open spec fn connects(&self, i: usize, j: usize) -> bool {
        i < self.n_src() && self.fwd()[i as int].contains(j)
    }

    /// Both directions sorted, in bounds, and mirror images of each other.
    pub open spec fn wf(&self) -> bool {
        &&& forall|i: int|
            0 <= i < self.n_src() ==> strictly_sorted(#[trigger] self.fwd()[i]) && below(
                self.fwd()[i],
                self.n_tgt(),
            )
        &&& forall|j: int|
            0 <= j < self.n_tgt() ==> strictly_sorted(#[trigger] self.rev()[j]) && below(
                self.rev()[j],
                self.n_src(),
            )
        &&& forall|i: usize, j: usize|
            i < self.n_src() && j < self.n_tgt() ==> (#[trigger] self.fwd()[i as int].contains(j)
                <==> #[trigger] self.rev()[j as int].contains(i))
    }

    /// Builds the relation from related pairs; afterwards exactly the
    /// listed pairs are connected, in both directions.
    pub fn from_pairs(n_src: usize, n_tgt: usize, pairs: &Vec<(usize, usize)>) -> (r: Relation)
        requires
            forall|k: int|
                0 <= k < pairs@.len() ==> (#[trigger] pairs@[k]).0 < n_src && pairs@[k].1 < n_tgt,
        ensures
            r.wf(),
            r.n_src() == n_src,
            r.n_tgt() == n_tgt,
            forall|i: usize, j: usize|
                #![trigger r.connects(i, j)]
                i < n_src && j < n_tgt ==> (r.connects(i, j) <==> pairs@.contains((i, j))),
    {
        let mut forward: Vec<Vec<usize>> = Vec::new();
        let mut k: usize = 0;
        while k < n_src
            invariant
                k <= n_src,
                forward@.len() == k,
                forall|i: int| 0 <= i < k ==> (#[trigger] forward@[i])@.len() == 0,
            decreases n_src - k,
        {
            forward.push(Vec::new());
            k = k + 1;
        }
        let mut reverse: Vec<Vec<usize>> = Vec::new();
        let mut k: usize = 0;
        while k < n_tgt
            invariant
                k <= n_tgt,
                reverse@.len() == k,
                forall|j: int| 0 <= j < k ==> (#[trigger] reverse@[j])@.len() == 0,
            decreases n_tgt - k,
        {
            reverse.push(Vec::new());
            k = k + 1;
        }
        let n = pairs.len();
        let mut k: usize = 0;
        while k < n
            invariant
                n == pairs@.len(),
                k <= n,
                forward@.len() == n_src,
                reverse@.len() == n_tgt,
                forall|kk: int|
                    0 <= kk < pairs@.len() ==> (#[trigger] pairs@[kk]).0 < n_src && pairs@[kk].1
                        < n_tgt,
                forall|i: int|
                    0 <= i < n_src ==> strictly_sorted((#[trigger] forward@[i])@) && below(
                        forward@[i]@,
                        n_tgt as int,
                    ),
                forall|j: int|
                    0 <= j < n_tgt ==> strictly_sorted((#[trigger] reverse@[j])@) && below(
                        reverse@[j]@,
                        n_src as int,
                    ),
                forall|i: usize, j: usize|
                    #![trigger forward@[i as int]@.contains(j)]
                    i < n_src && j < n_tgt ==> (forward@[i as int]@.contains(j)
                        <==> pairs@.subrange(0, k as int).contains((i, j))),
                forall|i: usize, j: usize|
                    #![trigger reverse@[j as int]@.contains(i)]
                    i < n_src && j < n_tgt ==> (reverse@[j as int]@.contains(i)
                        <==> pairs@.subrange(0, k as int).contains((i, j))),
            decreases n - k,
        {
            let (s, t) = (pairs[k].0, pairs[k].1);
            let ghost fwd0 = forward@;
            let ghost rev0 = reverse@;
            insert_sorted(&mut forward[s], t);
            insert_sorted(&mut reverse[t], s);
            proof {
                assert(forward@ == fwd0.update(s as int, forward@[s as int]));
                assert(reverse@ == rev0.update(t as int, reverse@[t as int]));
                assert forall|i: int|
                    0 <= i < n_src implies strictly_sorted((#[trigger] forward@[i])@) && below(
                    forward@[i]@,
                    n_tgt as int,
                ) by {
                    if i == s as int {
                        assert forall|ii: int|
                            0 <= ii < forward@[i]@.len() implies forward@[i]@[ii] < n_tgt by {
                            let x = forward@[i]@[ii];
                            assert(forward@[i]@.contains(x));
                            assert(forward@[i]@.to_set().contains(x));
                            if x != t {
                                assert(fwd0[i]@.to_set().contains(x));
                                let jj = choose|jj: int|
                                    0 <= jj < fwd0[i]@.len() && fwd0[i]@[jj] == x;
                                assert(fwd0[i]@[jj] < n_tgt);
                            }
                        }
                    } else {
                        assert(forward@[i] == fwd0[i]);
                    }
                }
                assert forall|j: int|
                    0 <= j < n_tgt implies strictly_sorted((#[trigger] reverse@[j])@) && below(
                    reverse@[j]@,
                    n_src as int,
                ) by {
                    if j == t as int {
                        assert forall|jj: int|
                            0 <= jj < reverse@[j]@.len() implies reverse@[j]@[jj] < n_src by {
                            let x = reverse@[j]@[jj];
                            assert(reverse@[j]@.contains(x));
                            assert(reverse@[j]@.to_set().contains(x));
                            if x != s {
                                assert(rev0[j]@.to_set().contains(x));
                                let ii = choose|ii: int|
                                    0 <= ii < rev0[j]@.len() && rev0[j]@[ii] == x;
                                assert(rev0[j]@[ii] < n_src);
                            }
                        }
                    } else {
                        assert(reverse@[j] == rev0[j]);
                    }
                }
                let prev = pairs@.subrange(0, k as int);
                let now = pairs@.subrange(0, k as int + 1);
                assert(now =~= prev.push((s, t)));
                assert forall|i: usize, j: usize|
                    #![trigger forward@[i as int]@.contains(j)]
                    i < n_src && j < n_tgt implies (forward@[i as int]@.contains(j)
                    <==> now.contains((i, j))) by {
                    lemma_push_contains(prev, (s, t), (i, j));
                    if i == s {
                        assert(forward@[i as int]@.to_set() == fwd0[i as int]@.to_set().insert(t));
                        if forward@[i as int]@.contains(j) {
                            assert(forward@[i as int]@.to_set().contains(j));
                            if j != t {
                                assert(fwd0[i as int]@.to_set().contains(j));
                            }
                        }
                        if j == t {
                            assert(forward@[i as int]@.to_set().contains(j));
                        }
                        if prev.contains((i, j)) {
                            assert(fwd0[i as int]@.contains(j));
                            assert(forward@[i as int]@.to_set().contains(j));
                        }
                    } else {
                        assert(forward@[i as int] == fwd0[i as int]);
                    }
                }
                assert forall|i: usize, j: usize|
                    #![trigger reverse@[j as int]@.contains(i)]
                    i < n_src && j < n_tgt implies (reverse@[j as int]@.contains(i)
                    <==> now.contains((i, j))) by {
                    lemma_push_contains(prev, (s, t), (i, j));
                    if j == t {
                        assert(reverse@[j as int]@.to_set() == rev0[j as int]@.to_set().insert(s));
                        if reverse@[j as int]@.contains(i) {
                            assert(reverse@[j as int]@.to_set().contains(i));
                            if i != s {
                                assert(rev0[j as int]@.to_set().contains(i));
                            }
                        }
                        if i == s {
                            assert(reverse@[j as int]@.to_set().contains(i));
                        }
                        if prev.contains((i, j)) {
                            assert(rev0[j as int]@.contains(i));
                            assert(reverse@[j as int]@.to_set().contains(i));
                        }
                    } else {
                        assert(reverse@[j as int] == rev0[j as int]);
                    }
                }
            }
            k = k + 1;
        }
        proof {
            assert(pairs@.subrange(0, n as int) =~= pairs@);
        }
        let r = Relation { forward, reverse };
        proof {
            assert forall|i: usize, j: usize|
                i < n_src && j < n_tgt implies (#[trigger] r.fwd()[i as int].contains(j)
                <==> #[trigger] r.rev()[j as int].contains(i)) by {}
        }
        r
    }

    /// All targets related to some handle of the sorted set `s`,
    /// following the relation forward.
    pub fn targets_of(&self, s: &Vec<usize>) -> (r: Vec<usize>)
        requires
            self.wf(),
            strictly_sorted(s@),
            below(s@, self.n_src()),
        ensures
            strictly_sorted(r@),
            below(r@, self.n_tgt()),
            r@.to_set() == image(self.fwd(), s@.to_set()),
    {
        let n = s.len();
        let mut out: Vec<usize> = Vec::new();
        let mut k: usize = 0;
        while k < n
            invariant
                n == s@.len(),
                k <= n,
                self.wf(),
                strictly_sorted(s@),
                below(s@, self.n_src()),
                strictly_sorted(out@),
                out@.to_set() == image(self.fwd(), s@.subrange(0, k as int).to_set()),
            decreases n - k,
        {
            let h = s[k];
            let row: &Vec<usize> = &self.forward[h];
            proof {
                assert(row@ == self.fwd()[h as int]);
            }
            let merged = union_sorted(&out, row);
            proof {
                lemma_image_step(self.fwd(), s@, k as int);
            }
            out = merged;
            k = k + 1;
        }
        proof {
            assert(s@.subrange(0, n as int) =~= s@);
            assert forall|ii: int| 0 <= ii < out@.len() implies out@[ii] < self.n_tgt() by {
                let x = out@[ii];
                assert(out@.contains(x));
                assert(out@.to_set().contains(x));
                let h = choose|h: usize|
                    s@.to_set().contains(h) && 0 <= h < self.fwd().len() && self.fwd()[h as int].contains(x);
                let jj = choose|jj: int|
                    0 <= jj < self.fwd()[h as int].len() && self.fwd()[h as int][jj] == x;
                assert(self.fwd()[h as int][jj] < self.n_tgt());
            }
        }
        out
    }

    /// All sources related to some handle of the sorted set `s`,
    /// following the relation backward.
    pub fn sources_of(&self, s: &Vec<usize>) -> (r: Vec<usize>)
        requires
            self.wf(),
            strictly_sorted(s@),
            below(s@, self.n_tgt()),
        ensures
            strictly_sorted(r@),
            below(r@, self.n_src()),
            r@.to_set() == image(self.rev(), s@.to_set()),
    {
        let n = s.len();
        let mut out: Vec<usize> = Vec::new();
        let mut k: usize = 0;
        while k < n
            invariant
                n == s@.len(),
                k <= n,
                self.wf(),
                strictly_sorted(s@),
                below(s@, self.n_tgt()),
                strictly_sorted(out@),
                out@.to_set() == image(self.rev(), s@.subrange(0, k as int).to_set()),
            decreases n - k,
        {
            let h = s[k];
            let row: &Vec<usize> = &self.reverse[h];
            proof {
                assert(row@ == self.rev()[h as int]);
            }
            let merged = union_sorted(&out, row);
            proof {
                lemma_image_step(self.rev(), s@, k as int);
            }
            out = merged;
            k = k + 1;
        }
        proof {
            assert(s@.subrange(0, n as int) =~= s@);
            assert forall|ii: int| 0 <= ii < out@.len() implies out@[ii] < self.n_src() by {
                let x = out@[ii];
                assert(out@.contains(x));
                assert(out@.to_set().contains(x));
                let h = choose|h: usize|
                    s@.to_set().contains(h) && 0 <= h < self.rev().len() && self.rev()[h as int].contains(x);
                let jj = choose|jj: int|
                    0 <= jj < self.rev()[h as int].len() && self.rev()[h as int][jj] == x;
                assert(self.rev()[h as int][jj] < self.n_src());
            }
        }
        out
    }
}

/// Membership in a pushed sequence.
pub proof fn lemma_push_contains<T>(s: Seq<T>, x: T, y: T)
    ensures
        s.push(x).contains(y) <==> (s.contains(y) || y == x),
{
    if s.contains(y) {
        let i = choose|i: int| 0 <= i < s.len() && s[i] == y;
        assert(s.push(x)[i] == y);
    }
    if y == x {
        assert(s.push(x)[s.len() as int] == y);
    }
    if s.push(x).contains(y) {
        let i = choose|i: int| 0 <= i < s.push(x).len() && s.push(x)[i] == y;
        if i < s.len() {
            assert(s[i] == y);
        }
    }
}

/// Walking one more handle of the set adds exactly that handle's row to
/// the image.
proof fn lemma_image_step(adj: Seq<Seq<usize>>, s: Seq<usize>, k: int)
    requires
        0 <= k < s.len(),
        below(s, adj.len() as int),
    ensures
        image(adj, s.subrange(0, k + 1).to_set()) == image(adj, s.subrange(0, k).to_set()).union(
            adj[s[k] as int].to_set(),
        ),
{
    let s0 = s.subrange(0, k);
    let s1 = s.subrange(0, k + 1);
    assert(s1 =~= s0.push(s[k]));
    assert forall|t: usize| image(adj, s1.to_set()).contains(t) implies image(
        adj,
        s0.to_set(),
    ).union(adj[s[k] as int].to_set()).contains(t) by {
        let h = choose|h: usize|
            s1.to_set().contains(h) && 0 <= h < adj.len() && adj[h as int].contains(t);
        lemma_push_contains(s0, s[k], h);
        if s0.contains(h) {
            assert(s0.to_set().contains(h));
            assert(exists|hh: usize|
                s0.to_set().contains(hh) && 0 <= hh < adj.len() && adj[hh as int].contains(t)) by {
                assert(s0.to_set().contains(h) && 0 <= h < adj.len() && adj[h as int].contains(t));
            }
            assert(image(adj, s0.to_set()).contains(t));
        } else {
            assert(h == s[k]);
            assert(adj[s[k] as int].to_set().contains(t));
        }
    }
    assert forall|t: usize|
        image(adj, s0.to_set()).union(adj[s[k] as int].to_set()).contains(t) implies image(
        adj,
        s1.to_set(),
    ).contains(t) by {
        if image(adj, s0.to_set()).contains(t) {
            let h = choose|h: usize|
                s0.to_set().contains(h) && 0 <= h < adj.len() && adj[h as int].contains(t);
            assert(s1.to_set().contains(h)) by {
                lemma_push_contains(s0, s[k], h);
            }
            assert(exists|hh: usize|
                s1.to_set().contains(hh) && 0 <= hh < adj.len() && adj[hh as int].contains(t)) by {
                assert(s1.to_set().contains(h) && 0 <= h < adj.len() && adj[h as int].contains(t));
            }
        } else {
            assert(adj[s[k] as int].contains(t));
            assert(s1.to_set().contains(s[k])) by {
                assert(s1[k] == s[k]);
            }
            assert(s[k] < adj.len());
            assert(exists|hh: usize|
                s1.to_set().contains(hh) && 0 <= hh < adj.len() && adj[hh as int].contains(t)) by {
                assert(s1.to_set().contains(s[k]) && 0 <= s[k] < adj.len() && adj[s[k] as int].contains(t));
            }
        }
    }
    assert(image(adj, s1.to_set()) =~= image(adj, s0.to_set()).union(adj[s[k] as int].to_set()));
}

} // verus!
