//! The scene graph: an arena of nodes, each with its own attributes and a list
//! of children.
//!
//! A node may only name as children nodes that were added before it, so the
//! graph can never hold a cycle; a node may still be the child of several
//! parents. Shapes are emitted by one scheme only: each node emits its own
//! shape in its local frame, and a parent applies its own local transform to
//! everything its subtree emitted. The scene records that scheme as the list
//! of root-to-node paths, one per emitted node, in emission order.
use vstd::prelude::*;

verus! {

/// Why a change to a scene was refused.
#[derive(Debug, Clone, Copy, PartialEq, Eq, Structural)]
pub enum SceneError {
    /// A listed child is not a node added before the would-be parent.
    ChildNotBefore,
    /// The index names no node of the scene.
    UnknownNode,
}

struct SceneNode<N> {
    attributes: N,
    children: Vec<usize>,
}

/// Whether every index in `children` is below `bound`.
fn all_before(children: &Vec<usize>, bound: usize) -> (r: bool)
    ensures
        r == children_before(children@, bound as int),
{
    let mut j: usize = 0;
    while j < children.len()
        invariant
            j <= children@.len(),
            children_before(children@.take(j as int), bound as int),
        decreases children@.len() - j,
    {
        if children[j] >= bound {
            assert(!children_before(children@, bound as int));
            return false;
        }
        assert(children@.take(j + 1) == children@.take(j as int).push(children@[j as int]));
        j += 1;
    }
    assert(children@.take(j as int) == children@);
    true
}

/// The path `p` with `k` put in front of it.
fn prepend(k: usize, p: &Vec<usize>) -> (r: Vec<usize>)
    ensures
        r@ == seq![k] + p@,
{
    let mut r: Vec<usize> = vec![k];
    let mut i: usize = 0;
    while i < p.len()
        invariant
            i <= p@.len(),
            r@ == seq![k] + p@.take(i as int),
        decreases p@.len() - i,
    {
        r.push(p[i]);
        assert(p@.take(i + 1) == p@.take(i as int).push(p@[i as int]));
        assert(r@ =~= seq![k] + p@.take(i + 1));
        i += 1;
    }
    assert(p@.take(i as int) =~= p@);
    r
}

/// `steps` records one emission along `path`: its last entry is the own
/// emission of the path's last node, and each earlier entry is the next one
/// with the transform of the node at that place applied to it. The emission's
/// result is `steps[0]`.
pub open spec fn emitted_along<S, FO: Fn(usize) -> S, FA: Fn(usize, S) -> S>(
    own: FO,
    apply: FA,
    path: Seq<usize>,
    steps: Seq<S>,
) -> bool {
    &&& path.len() >= 1
    &&& steps.len() == path.len()
    &&& own.ensures((path.last(),), steps.last())
    &&& forall|t: int|
        0 <= t < path.len() - 1 ==> apply.ensures((path[t], steps[t + 1]), #[trigger] steps[t])
}

/// `s` is a possible result of emitting along `path`: the own emission of its
/// last node, then the transform of each earlier node applied to it, from the
/// innermost outwards.
pub open spec fn applied_along<S, FO: Fn(usize) -> S, FA: Fn(usize, S) -> S>(
    own: FO,
    apply: FA,
    path: Seq<usize>,
    s: S,
) -> bool {
    exists|steps: Seq<S>| #[trigger] emitted_along(own, apply, path, steps) && steps[0] == s
}

/// Emits along one path: the own emission of its last node, then the
/// transform of each earlier node, from the innermost outwards.
fn fold_path<S, FO: Fn(usize) -> S, FA: Fn(usize, S) -> S>(
    path: &Vec<usize>,
    own: &FO,
    apply: &FA,
) -> (r: S)
    requires
        path@.len() >= 1,
        forall|n: usize| own.requires((n,)),
        forall|n: usize, s: S| apply.requires((n, s)),
    ensures
        applied_along(*own, *apply, path@, r),
{
    let len = path.len();
    let mut t: usize = len - 1;
    let mut s = (*own)(path[t]);
    let ghost mut steps: Seq<S> = seq![s];
    while t > 0
        invariant
            t < len,
            len == path@.len(),
            forall|n: usize, s: S| apply.requires((n, s)),
            steps.len() == len - t,
            steps[0] == s,
            own.ensures((path@.last(),), steps.last()),
            forall|m: int|
                0 <= m < steps.len() - 1 ==> apply.ensures(
                    (path@[t + m], steps[m + 1]),
                    #[trigger] steps[m],
                ),
        decreases t,
    {
        t -= 1;
        let ghost inner = steps;
        s = (*apply)(path[t], s);
        proof {
            steps = seq![s] + inner;
            assert forall|m: int| 0 <= m < steps.len() - 1 implies apply.ensures(
                (path@[t + m], steps[m + 1]),
                #[trigger] steps[m],
            ) by {
                if m > 0 {
                    assert(steps[m] == inner[m - 1]);
                    assert(steps[m + 1] == inner[m]);
                    assert(path@[t + m] == path@[(t + 1) + (m - 1)]);
                }
            }
        }
    }
    assert(emitted_along(*own, *apply, path@, steps));
    s
}

/// An arena of scene nodes, addressed by their index.
pub struct Scene<N> {
    nodes: Vec<SceneNode<N>>,
}

impl<N> View for Scene<N> {
    /// Each node's attributes and children, by index.
    type V = Seq<(N, Seq<usize>)>;

    closed spec fn view(&self) -> Seq<(N, Seq<usize>)> {
        self.nodes@.map_values(|n: SceneNode<N>| (n.attributes, n.children@))
    }
}

/// The paths of a list of vectors.
pub open spec fn deep(v: Seq<Vec<usize>>) -> Seq<Seq<usize>> {
    v.map_values(|p: Vec<usize>| p@)
}

/// Each path with `k` put in front of it.
pub open spec fn prefixed(k: usize, ps: Seq<Seq<usize>>) -> Seq<Seq<usize>> {
    ps.map_values(|p: Seq<usize>| seq![k] + p)
}

/// Every child of a node was added before it.
pub open spec fn children_before(children: Seq<usize>, k: int) -> bool {
    forall|j: int| 0 <= j < children.len() ==> children[j] < k
}

impl<N> Scene<N> {
    /// The children of node `k`.
    pub open spec fn children(&self, k: int) -> Seq<usize> {
        self@[k].1
    }

    /// Every node names only earlier nodes as children.
    pub open spec fn wf(&self) -> bool {
        forall|k: int| 0 <= k < self@.len() ==> children_before(#[trigger] self.children(k), k)
    }

    /// The paths from `k` to each node its emission covers, in emission order:
    /// `k` itself first, then the emission of each child in turn, each path
    /// led by `k`.
    pub open spec fn emission(&self, k: usize) -> Seq<Seq<usize>>
        decreases k, self.children(k as int).len() + 1,
    {
        seq![seq![k]] + self.emission_upto(k, self.children(k as int).len())
    }

    /// The emission of the first `j` children of `k`, each path led by `k`.
    pub open spec fn emission_upto(&self, k: usize, j: nat) -> Seq<Seq<usize>>
        decreases k, j,
    {
        if j == 0 || j > self.children(k as int).len() {
            seq![]
        } else {
            let c = self.children(k as int)[j - 1];
            let rest = self.emission_upto(k, (j - 1) as nat);
            if c < k {
                rest + prefixed(k, self.emission(c))
            } else {
                rest
            }
        }
    }

    /// `p` starts at `k`, each step goes from a node to one of its children,
    /// and every node on it is in the scene.
    pub open spec fn is_chain(&self, k: usize, p: Seq<usize>) -> bool {
        &&& p.len() >= 1
        &&& p[0] == k
        &&& forall|t: int| 0 <= t < p.len() ==> #[trigger] p[t] < self@.len()
        &&& forall|t: int| 1 <= t < p.len() ==> self.children(p[t - 1] as int).contains(#[trigger] p[t])
    }

    /// Every path of the emission of `k` is a chain from `k` down the child
    /// relation: each emitted node is placed by composing, from the inside
    /// out, the local transforms of exactly its chain of ancestors.
    pub proof fn lemma_emission_follows_edges(&self, k: usize)
        requires
            self.wf(),
            k < self@.len(),
        ensures
            forall|i: int|
                0 <= i < self.emission(k).len() ==> self.is_chain(k, #[trigger] self.emission(k)[i]),
        decreases k, self.children(k as int).len() + 1,
    {
        let n = self.children(k as int).len();
        self.lemma_upto_follows_edges(k, n);
        let all = self.emission(k);
        let first: Seq<usize> = seq![k];
        assert(all == seq![first] + self.emission_upto(k, n));
        assert forall|i: int| 0 <= i < all.len() implies self.is_chain(k, #[trigger] all[i]) by {
            if i == 0 {
                assert(all[i] == first);
            } else {
                assert(all[i] == self.emission_upto(k, n)[i - 1]);
            }
        }
    }

    proof fn lemma_upto_follows_edges(&self, k: usize, j: nat)
        requires
            self.wf(),
            k < self@.len(),
        ensures
            forall|i: int|
                0 <= i < self.emission_upto(k, j).len() ==> self.is_chain(
                    k,
                    #[trigger] self.emission_upto(k, j)[i],
                ),
        decreases k, j,
    {
        if j == 0 || j > self.children(k as int).len() {
        } else {
            let c = self.children(k as int)[j - 1];
            let rest = self.emission_upto(k, (j - 1) as nat);
            self.lemma_upto_follows_edges(k, (j - 1) as nat);
            assert(children_before(self.children(k as int), k as int));
            assert(c < k);
            self.lemma_emission_follows_edges(c);
            let sub = self.emission(c);
            let pre = prefixed(k, sub);
            assert(self.children(k as int).contains(c));
            assert forall|i: int| 0 <= i < pre.len() implies self.is_chain(k, #[trigger] pre[i]) by {
                let q = sub[i];
                assert(self.is_chain(c, q));
                let p = pre[i];
                assert(p == seq![k] + q);
                assert forall|t: int| 0 <= t < p.len() implies #[trigger] p[t] < self@.len() by {
                    if t > 0 {
                        assert(p[t] == q[t - 1]);
                    }
                }
                assert forall|t: int| 1 <= t < p.len() implies self.children(p[t - 1] as int).contains(
                    #[trigger] p[t],
                ) by {
                    assert(p[t] == q[t - 1]);
                    if t > 1 {
                        assert(p[t - 1] == q[t - 2]);
                    }
                }
            }
            let all = rest + pre;
            assert(self.emission_upto(k, j) == all);
            assert forall|i: int| 0 <= i < all.len() implies self.is_chain(k, #[trigger] all[i]) by {
                if i < rest.len() {
                    assert(all[i] == rest[i]);
                } else {
                    assert(all[i] == pre[i - rest.len()]);
                }
            }
        }
    }

    /// An empty scene.
    pub fn new() -> (r: Scene<N>)
        ensures
            r@ == Seq::<(N, Seq<usize>)>::empty(),
            r.wf(),
    {
        Scene { nodes: Vec::new() }
    }

    /// The number of nodes.
    pub fn len(&self) -> (r: usize)
        ensures
            r == self@.len(),
    {
        self.nodes.len()
    }

    /// Adds a node with the given attributes and children. Every child must
    /// already be in the scene; the new node takes the next index.
    pub fn add_node(&mut self, attributes: N, children: Vec<usize>) -> (r: Result<usize, SceneError>)
        requires
            old(self).wf(),
            old(self)@.len() < usize::MAX,
        ensures
            final(self).wf(),
            r is Err <==> !children_before(children@, old(self)@.len() as int),
            r is Err ==> r == Err::<usize, SceneError>(SceneError::ChildNotBefore) && final(self)@ == old(self)@,
            r is Ok ==> r == Ok::<usize, SceneError>(old(self)@.len() as usize)
                && final(self)@ == old(self)@.push((attributes, children@)),
    {
        let next = self.nodes.len();
        if !all_before(&children, next) {
            return Err(SceneError::ChildNotBefore);
        }
        let ghost kids = children@;
        self.nodes.push(SceneNode { attributes, children });
        proof {
            assert(self@ =~= old(self)@.push((attributes, kids)));
            assert forall|k: int| 0 <= k < self@.len() implies children_before(
                #[trigger] self.children(k),
                k,
            ) by {
                if k < old(self)@.len() {
                    assert(old(self).children(k) == self.children(k));
                }
            }
        }
        Ok(next)
    }

    /// Replaces the children of `node`. Every new child must be a node added
    /// before `node`.
    pub fn set_children(&mut self, node: usize, children: Vec<usize>) -> (r: Result<(), SceneError>)
        requires
            old(self).wf(),
        ensures
            final(self).wf(),
            r == Err::<(), SceneError>(SceneError::UnknownNode) <==> node >= old(self)@.len(),
            r == Err::<(), SceneError>(SceneError::ChildNotBefore) <==> node < old(self)@.len()
                && !children_before(children@, node as int),
            r is Err ==> final(self)@ == old(self)@,
            r is Ok ==> final(self)@ == old(self)@.update(
                node as int,
                (old(self)@[node as int].0, children@),
            ),
    {
        if node >= self.nodes.len() {
            return Err(SceneError::UnknownNode);
        }
        if !all_before(&children, node) {
            return Err(SceneError::ChildNotBefore);
        }
        let ghost kids = children@;
        let ghost before = self@;
        let mut replaced: Vec<usize> = children;
        let mut entry = self.nodes.remove(node);
        std::mem::swap(&mut entry.children, &mut replaced);
        self.nodes.insert(node, entry);
        proof {
            assert(self@ =~= before.update(node as int, (before[node as int].0, kids)));
            assert forall|k: int| 0 <= k < self@.len() implies children_before(
                #[trigger] self.children(k),
                k,
            ) by {
                if k != node {
                    assert(old(self).children(k) == self.children(k));
                }
            }
        }
        Ok(())
    }

    /// Replaces the attributes of `node` as a whole.
    pub fn set_attributes(&mut self, node: usize, attributes: N) -> (r: Result<(), SceneError>)
        requires
            old(self).wf(),
        ensures
            final(self).wf(),
            r is Err <==> node >= old(self)@.len(),
            r is Err ==> r == Err::<(), SceneError>(SceneError::UnknownNode) && final(self)@ == old(self)@,
            r is Ok ==> final(self)@ == old(self)@.update(
                node as int,
                (attributes, old(self)@[node as int].1),
            ),
    {
        if node >= self.nodes.len() {
            return Err(SceneError::UnknownNode);
        }
        let ghost before = self@;
        let mut entry = self.nodes.remove(node);
        entry.attributes = attributes;
        self.nodes.insert(node, entry);
        proof {
            assert(self@ =~= before.update(node as int, (attributes, before[node as int].1)));
            assert forall|k: int| 0 <= k < self@.len() implies children_before(
                #[trigger] self.children(k),
                k,
            ) by {
                assert(old(self).children(k) == self.children(k));
            }
        }
        Ok(())
    }

    /// The root-to-node paths of the emission of `root`, in emission order.
    pub fn emission_paths(&self, root: usize) -> (r: Vec<Vec<usize>>)
        requires
            self.wf(),
            root < self@.len(),
        ensures
            deep(r@) == self.emission(root),
        decreases root,
    {
        let mut out: Vec<Vec<usize>> = Vec::new();
        let first: Vec<usize> = vec![root];
        assert(first@ =~= seq![root]);
        out.push(first);
        let n = self.nodes[root].children.len();
        proof {
            assert(self.children(root as int) == self.nodes@[root as int].children@);
            assert(self.emission_upto(root, 0) =~= Seq::<Seq<usize>>::empty());
            assert(deep(out@) =~= seq![seq![root]] + self.emission_upto(root, 0));
        }
        let mut j: usize = 0;
        while j < n
            invariant
                self.wf(),
                root < self@.len(),
                n == self.children(root as int).len(),
                j <= n,
                deep(out@) == seq![seq![root]] + self.emission_upto(root, j as nat),
            decreases n - j,
        {
            let c = self.nodes[root].children[j];
            proof {
                assert(self.children(root as int) == self.nodes@[root as int].children@);
                assert(children_before(self.children(root as int), root as int));
                assert(c == self.children(root as int)[j as int]);
            }
            let sub = self.emission_paths(c);
            let ghost start = deep(out@);
            let mut i: usize = 0;
            while i < sub.len()
                invariant
                    i <= sub@.len(),
                    deep(sub@) == self.emission(c),
                    deep(out@) == start + prefixed(root, deep(sub@).take(i as int)),
                decreases sub@.len() - i,
            {
                let p = prepend(root, &sub[i]);
                let ghost before = out@;
                out.push(p);
                proof {
                    assert(deep(before.push(p)) =~= deep(before).push(p@));
                    assert(prefixed(root, deep(sub@).take(i + 1)) =~= prefixed(
                        root,
                        deep(sub@).take(i as int),
                    ).push(seq![root] + sub@[i as int]@));
                    assert(deep(out@) =~= start + prefixed(root, deep(sub@).take(i + 1)));
                }
                i += 1;
            }
            proof {
                assert(deep(sub@).take(i as int) =~= deep(sub@));
                assert(seq![seq![root]] + self.emission_upto(root, (j + 1) as nat) =~= start
                    + prefixed(root, self.emission(c)));
            }
            j += 1;
        }
        out
    }

    /// The shapes of the subtree of `root`, one per emitted path and in
    /// emission order. `own(n)` gives what node `n` emits in its own frame;
    /// `apply(a, s)` puts `s` into the frame of `a`'s parent by applying `a`'s
    /// local transform. A child's emission thus reaches the root with the
    /// transform of every ancestor applied to it.
    pub fn to_shapes_recursive<S, FO: Fn(usize) -> S, FA: Fn(usize, S) -> S>(
        &self,
        root: usize,
        own: FO,
        apply: FA,
    ) -> (r: Vec<S>)
        requires
            self.wf(),
            root < self@.len(),
            forall|n: usize| own.requires((n,)),
            forall|n: usize, s: S| apply.requires((n, s)),
        ensures
            r@.len() == self.emission(root).len(),
            forall|i: int|
                0 <= i < r@.len() ==> applied_along(own, apply, self.emission(root)[i], #[trigger] r@[i]),
    {
        let paths = self.emission_paths(root);
        proof {
            self.lemma_emission_follows_edges(root);
        }
        let mut out: Vec<S> = Vec::new();
        let mut i: usize = 0;
        while i < paths.len()
            invariant
                deep(paths@) == self.emission(root),
                forall|m: int|
                    0 <= m < paths@.len() ==> self.is_chain(root, #[trigger] deep(paths@)[m]),
                forall|n: usize| own.requires((n,)),
                forall|n: usize, s: S| apply.requires((n, s)),
                i <= paths@.len(),
                out@.len() == i,
                forall|m: int|
                    0 <= m < i ==> applied_along(own, apply, deep(paths@)[m], #[trigger] out@[m]),
            decreases paths@.len() - i,
        {
            let path = &paths[i];
            assert(path@ == deep(paths@)[i as int]);
            assert(self.is_chain(root, deep(paths@)[i as int]));
            let s = fold_path(path, &own, &apply);
            out.push(s);
            i += 1;
        }
        out
    }

    /// The attributes of a node.
    pub fn attributes(&self, node: usize) -> (r: &N)
        requires
            node < self@.len(),
        ensures
            *r == self@[node as int].0,
    {
        &self.nodes[node].attributes
    }
}

} // verus!
