use crate::list::{List, Path};
use vstd::prelude::*;

verus! {

/// An immutable n-ary tree: a leaf, or a labelled node with ordered children.
pub enum Tree {
    Leaf,
    Branch(usize, Vec<Tree>),
}

impl Tree {
    /// The children of this node; a leaf has none.
    pub open spec fn children(self) -> Seq<Tree> {
        match self {
            Tree::Leaf => Seq::empty(),
            Tree::Branch(_, ts) => ts@,
        }
    }

    /// The node reached from this one by taking the child indices of `p` in turn,
    /// or `None` where an index passes a leaf or the last child of a branch.
    pub open spec fn subtree(self, p: Seq<usize>) -> Option<Tree>
        decreases p.len(),
    {
        if p.len() == 0 {
            Some(self)
        } else {
            match self {
                Tree::Leaf => None,
                Tree::Branch(_, ts) => if p[0] < ts@.len() {
                    ts@[p[0] as int].subtree(p.drop_first())
                } else {
                    None
                },
            }
        }
    }

    /// This tree has the shape that `big(branching_factor, depth)` builds: a leaf at
    /// depth zero, else a branch labelled `depth` with `branching_factor` children of
    /// that shape one level shallower.
    pub open spec fn is_generated(self, branching_factor: nat, depth: nat) -> bool
        decreases depth,
    {
        if depth == 0 {
            self is Leaf
        } else {
            match self {
                Tree::Leaf => false,
                Tree::Branch(label, ts) => {
                    &&& label == depth
                    &&& ts@.len() == branching_factor
                    &&& forall|i: int|
                        0 <= i < ts@.len() ==> (#[trigger] ts@[i]).is_generated(
                            branching_factor,
                            (depth - 1) as nat,
                        )
                },
            }
        }
    }
}

impl Tree {
    /// The child at index `i` of this node, if there is one.
    pub open spec fn child(self, i: usize) -> Option<Tree> {
        if i < self.children().len() {
            Some(self.children()[i as int])
        } else {
            None
        }
    }

    /// A full tree of the given depth in which every branch has `branching_factor`
    /// children; its branches are labelled with their remaining depth.
    pub fn big(branching_factor: usize, depth: usize) -> (r: Tree)
        ensures
            r.is_generated(branching_factor as nat, depth as nat),
        decreases depth,
    {
        if depth == 0 {
            Tree::Leaf
        } else {
            let mut branches: Vec<Tree> = Vec::new();
            let mut i: usize = 0;
            while i < branching_factor
                invariant
                    i <= branching_factor,
                    depth > 0,
                    branches@.len() == i,
                    forall|j: int|
                        0 <= j < i ==> (#[trigger] branches@[j]).is_generated(
                            branching_factor as nat,
                            (depth - 1) as nat,
                        ),
                decreases branching_factor - i,
            {
                let t = Tree::big(branching_factor, depth - 1);
                branches.push(t);
                i = i + 1;
            }
            Tree::Branch(depth, branches)
        }
    }

    /// The node that `path` (root first) leads to, or `None` where it passes a leaf
    /// or the last child of a branch.
    pub fn get_subtree(&self, path: &Path) -> (r: Option<&Tree>)
        ensures
            r matches Some(t) ==> self.subtree(path@) == Some(*t),
            r is None ==> self.subtree(path@) is None,
        decreases path@.len(),
    {
        match path {
            List::Nil => Some(self),
            List::Cons(h, rest) => {
                assert(path@ == seq![*h] + (**rest)@);
                assert((**rest)@ =~= path@.drop_first());
                match self {
                    Tree::Leaf => None,
                    Tree::Branch(_, ts) => {
                        if *h < ts.len() {
                            ts[*h].get_subtree(&**rest)
                        } else {
                            None
                        }
                    },
                }
            },
        }
    }
}

impl Default for Tree {
    fn default() -> (r: Tree)
        ensures
            r is Leaf,
    {
        Tree::Leaf
    }
}

/// Following `p` and then one more child index `i` reaches child `i` of the node
/// at `p`.
pub proof fn lemma_subtree_push(t: Tree, p: Seq<usize>, i: usize)
    ensures
        t.subtree(p.push(i)) == (match t.subtree(p) {
            Some(s) => s.child(i),
            None => None,
        }),
    decreases p.len(),
{
    if p.len() == 0 {
        assert(p.push(i).drop_first() =~= Seq::<usize>::empty());
        assert(p.push(i)[0] == i);
        if i < t.children().len() {
            assert(t.children()[i as int].subtree(Seq::empty()) == Some(t.children()[i as int]));
        }
    } else {
        assert(p.push(i).drop_first() =~= p.drop_first().push(i));
        assert(p.push(i)[0] == p[0]);
        match t {
            Tree::Leaf => {},
            Tree::Branch(_, ts) => {
                if p[0] < ts@.len() {
                    lemma_subtree_push(ts@[p[0] as int], p.drop_first(), i);
                }
            },
        }
    }
}

/// Following `a` and then `b` reaches the node that `b` leads to from the node at `a`.
pub proof fn lemma_subtree_append(t: Tree, a: Seq<usize>, b: Seq<usize>)
    ensures
        t.subtree(a + b) == (match t.subtree(a) {
            Some(s) => s.subtree(b),
            None => None,
        }),
    decreases a.len(),
{
    if a.len() == 0 {
        assert(a + b =~= b);
    } else {
        assert((a + b).drop_first() =~= a.drop_first() + b);
        assert((a + b)[0] == a[0]);
        match t {
            Tree::Leaf => {},
            Tree::Branch(_, ts) => {
                if a[0] < ts@.len() {
                    lemma_subtree_append(ts@[a[0] as int], a.drop_first(), b);
                }
            },
        }
    }
}

} // verus!
