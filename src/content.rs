use crate::list::{List, Path};
use crate::nav::{
    lemma_move_keeps_valid, move_down, move_down_spec, move_left, move_left_spec, move_right,
    move_right_spec, move_up, move_up_spec, valid, Move,
};
use crate::tree::{lemma_subtree_append, lemma_subtree_push, Tree};
use std::rc::Rc;
use vstd::prelude::*;

verus! {

/// One node to draw: its label, whether the cursor is on it, and its path from
/// the root, which a click hands back as the new cursor.
pub struct RenderItem {
    pub label: usize,
    pub is_cursor: bool,
    pub path: Path,
}

/// `a` is a prefix of `b`.
pub open spec fn is_prefix(a: Seq<usize>, b: Seq<usize>) -> bool {
    a.len() <= b.len() && b.take(a.len() as int) == a
}

/// The node at `q` in `root` is a branch.
pub open spec fn names_branch(root: Tree, q: Seq<usize>) -> bool {
    root.subtree(q) matches Some(Tree::Branch(_, _))
}

/// `it` names a branch of `root` by its path, carries that branch's label, and is
/// marked as the cursor node exactly when its path is `cursor`.
pub open spec fn item_ok(root: Tree, cursor: Seq<usize>, it: RenderItem) -> bool {
    &&& root.subtree(it.path@) matches Some(Tree::Branch(label, _))
    &&& label == it.label
    &&& it.is_cursor == (it.path@ == cursor)
}

/// `suffix` is what is left of `cursor` below the node at `prefix`, or `None`
/// where the cursor lies outside the subtree at `prefix`.
pub open spec fn suffix_ok(cursor: Seq<usize>, prefix: Seq<usize>, suffix: Option<&Path>) -> bool {
    match suffix {
        Some(s) => cursor == prefix + s@,
        None => !is_prefix(prefix, cursor),
    }
}

/// What is left of the cursor below child `i` of the node at `prefix`.
fn child_suffix<'a>(
    suffix: Option<&'a Path>,
    i: usize,
    Ghost(cursor): Ghost<Seq<usize>>,
    Ghost(prefix): Ghost<Seq<usize>>,
) -> (r: Option<&'a Path>)
    requires
        suffix_ok(cursor, prefix, suffix),
    ensures
        suffix_ok(cursor, prefix.push(i), r),
{
    match suffix {
        Some(List::Cons(h, rest)) => {
            proof {
                let s = *suffix.unwrap();
                assert(s@ == seq![*h] + (**rest)@);
                assert(cursor[prefix.len() as int] == *h);
            }
            if *h == i {
                assert(cursor =~= prefix.push(i) + (**rest)@);
                Some(&**rest)
            } else {
                assert(!is_prefix(prefix.push(i), cursor)) by {
                    if is_prefix(prefix.push(i), cursor) {
                        assert(cursor.take(prefix.len() + 1int)[prefix.len() as int] == i);
                    }
                }
                None
            }
        },
        Some(List::Nil) => {
            assert(cursor =~= prefix);
            None
        },
        None => {
            assert(!is_prefix(prefix.push(i), cursor)) by {
                if is_prefix(prefix.push(i), cursor) {
                    assert(cursor.take(prefix.len() as int) =~= cursor.take(prefix.len() + 1int).take(
                        prefix.len() as int,
                    ));
                    assert(prefix.push(i).take(prefix.len() as int) =~= prefix);
                }
            }
            None
        },
    }
}

/// Appends to `out`, in preorder, one item for each branch of `t`, the node at the
/// reverse of `path` in `root`; `suffix` is what is left of the cursor below it.
fn render_tree<'a>(
    t: &Tree,
    suffix: Option<&'a Path>,
    path: &Rc<Path>,
    out: &mut Vec<RenderItem>,
    Ghost(root): Ghost<Tree>,
    Ghost(cursor): Ghost<Seq<usize>>,
)
    requires
        root.subtree((**path)@.reverse()) == Some(*t),
        suffix_ok(cursor, (**path)@.reverse(), suffix),
    ensures
        final(out)@.len() >= old(out)@.len(),
        forall|k: int| 0 <= k < old(out)@.len() ==> #[trigger] final(out)@[k] == old(out)@[k],
        forall|k: int|
            old(out)@.len() <= k < final(out)@.len() ==> item_ok(root, cursor, #[trigger] final(out)@[k]),
        *t is Branch ==> final(out)@.len() > old(out)@.len() && final(out)@[old(out)@.len() as int].path@
            == (**path)@.reverse(),
        forall|k: int|
            old(out)@.len() <= k < final(out)@.len() ==> is_prefix(
                (**path)@.reverse(),
                (#[trigger] final(out)@[k]).path@,
            ),
        forall|k1: int, k2: int|
            old(out)@.len() <= k1 < final(out)@.len() && old(out)@.len() <= k2 < final(out)@.len()
                && k1 != k2 ==> (#[trigger] final(out)@[k1]).path@ != (#[trigger] final(out)@[k2]).path@,
        forall|q: Seq<usize>|
            is_prefix((**path)@.reverse(), q) && #[trigger] names_branch(root, q) ==> exists|k: int|
                old(out)@.len() <= k < final(out)@.len() && (#[trigger] final(out)@[k]).path@ == q,
    decreases t,
{
    let ghost prefix = (**path)@.reverse();
    match t {
        Tree::Leaf => {
            assert forall|q: Seq<usize>| is_prefix(prefix, q) implies !(#[trigger] names_branch(
                root,
                q,
            )) by {
                let rest = q.skip(prefix.len() as int);
                assert(q =~= prefix + rest);
                lemma_subtree_append(root, prefix, rest);
            }
        },
        Tree::Branch(label, ts) => {
            let is_cursor = match suffix {
                Some(s) => s.is_empty(),
                None => false,
            };
            assert(is_cursor == (prefix == cursor)) by {
                if suffix is None && prefix == cursor {
                    assert(cursor.take(cursor.len() as int) =~= cursor);
                }
                if suffix is Some && prefix == cursor {
                    assert(cursor.len() == prefix.len() + suffix.unwrap()@.len());
                }
            }
            let item = RenderItem { label: *label, is_cursor, path: path.reverse() };
            out.push(item);
            let ghost start = old(out)@.len();
            assert(prefix.take(prefix.len() as int) =~= prefix);
            let mut i: usize = 0;
            while i < ts.len()
                invariant
                    *t == Tree::Branch(*label, *ts),
                    root.subtree(prefix) == Some(*t),
                    prefix == (**path)@.reverse(),
                    suffix_ok(cursor, prefix, suffix),
                    i <= ts@.len(),
                    out@.len() > start,
                    out@[start as int].path@ == prefix,
                    start == old(out)@.len(),
                    forall|k: int| 0 <= k < start ==> #[trigger] out@[k] == old(out)@[k],
                    forall|k: int| start <= k < out@.len() ==> item_ok(root, cursor, #[trigger] out@[k]),
                    forall|k: int| start <= k < out@.len() ==> is_prefix(prefix, (#[trigger] out@[k]).path@),
                    forall|k: int|
                        start < k < out@.len() ==> (#[trigger] out@[k]).path@.len() > prefix.len()
                            && out@[k].path@[prefix.len() as int] < i,
                    forall|k1: int, k2: int|
                        start <= k1 < out@.len() && start <= k2 < out@.len() && k1 != k2
                            ==> (#[trigger] out@[k1]).path@ != (#[trigger] out@[k2]).path@,
                    forall|q: Seq<usize>|
                        is_prefix(prefix, q) && q.len() > prefix.len() && q[prefix.len() as int] < i
                            && #[trigger] names_branch(root, q) ==> exists|k: int|
                            start <= k < out@.len() && (#[trigger] out@[k]).path@ == q,
                decreases ts@.len() - i,
            {
                let ghost mid = out@.len();
                let ghost out_mid = out@;
                let next = child_suffix(suffix, i, Ghost(cursor), Ghost(prefix));
                let child_path = Rc::new(List::Cons(i, path.clone()));
                proof {
                    assert((*child_path)@ == seq![i] + (**path)@);
                    assert((*child_path)@.reverse() =~= prefix.push(i));
                    lemma_subtree_push(root, prefix, i);
                    vstd::std_specs::vec::axiom_vec_index_decreases(*ts, i as int);
                    assert(decreases_to!(*t => (*t)->1));
                }
                render_tree(&ts[i], next, &child_path, out, Ghost(root), Ghost(cursor));
                proof {
                    assert forall|k: int| mid <= k < out@.len() implies is_prefix(
                        prefix,
                        (#[trigger] out@[k]).path@,
                    ) && out@[k].path@.len() > prefix.len() && out@[k].path@[prefix.len() as int]
                        == i by {
                        lemma_prefix_push(prefix, i, out@[k].path@);
                    }
                    assert forall|q: Seq<usize>|
                        is_prefix(prefix, q) && q.len() > prefix.len() && q[prefix.len() as int] < i + 1
                            && #[trigger] names_branch(root, q) implies exists|k: int|
                            start <= k < out@.len() && (#[trigger] out@[k]).path@ == q by {
                        if q[prefix.len() as int] == i {
                            lemma_prefix_extend(prefix, i, q);
                            let k = choose|k: int| mid <= k < out@.len() && (#[trigger] out@[k]).path@ == q;
                            assert(out@[k].path@ == q);
                        } else {
                            let k = choose|k: int| start <= k < mid && (#[trigger] out_mid[k]).path@ == q;
                            assert(out@[k] == out_mid[k]);
                            assert(out@[k].path@ == q);
                        }
                    }
                }
                i = i + 1;
            }
            proof {
                assert forall|q: Seq<usize>|
                    is_prefix(prefix, q) && #[trigger] names_branch(root, q)
                    implies exists|k: int| start <= k < out@.len() && (#[trigger] out@[k]).path@ == q by {
                    if q.len() == prefix.len() {
                        assert(q =~= prefix);
                        assert(out@[start as int].path@ == q);
                    } else {
                        let rest = q.skip(prefix.len() as int);
                        assert(q =~= prefix + rest);
                        lemma_subtree_append(root, prefix, rest);
                        assert(rest[0] == q[prefix.len() as int]);
                        assert(q[prefix.len() as int] < ts@.len());
                    }
                }
            }
        },
    }
}

/// A path that extends `prefix.push(i)` extends `prefix` with `i` next.
proof fn lemma_prefix_push(prefix: Seq<usize>, i: usize, p: Seq<usize>)
    requires
        is_prefix(prefix.push(i), p),
    ensures
        is_prefix(prefix, p),
        p.len() > prefix.len(),
        p[prefix.len() as int] == i,
{
    assert(p.take(prefix.len() + 1int)[prefix.len() as int] == i);
    assert(p.take(prefix.len() as int) =~= p.take(prefix.len() + 1int).take(prefix.len() as int));
    assert(prefix.push(i).take(prefix.len() as int) =~= prefix);
}

/// A path that extends `prefix` with `i` next extends `prefix.push(i)`.
proof fn lemma_prefix_extend(prefix: Seq<usize>, i: usize, p: Seq<usize>)
    requires
        is_prefix(prefix, p),
        p.len() > prefix.len(),
        p[prefix.len() as int] == i,
    ensures
        is_prefix(prefix.push(i), p),
{
    assert(p.take(prefix.len() + 1int) =~= prefix.push(i));
}

/// eframe's context for building an app; carried through, never read.
#[verifier::external_type_specification]
#[verifier::external_body]
pub struct ExCreationContext<'s>(eframe::CreationContext<'s>);

/// The browsing state: a tree and the cursor that selects one of its nodes.
pub struct Content {
    root: Tree,
    cursor: Rc<Path>,
}

impl Content {
    /// The tree being browsed.
    pub closed spec fn tree(&self) -> Tree {
        self.root
    }

    /// The cursor, root first.
    pub closed spec fn cursor_at(&self) -> Seq<usize> {
        (*self.cursor)@
    }

    /// The cursor names a node of the tree.
    pub open spec fn wf(&self) -> bool {
        valid(self.tree(), self.cursor_at())
    }

    /// Browsing `root` with the cursor on the root.
    pub fn with_tree(root: Tree) -> (r: Content)
        ensures
            r.tree() == root,
            r.cursor_at() == Seq::<usize>::empty(),
            r.wf(),
    {
        let r = Content { root, cursor: Rc::new(List::Nil) };
        assert(r.tree().subtree(Seq::empty()) == Some(r.tree()));
        r
    }

    /// The app's starting state: a full binary tree of depth eight, with the
    /// cursor on its root.
    pub fn new(_cc: &eframe::CreationContext<'_>) -> (r: Content)
        ensures
            r.tree().is_generated(2, 8),
            r.cursor_at() == Seq::<usize>::empty(),
            r.wf(),
    {
        Content::with_tree(Tree::big(2, 8))
    }

    /// Browsing `root` with the cursor at `cursor` where it names a node of
    /// `root`, else at the root.
    pub fn from_parts(root: Tree, cursor: Path) -> (r: Content)
        ensures
            r.tree() == root,
            r.cursor_at() == (if valid(root, cursor@) {
                cursor@
            } else {
                Seq::<usize>::empty()
            }),
            r.wf(),
    {
        let found = root.get_subtree(&cursor).is_some();
        if found {
            Content { root, cursor: Rc::new(cursor) }
        } else {
            Content::with_tree(root)
        }
    }

    /// The tree being browsed.
    pub fn root(&self) -> (r: &Tree)
        ensures
            *r == self.tree(),
    {
        &self.root
    }

    /// The cursor, root first.
    pub fn cursor(&self) -> (r: &Path)
        ensures
            r@ == self.cursor_at(),
    {
        &*self.cursor
    }

    /// The node under the cursor; the root where the cursor names no node.
    pub fn get_cursor_tree(&self) -> (r: &Tree)
        ensures
            self.wf() ==> self.tree().subtree(self.cursor_at()) == Some(*r),
            !self.wf() ==> *r == self.tree(),
    {
        match self.root.get_subtree(&*self.cursor) {
            Some(t) => t,
            None => &self.root,
        }
    }

    /// Puts the cursor at `path`, as a click on a drawn node does.
    pub fn set_cursor(&mut self, path: Path)
        ensures
            final(self).tree() == old(self).tree(),
            final(self).cursor_at() == path@,
    {
        self.cursor = Rc::new(path);
    }

    /// Moves the cursor to the next sibling, where there is one.
    pub fn move_right(&mut self)
        ensures
            final(self).tree() == old(self).tree(),
            final(self).cursor_at() == move_right_spec(old(self).tree(), old(self).cursor_at()),
            old(self).wf() ==> final(self).wf(),
    {
        proof {
            if self.wf() {
                lemma_move_keeps_valid(self.root, (*self.cursor)@, Move::Right);
            }
        }
        let p = move_right(&self.root, &*self.cursor);
        self.cursor = Rc::new(p);
    }

    /// Moves the cursor to the previous sibling, where there is one.
    pub fn move_left(&mut self)
        ensures
            final(self).tree() == old(self).tree(),
            final(self).cursor_at() == move_left_spec(old(self).tree(), old(self).cursor_at()),
            old(self).wf() ==> final(self).wf(),
    {
        proof {
            if self.wf() {
                lemma_move_keeps_valid(self.root, (*self.cursor)@, Move::Left);
            }
        }
        let p = move_left(&self.root, &*self.cursor);
        self.cursor = Rc::new(p);
    }

    /// Moves the cursor to the first child, where there is one.
    pub fn move_down(&mut self)
        ensures
            final(self).tree() == old(self).tree(),
            final(self).cursor_at() == move_down_spec(old(self).tree(), old(self).cursor_at()),
            old(self).wf() ==> final(self).wf(),
    {
        proof {
            if self.wf() {
                lemma_move_keeps_valid(self.root, (*self.cursor)@, Move::Down);
            }
        }
        let p = move_down(&self.root, &*self.cursor);
        self.cursor = Rc::new(p);
    }

    /// Moves the cursor to the parent, unless it is on the root.
    pub fn move_up(&mut self)
        ensures
            final(self).tree() == old(self).tree(),
            final(self).cursor_at() == move_up_spec(old(self).cursor_at()),
            old(self).wf() ==> final(self).wf(),
    {
        proof {
            if self.wf() {
                lemma_move_keeps_valid(self.root, (*self.cursor)@, Move::Up);
            }
        }
        let p = move_up(&*self.cursor);
        self.cursor = Rc::new(p);
    }
}

impl Content {
    /// The nodes to draw in preorder: one item for each branch of the tree, with
    /// its label, its path from the root, and whether the cursor is on it; the root
    /// comes first where it is a branch.
    pub fn render(&self) -> (r: Vec<RenderItem>)
        ensures
            forall|k: int| 0 <= k < r@.len() ==> item_ok(self.tree(), self.cursor_at(), #[trigger] r@[k]),
            forall|q: Seq<usize>|
                #[trigger] names_branch(self.tree(), q) ==> exists|k: int|
                    0 <= k < r@.len() && (#[trigger] r@[k]).path@ == q,
            forall|k1: int, k2: int|
                0 <= k1 < r@.len() && 0 <= k2 < r@.len() && k1 != k2 ==> (#[trigger] r@[k1]).path@
                    != (#[trigger] r@[k2]).path@,
            self.tree() is Branch ==> r@.len() > 0 && r@[0].path@ == Seq::<usize>::empty(),
    {
        let mut out: Vec<RenderItem> = Vec::new();
        let start: Rc<Path> = Rc::new(List::Nil);
        proof {
            assert((*start)@.reverse() =~= Seq::<usize>::empty());
            assert(self.root.subtree(Seq::empty()) == Some(self.root));
            assert(self.cursor_at() =~= Seq::<usize>::empty() + self.cursor_at());
        }
        render_tree(&self.root, Some(&*self.cursor), &start, &mut out, Ghost(self.root), Ghost(self.cursor_at()));
        proof {
            assert forall|q: Seq<usize>| #[trigger] names_branch(self.tree(), q) implies is_prefix(
                (*start)@.reverse(),
                q,
            ) by {
                assert(q.take(0) =~= Seq::<usize>::empty());
            }
            if self.tree() is Branch {
                assert(item_ok(self.tree(), self.cursor_at(), out@[0]));
            }
        }
        out
    }
}

impl Default for Content {
    fn default() -> (r: Content)
        ensures
            r.tree() is Leaf,
            r.cursor_at() == Seq::<usize>::empty(),
    {
        Content::with_tree(Tree::Leaf)
    }
}

} // verus!
