use crate::list::{List, Path};
use crate::tree::{lemma_subtree_push, Tree};
use vstd::prelude::*;

verus! {

/// A directional command for the cursor.
#[derive(Clone, Copy, PartialEq, Eq, Structural)]
pub enum Move {
    Left,
    Right,
    Up,
    Down,
}

/// `p` names a node of `t`.
pub open spec fn valid(t: Tree, p: Seq<usize>) -> bool {
    t.subtree(p) is Some
}

/// The number of children of the node at `p`, or zero where there is no such node.
pub open spec fn child_count(t: Tree, p: Seq<usize>) -> nat {
    match t.subtree(p) {
        Some(s) => s.children().len(),
        None => 0,
    }
}

/// Down to the first child, where the node at `p` has one; else `p` unchanged.
pub open spec fn move_down_spec(t: Tree, p: Seq<usize>) -> Seq<usize> {
    if child_count(t, p) > 0 {
        p.push(0)
    } else {
        p
    }
}

/// Up to the parent; the root stays where it is.
pub open spec fn move_up_spec(p: Seq<usize>) -> Seq<usize> {
    if p.len() == 0 {
        p
    } else {
        p.drop_last()
    }
}

/// To the next sibling, where there is one; else `p` unchanged.
pub open spec fn move_right_spec(t: Tree, p: Seq<usize>) -> Seq<usize> {
    if p.len() > 0 && p.last() + 1 < child_count(t, p.drop_last()) {
        p.drop_last().push((p.last() + 1) as usize)
    } else {
        p
    }
}

/// To the previous sibling, where there is one; else `p` unchanged.
pub open spec fn move_left_spec(t: Tree, p: Seq<usize>) -> Seq<usize> {
    if p.len() > 0 && p.last() > 0 && p.last() - 1 < child_count(t, p.drop_last()) {
        p.drop_last().push((p.last() - 1) as usize)
    } else {
        p
    }
}

/// Where the command `m` takes the cursor `p` on `t`.
pub open spec fn move_spec(t: Tree, p: Seq<usize>, m: Move) -> Seq<usize> {
    match m {
        Move::Left => move_left_spec(t, p),
        Move::Right => move_right_spec(t, p),
        Move::Up => move_up_spec(p),
        Move::Down => move_down_spec(t, p),
    }
}

/// Where the commands of `ms`, in order, take the cursor `p` on `t`.
pub open spec fn moves_spec(t: Tree, p: Seq<usize>, ms: Seq<Move>) -> Seq<usize>
    decreases ms.len(),
{
    if ms.len() == 0 {
        p
    } else {
        moves_spec(t, move_spec(t, p, ms[0]), ms.drop_first())
    }
}

/// The number of children of the node that `cursor` names; zero where it names none.
fn count_children(tree: &Tree, cursor: &Path) -> (r: usize)
    ensures
        r == child_count(*tree, cursor@),
{
    match tree.get_subtree(cursor) {
        Some(Tree::Branch(_, ts)) => ts.len(),
        _ => 0,
    }
}

/// The cursor after moving down from `cursor` on `tree`.
pub fn move_down(tree: &Tree, cursor: &Path) -> (r: Path)
    ensures
        r@ == move_down_spec(*tree, cursor@),
{
    let mut v = cursor.to_vec();
    if count_children(tree, cursor) > 0 {
        v.push(0);
    }
    List::from_vec(&v)
}

/// The cursor after moving up from `cursor`.
pub fn move_up(cursor: &Path) -> (r: Path)
    ensures
        r@ == move_up_spec(cursor@),
{
    let mut v = cursor.to_vec();
    if v.len() > 0 {
        v.pop();
        assert(v@ =~= cursor@.drop_last());
    }
    List::from_vec(&v)
}

/// The cursor after moving right from `cursor` on `tree`.
pub fn move_right(tree: &Tree, cursor: &Path) -> (r: Path)
    ensures
        r@ == move_right_spec(*tree, cursor@),
{
    let mut v = cursor.to_vec();
    if v.len() == 0 {
        return List::from_vec(&v);
    }
    let idx = v.pop().unwrap();
    assert(v@ =~= cursor@.drop_last());
    let parent = List::from_vec(&v);
    let n = count_children(tree, &parent);
    if n > 0 && idx < n - 1 {
        v.push(idx + 1);
        List::from_vec(&v)
    } else {
        v.push(idx);
        assert(v@ =~= cursor@);
        List::from_vec(&v)
    }
}

/// The cursor after moving left from `cursor` on `tree`.
pub fn move_left(tree: &Tree, cursor: &Path) -> (r: Path)
    ensures
        r@ == move_left_spec(*tree, cursor@),
{
    let mut v = cursor.to_vec();
    if v.len() == 0 {
        return List::from_vec(&v);
    }
    let idx = v.pop().unwrap();
    assert(v@ =~= cursor@.drop_last());
    let parent = List::from_vec(&v);
    let n = count_children(tree, &parent);
    if idx > 0 && idx - 1 < n {
        v.push(idx - 1);
        List::from_vec(&v)
    } else {
        v.push(idx);
        assert(v@ =~= cursor@);
        List::from_vec(&v)
    }
}

/// The cursor after the command `m` from `cursor` on `tree`.
pub fn navigate(tree: &Tree, cursor: &Path, m: Move) -> (r: Path)
    ensures
        r@ == move_spec(*tree, cursor@, m),
{
    match m {
        Move::Left => move_left(tree, cursor),
        Move::Right => move_right(tree, cursor),
        Move::Up => move_up(cursor),
        Move::Down => move_down(tree, cursor),
    }
}

/// Every single move keeps the cursor on a node of the tree.
pub proof fn lemma_move_keeps_valid(t: Tree, p: Seq<usize>, m: Move)
    requires
        valid(t, p),
    ensures
        valid(t, move_spec(t, p, m)),
{
    match m {
        Move::Down => {
            lemma_subtree_push(t, p, 0);
        },
        Move::Up => {
            if p.len() > 0 {
                assert(p.drop_last().push(p.last()) =~= p);
                lemma_subtree_push(t, p.drop_last(), p.last());
            }
        },
        Move::Right => {
            if p.len() > 0 && p.last() + 1 < child_count(t, p.drop_last()) {
                lemma_subtree_push(t, p.drop_last(), (p.last() + 1) as usize);
            }
        },
        Move::Left => {
            if p.len() > 0 && p.last() > 0 && p.last() - 1 < child_count(t, p.drop_last()) {
                lemma_subtree_push(t, p.drop_last(), (p.last() - 1) as usize);
            }
        },
    }
}

/// A cursor that starts on a node of the tree stays on one through any sequence
/// of moves.
pub proof fn lemma_moves_keep_valid(t: Tree, p: Seq<usize>, ms: Seq<Move>)
    requires
        valid(t, p),
    ensures
        valid(t, moves_spec(t, p, ms)),
    decreases ms.len(),
{
    if ms.len() > 0 {
        lemma_move_keeps_valid(t, p, ms[0]);
        lemma_moves_keep_valid(t, move_spec(t, p, ms[0]), ms.drop_first());
    }
}

/// Every cursor reached from the root by a sequence of moves names a node.
pub proof fn lemma_reachable_is_valid(t: Tree, ms: Seq<Move>)
    ensures
        valid(t, moves_spec(t, Seq::empty(), ms)),
{
    assert(t.subtree(Seq::empty()) == Some(t));
    lemma_moves_keep_valid(t, Seq::empty(), ms);
}

/// Moving down and then up returns to a node that has a child.
pub proof fn lemma_down_then_up(t: Tree, p: Seq<usize>)
    requires
        child_count(t, p) >= 1,
    ensures
        move_up_spec(move_down_spec(t, p)) == p,
{
    assert(p.push(0).drop_last() =~= p);
}

/// Moving right and then left returns to a node that has a next sibling.
pub proof fn lemma_right_then_left(t: Tree, p: Seq<usize>)
    requires
        p.len() > 0,
        p.last() + 1 < child_count(t, p.drop_last()),
    ensures
        move_left_spec(t, move_right_spec(t, p)) == p,
{
    match t.subtree(p.drop_last()) {
        Some(Tree::Branch(_, ts)) => assert(ts@.len() == ts.len()),
        _ => {},
    }
    let q = p.drop_last().push((p.last() + 1) as usize);
    assert(q.last() == p.last() + 1);
    assert(q.drop_last() =~= p.drop_last());
    assert(q.drop_last().push((q.last() - 1) as usize) =~= p);
}

/// The moves that have nowhere to go leave the cursor where it is: up from the
/// root, down from a node without children, left from a first child, right from a
/// last child, and left or right from the root.
pub proof fn lemma_moves_at_boundaries(t: Tree, p: Seq<usize>)
    ensures
        move_up_spec(Seq::empty()) == Seq::<usize>::empty(),
        child_count(t, p) == 0 ==> move_down_spec(t, p) == p,
        p.len() > 0 && p.last() == 0 ==> move_left_spec(t, p) == p,
        p.len() > 0 && p.last() + 1 >= child_count(t, p.drop_last()) ==> move_right_spec(t, p)
            == p,
        move_left_spec(t, Seq::empty()) == Seq::<usize>::empty(),
        move_right_spec(t, Seq::empty()) == Seq::<usize>::empty(),
{
}

} // verus!
