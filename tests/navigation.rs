use std::rc::Rc;
use tree_nav::content::Content;
use tree_nav::list::{List, Path};
use tree_nav::nav::{move_down, move_left, move_right, move_up, navigate, Move};
use tree_nav::tree::Tree;

fn path(v: &[usize]) -> Path {
    List::from_vec(&v.to_vec())
}

fn steps(p: &Path) -> Vec<usize> {
    p.to_vec()
}

fn label_and_arity(t: &Tree) -> Option<(usize, usize)> {
    match t {
        Tree::Leaf => None,
        Tree::Branch(label, ts) => Some((*label, ts.len())),
    }
}

#[test]
fn big_depth_zero_is_leaf() {
    assert!(matches!(Tree::big(3, 0), Tree::Leaf));
}

#[test]
fn big_no_children_is_empty_branch() {
    assert_eq!(label_and_arity(&Tree::big(0, 4)), Some((4, 0)));
}

#[test]
fn big_two_by_two_shape() {
    let t = Tree::big(2, 2);
    assert_eq!(label_and_arity(&t), Some((2, 2)));
    if let Tree::Branch(_, ts) = &t {
        for c in ts {
            assert_eq!(label_and_arity(c), Some((1, 2)));
            if let Tree::Branch(_, leaves) = c {
                assert!(leaves.iter().all(|l| matches!(l, Tree::Leaf)));
            }
        }
    }
}

#[test]
fn subtree_of_empty_path_is_root() {
    let t = Tree::big(2, 3);
    let s = t.get_subtree(&List::new()).unwrap();
    assert_eq!(label_and_arity(s), Some((3, 2)));
}

#[test]
fn subtree_out_of_range_is_not_found() {
    let t = Tree::big(2, 2);
    assert!(t.get_subtree(&path(&[2])).is_none());
}

#[test]
fn subtree_past_leaf_is_not_found() {
    let t = Tree::big(2, 2);
    assert!(t.get_subtree(&path(&[0, 1])).is_some());
    assert!(t.get_subtree(&path(&[0, 1, 0])).is_none());
}

#[test]
fn list_basics() {
    let l: Path = List::new();
    assert!(l.is_empty());
    let l = List::Cons(4, Rc::new(List::Cons(7, Rc::new(List::Nil))));
    assert!(!l.is_empty());
    let mut it = l.iter();
    assert_eq!(it.next(), Some(&4));
    assert_eq!(it.next(), Some(&7));
    assert_eq!(it.next(), None);
    assert_eq!(steps(&path(&[3, 1, 2])), vec![3, 1, 2]);
}

#[test]
fn reverse_reverses_and_twice_is_identity() {
    let p = path(&[0, 5, 2, 9]);
    let r = p.reverse();
    assert_eq!(steps(&r), vec![9, 2, 5, 0]);
    assert_eq!(steps(&r.reverse()), vec![0, 5, 2, 9]);
    assert!(List::<usize>::new().reverse().is_empty());
}

#[test]
fn scenario_two_by_two_walk() {
    let t = Tree::big(2, 2);
    let c = List::new();
    let c = move_down(&t, &c);
    assert_eq!(steps(&c), vec![0]);
    let c = move_right(&t, &c);
    assert_eq!(steps(&c), vec![1]);
    let c = move_down(&t, &c);
    assert_eq!(steps(&c), vec![1, 0]);
    let c = move_up(&c);
    assert_eq!(steps(&c), vec![1]);
    let s = t.get_subtree(&c).unwrap();
    assert_eq!(label_and_arity(s), Some((1, 2)));
    if let Tree::Branch(_, leaves) = s {
        assert!(leaves.iter().all(|l| matches!(l, Tree::Leaf)));
    }
}

#[test]
fn up_from_root_stays() {
    assert!(move_up(&List::new()).is_empty());
}

#[test]
fn down_from_leaf_or_childless_stays() {
    let t = Tree::big(2, 2);
    assert_eq!(steps(&move_down(&t, &path(&[1, 1]))), vec![1, 1]);
    let e = Tree::big(0, 3);
    assert!(move_down(&e, &List::new()).is_empty());
}

#[test]
fn left_and_right_clamp_at_ends() {
    let t = Tree::big(3, 2);
    assert_eq!(steps(&move_left(&t, &path(&[2, 0]))), vec![2, 0]);
    assert_eq!(steps(&move_right(&t, &path(&[2, 2]))), vec![2, 2]);
    assert_eq!(steps(&move_right(&t, &path(&[2, 1]))), vec![2, 2]);
    assert_eq!(steps(&move_left(&t, &path(&[2, 1]))), vec![2, 0]);
    assert!(move_left(&t, &List::new()).is_empty());
    assert!(move_right(&t, &List::new()).is_empty());
}

#[test]
fn down_then_up_returns() {
    let t = Tree::big(3, 3);
    let p = path(&[2, 1]);
    assert_eq!(steps(&move_up(&move_down(&t, &p))), vec![2, 1]);
}

#[test]
fn right_then_left_returns() {
    let t = Tree::big(3, 3);
    let p = path(&[0, 1]);
    assert_eq!(steps(&move_left(&t, &move_right(&t, &p))), vec![0, 1]);
}

#[test]
fn every_reached_cursor_is_found() {
    let t = Tree::big(3, 3);
    let moves = [
        Move::Down, Move::Right, Move::Right, Move::Right, Move::Down, Move::Down, Move::Down,
        Move::Left, Move::Up, Move::Right, Move::Up, Move::Up, Move::Up, Move::Left,
    ];
    let mut c = List::new();
    for m in moves {
        c = navigate(&t, &c, m);
        assert!(t.get_subtree(&c).is_some());
    }
}

#[test]
fn content_starts_at_root_and_moves() {
    let mut c = Content::with_tree(Tree::big(2, 2));
    assert!(c.cursor().is_empty());
    assert_eq!(label_and_arity(c.get_cursor_tree()), Some((2, 2)));
    c.move_down();
    c.move_right();
    assert_eq!(steps(c.cursor()), vec![1]);
    c.move_left();
    assert_eq!(steps(c.cursor()), vec![0]);
    c.move_up();
    assert!(c.cursor().is_empty());
    assert_eq!(label_and_arity(c.root()), Some((2, 2)));
}

#[test]
fn stale_cursor_resets_to_root() {
    let c = Content::from_parts(Tree::big(2, 2), path(&[5, 0]));
    assert!(c.cursor().is_empty());
    let c = Content::from_parts(Tree::big(2, 2), path(&[1, 0]));
    assert_eq!(steps(c.cursor()), vec![1, 0]);
    assert!(matches!(c.get_cursor_tree(), Tree::Leaf));
}

#[test]
fn default_content_is_leaf_at_root() {
    let c = Content::default();
    assert!(matches!(c.root(), Tree::Leaf));
    assert!(c.cursor().is_empty());
    assert!(c.render().is_empty());
}

#[test]
fn render_lists_branches_in_preorder() {
    let c = Content::with_tree(Tree::big(2, 2));
    let items = c.render();
    let paths: Vec<Vec<usize>> = items.iter().map(|i| steps(&i.path)).collect();
    assert_eq!(paths, vec![vec![], vec![0], vec![1]]);
    let labels: Vec<usize> = items.iter().map(|i| i.label).collect();
    assert_eq!(labels, vec![2, 1, 1]);
    let marks: Vec<bool> = items.iter().map(|i| i.is_cursor).collect();
    assert_eq!(marks, vec![true, false, false]);
}

#[test]
fn click_sets_cursor_and_marks_only_that_node() {
    let mut c = Content::with_tree(Tree::big(2, 3));
    let items = c.render();
    let clicked = items
        .into_iter()
        .find(|i| steps(&i.path) == vec![0, 1])
        .unwrap();
    c.set_cursor(clicked.path);
    assert_eq!(steps(c.cursor()), vec![0, 1]);
    let marked: Vec<Vec<usize>> = c
        .render()
        .iter()
        .filter(|i| i.is_cursor)
        .map(|i| steps(&i.path))
        .collect();
    assert_eq!(marked, vec![vec![0, 1]]);
}

#[test]
fn defaults_are_empty_path_and_leaf() {
    let p: Path = List::default();
    assert!(p.is_empty());
    assert!(matches!(Tree::default(), Tree::Leaf));
}

#[test]
fn moves_on_content_keep_cursor_in_tree() {
    let mut c = Content::with_tree(Tree::big(2, 3));
    for _ in 0..5 {
        c.move_down();
        assert!(c.root().get_subtree(c.cursor()).is_some());
    }
    assert_eq!(steps(c.cursor()), vec![0, 0, 0]);
    c.move_right();
    c.move_right();
    assert_eq!(steps(c.cursor()), vec![0, 0, 1]);
    assert!(matches!(c.get_cursor_tree(), Tree::Leaf));
}
