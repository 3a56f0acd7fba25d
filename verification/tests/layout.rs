use pane_grid::Axis;
use pane_grid::Node;
use pane_grid::Pane;
use pane_grid::Rect;
use pane_grid::Size;
use pane_grid::Split;
use pane_grid::RATIO_ONE;

fn rect(x: u32, y: u32, width: u32, height: u32) -> Rect {
    Rect { x, y, width, height }
}

fn two_panes() -> Node {
    Node::Split {
        id: Split(0),
        axis: Axis::Vertical,
        ratio: 50_000,
        a: Box::new(Node::Pane(Pane(1))),
        b: Box::new(Node::Pane(Pane(2))),
    }
}

#[test]
fn vertical_split_divides_side_by_side() {
    let (a, b) = Axis::Vertical.split(&rect(0, 0, 100, 100), 50_000, 4);
    assert_eq!(a, rect(0, 0, 48, 100));
    assert_eq!(b, rect(52, 0, 48, 100));
}

#[test]
fn horizontal_split_divides_top_and_bottom() {
    let (a, b) = Axis::Horizontal.split(&rect(10, 20, 30, 100), 25_000, 4);
    assert_eq!(a, rect(10, 20, 30, 24));
    assert_eq!(b, rect(10, 48, 30, 72));
}

#[test]
fn split_with_gutter_wider_than_span_leaves_nothing() {
    let (a, b) = Axis::Vertical.split(&rect(0, 0, 3, 50), 50_000, 10);
    assert_eq!(a, rect(0, 0, 0, 50));
    assert_eq!(b, rect(3, 0, 0, 50));
}

#[test]
fn split_clamps_ratio_beyond_the_whole() {
    let (a, b) = Axis::Vertical.split(&rect(0, 0, 100, 50), 2 * RATIO_ONE, 4);
    assert_eq!(a, rect(0, 0, 96, 50));
    assert_eq!(b, rect(100, 0, 0, 50));
}

#[test]
fn split_spans_always_tile_the_whole() {
    let r = rect(0, 0, 101, 57);
    let mut ratio: u32 = 0;
    while ratio <= RATIO_ONE {
        let (a, b) = Axis::Vertical.split(&r, ratio, 5);
        assert_eq!(a.width + 5 + b.width, 101);
        assert_eq!(a.height, 57);
        assert_eq!(b.height, 57);
        ratio += 7919;
    }
}

#[test]
fn pane_regions_of_two_panes_over_hundred_square() {
    let tree = two_panes();
    let regions = tree.pane_regions(4, Size { width: 100, height: 100 });
    assert_eq!(
        regions,
        vec![(Pane(1), rect(0, 0, 48, 100)), (Pane(2), rect(52, 0, 48, 100))]
    );
}

#[test]
fn pane_regions_of_nested_tree() {
    let tree = Node::Split {
        id: Split(0),
        axis: Axis::Vertical,
        ratio: 50_000,
        a: Box::new(Node::Pane(Pane(1))),
        b: Box::new(Node::Split {
            id: Split(7),
            axis: Axis::Horizontal,
            ratio: 50_000,
            a: Box::new(Node::Pane(Pane(2))),
            b: Box::new(Node::Pane(Pane(3))),
        }),
    };
    let regions = tree.pane_regions(4, Size { width: 100, height: 100 });
    assert_eq!(
        regions,
        vec![
            (Pane(1), rect(0, 0, 48, 100)),
            (Pane(2), rect(52, 0, 48, 48)),
            (Pane(3), rect(52, 52, 48, 48)),
        ]
    );
}

#[test]
fn split_regions_records_undivided_rectangles() {
    let tree = two_panes();
    let splits = tree.split_regions(4, Size { width: 100, height: 100 });
    assert_eq!(
        splits,
        vec![(Split(0), (Axis::Vertical, rect(0, 0, 100, 100), 50_000))]
    );
}

#[test]
fn splits_of_two_pane_tree_yields_exactly_its_one_id() {
    let tree = two_panes();
    assert_eq!(tree.splits(), vec![Split(0)]);
}

#[test]
fn splits_visits_b_subtree_before_a_subtree() {
    let tree = Node::Split {
        id: Split(0),
        axis: Axis::Vertical,
        ratio: 50_000,
        a: Box::new(Node::Split {
            id: Split(1),
            axis: Axis::Horizontal,
            ratio: 50_000,
            a: Box::new(Node::Pane(Pane(1))),
            b: Box::new(Node::Pane(Pane(2))),
        }),
        b: Box::new(Node::Split {
            id: Split(2),
            axis: Axis::Horizontal,
            ratio: 50_000,
            a: Box::new(Node::Pane(Pane(3))),
            b: Box::new(Node::Pane(Pane(4))),
        }),
    };
    assert_eq!(tree.splits(), vec![Split(0), Split(2), Split(1)]);
}

#[test]
fn find_returns_the_leaf_of_the_pane() {
    let tree = two_panes();
    match tree.find(Pane(2)) {
        Some(Node::Pane(p)) => assert_eq!(*p, Pane(2)),
        _ => panic!("pane 2 is in the tree and is a leaf"),
    }
    assert!(tree.find(Pane(9)).is_none());
}

#[test]
fn find_split_returns_the_internal_node() {
    let tree = two_panes();
    match tree.find_split(Split(0)) {
        Some(Node::Split { id, .. }) => assert_eq!(*id, Split(0)),
        _ => panic!("split 0 is in the tree"),
    }
    assert!(tree.find_split(Split(3)).is_none());
}

#[test]
fn split_replaces_a_leaf_by_an_even_division() {
    let mut tree = Node::Pane(Pane(1));
    tree.split(Split(0), Axis::Horizontal, Node::Pane(Pane(2)));
    match &tree {
        Node::Split { id, axis, ratio, a, b } => {
            assert_eq!(*id, Split(0));
            assert_eq!(*axis, Axis::Horizontal);
            assert_eq!(*ratio, 50_000);
            assert!(matches!(**a, Node::Pane(Pane(1))));
            assert!(matches!(**b, Node::Pane(Pane(2))));
        },
        _ => panic!("split must produce an internal node"),
    }
}

#[test]
fn find_mut_lets_the_caller_split_the_located_leaf() {
    let mut tree = two_panes();
    match tree.find_mut(Pane(2)) {
        Some(node) => node.split(Split(1), Axis::Horizontal, Node::Pane(Pane(3))),
        None => panic!("pane 2 is in the tree"),
    }
    let regions = tree.pane_regions(4, Size { width: 100, height: 100 });
    assert_eq!(
        regions,
        vec![
            (Pane(1), rect(0, 0, 48, 100)),
            (Pane(2), rect(52, 0, 48, 48)),
            (Pane(3), rect(52, 52, 48, 48)),
        ]
    );
    assert!(tree.find_mut(Pane(9)).is_none());
}

#[test]
fn find_split_mut_lets_the_caller_adjust_the_located_split() {
    let mut tree = two_panes();
    match tree.find_split_mut(Split(0)) {
        Some(Node::Split { ratio, .. }) => *ratio = 25_000,
        _ => panic!("split 0 is in the tree"),
    }
    let splits = tree.split_regions(4, Size { width: 100, height: 100 });
    assert_eq!(
        splits,
        vec![(Split(0), (Axis::Vertical, rect(0, 0, 100, 100), 25_000))]
    );
    assert!(tree.find_split_mut(Split(9)).is_none());
}

#[test]
fn split_pane_targets_a_leaf_inside_the_tree() {
    let mut tree = two_panes();
    assert!(tree.split_pane(Pane(2), Split(1), Axis::Horizontal, &Node::Pane(Pane(3))));
    let regions = tree.pane_regions(4, Size { width: 100, height: 100 });
    assert_eq!(
        regions,
        vec![
            (Pane(1), rect(0, 0, 48, 100)),
            (Pane(2), rect(52, 0, 48, 48)),
            (Pane(3), rect(52, 52, 48, 48)),
        ]
    );
    assert!(!tree.split_pane(Pane(9), Split(2), Axis::Vertical, &Node::Pane(Pane(4))));
}

#[test]
fn split_pane_then_remove_restores_a_nested_tree() {
    let mut tree = two_panes();
    assert!(tree.split_pane(Pane(2), Split(1), Axis::Horizontal, &Node::Pane(Pane(3))));
    let before = tree.hash();
    assert!(tree.split_pane(Pane(2), Split(2), Axis::Vertical, &Node::Pane(Pane(9))));
    assert_eq!(tree.remove(Pane(9)), Some(Pane(2)));
    assert_eq!(tree.hash(), before);
}

#[test]
fn resize_overwrites_the_ratio_and_reports_success() {
    let mut tree = two_panes();
    assert!(tree.resize(Split(0), 25_000));
    let splits = tree.split_regions(4, Size { width: 100, height: 100 });
    assert_eq!(
        splits,
        vec![(Split(0), (Axis::Vertical, rect(0, 0, 100, 100), 25_000))]
    );
    let regions = tree.pane_regions(4, Size { width: 100, height: 100 });
    assert_eq!(
        regions,
        vec![(Pane(1), rect(0, 0, 24, 100)), (Pane(2), rect(28, 0, 72, 100))]
    );
}

#[test]
fn resize_of_an_absent_split_reports_failure_and_changes_nothing() {
    let mut tree = two_panes();
    let before = tree.hash();
    assert!(!tree.resize(Split(5), 10_000));
    assert_eq!(tree.hash(), before);
}

#[test]
fn remove_collapses_the_parent_split() {
    let mut tree = two_panes();
    assert_eq!(tree.remove(Pane(2)), Some(Pane(1)));
    assert!(matches!(tree, Node::Pane(Pane(1))));
}

#[test]
fn remove_reports_the_leftmost_pane_of_the_kept_child() {
    let mut tree = Node::Split {
        id: Split(0),
        axis: Axis::Vertical,
        ratio: 50_000,
        a: Box::new(Node::Pane(Pane(1))),
        b: Box::new(Node::Split {
            id: Split(1),
            axis: Axis::Horizontal,
            ratio: 50_000,
            a: Box::new(Node::Pane(Pane(2))),
            b: Box::new(Node::Pane(Pane(3))),
        }),
    };
    assert_eq!(tree.remove(Pane(1)), Some(Pane(2)));
    match &tree {
        Node::Split { id, .. } => assert_eq!(*id, Split(1)),
        _ => panic!("the kept child takes the root's place"),
    }
}

#[test]
fn remove_of_the_sole_pane_removes_nothing() {
    let mut tree = Node::Pane(Pane(1));
    assert_eq!(tree.remove(Pane(1)), None);
    assert!(matches!(tree, Node::Pane(Pane(1))));
}

#[test]
fn remove_of_an_absent_pane_removes_nothing() {
    let mut tree = two_panes();
    assert_eq!(tree.remove(Pane(9)), None);
    assert_eq!(tree.hash(), two_panes().hash());
}

#[test]
fn split_then_remove_of_the_new_pane_restores_the_tree() {
    let mut tree = two_panes();
    let before = tree.hash();
    tree.split(Split(1), Axis::Horizontal, Node::Pane(Pane(3)));
    assert_ne!(tree.hash(), before);
    assert_eq!(tree.remove(Pane(3)), Some(Pane(1)));
    assert_eq!(tree.hash(), before);
    match &tree {
        Node::Split { id, a, b, .. } => {
            assert_eq!(*id, Split(0));
            assert!(matches!(**a, Node::Pane(Pane(1))));
            assert!(matches!(**b, Node::Pane(Pane(2))));
        },
        _ => panic!("the original tree was a split"),
    }
}

#[test]
fn hash_tells_different_ratios_apart_at_held_precision() {
    let mut one = two_panes();
    let mut other = two_panes();
    assert_eq!(one.hash(), other.hash());
    assert!(one.resize(Split(0), 49_999));
    assert_ne!(one.hash(), other.hash());
    assert!(other.resize(Split(0), 49_999));
    assert_eq!(one.hash(), other.hash());
}

fn halve_ratio(n: Node) -> Node {
    match n {
        Node::Split { id, axis, ratio, a, b } => Node::Split { id, axis, ratio: ratio / 2, a, b },
        leaf => leaf,
    }
}

#[test]
fn update_transforms_every_node_bottom_up() {
    let mut tree = Node::Split {
        id: Split(0),
        axis: Axis::Vertical,
        ratio: 80_000,
        a: Box::new(Node::Split {
            id: Split(1),
            axis: Axis::Horizontal,
            ratio: 40_000,
            a: Box::new(Node::Pane(Pane(1))),
            b: Box::new(Node::Pane(Pane(2))),
        }),
        b: Box::new(Node::Pane(Pane(3))),
    };
    tree.update(halve_ratio);
    let splits = tree.split_regions(0, Size { width: 100, height: 100 });
    assert_eq!(splits[0].0, Split(0));
    assert_eq!((splits[0].1).2, 40_000);
    assert_eq!(splits[1].0, Split(1));
    assert_eq!((splits[1].1).2, 20_000);
}

#[test]
fn first_pane_descends_into_the_first_child() {
    let tree = two_panes();
    assert_eq!(tree.first_pane(), Pane(1));
    assert_eq!(tree.pane(), None);
    assert_eq!(Node::Pane(Pane(7)).pane(), Some(Pane(7)));
}

#[test]
fn pane_regions_tile_the_viewport_with_gutters() {
    let tree = Node::Split {
        id: Split(0),
        axis: Axis::Vertical,
        ratio: 33_333,
        a: Box::new(Node::Pane(Pane(1))),
        b: Box::new(Node::Split {
            id: Split(1),
            axis: Axis::Horizontal,
            ratio: 66_667,
            a: Box::new(Node::Pane(Pane(2))),
            b: Box::new(Node::Pane(Pane(3))),
        }),
    };
    let size = Size { width: 313, height: 217 };
    let regions = tree.pane_regions(7, size);
    assert_eq!(regions.len(), 3);
    let panes: u64 = regions.iter().map(|e| e.1.width as u64 * e.1.height as u64).sum();
    let first_gutter = 7 * 217;
    let second_gutter = 7 * regions[1].1.width as u64;
    assert_eq!(panes + first_gutter + second_gutter, 313 * 217);
}

#[test]
fn renderer_projects_a_tree_onto_its_viewport() {
    let renderer =
        pane_grid::renderer::Renderer::new(Size { width: 100, height: 100 }, 4);
    let tree = two_panes();
    let regions = renderer.pane_rectangles(&tree);
    assert_eq!(
        regions,
        vec![(Pane(1), rect(0, 0, 48, 100)), (Pane(2), rect(52, 0, 48, 100))]
    );
    let splits = renderer.split_rectangles(&tree);
    assert_eq!(splits.len(), 1);
    assert_eq!(splits[0].0, Split(0));
}
