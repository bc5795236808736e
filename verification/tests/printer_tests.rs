use ast_dump::printer::print_tree;
use ast_dump::printer::print_tree_with_cursor;
use ast_dump::tree::{Cursor, NodeInfo, Point, Tree};

fn node(
    kind: &str,
    is_named: bool,
    field_name: Option<&str>,
    start: (usize, usize),
    end: (usize, usize),
    children: Vec<Tree>,
) -> Tree {
    Tree {
        info: NodeInfo {
            kind: kind.to_owned(),
            is_named,
            field_name: field_name.map(|f| f.to_owned()),
            start: Point { row: start.0, column: start.1 },
            end: Point { row: end.0, column: end.1 },
        },
        children,
    }
}

#[test]
fn single_named_leaf() {
    let tree = node("K", true, None, (0, 0), (0, 3), vec![]);
    let out = print_tree(&tree);
    assert_eq!(out, "(K [0, 0] - [0, 3])\n");
}

#[test]
fn root_with_two_named_children() {
    let tree = node(
        "root",
        true,
        None,
        (0, 0),
        (1, 0),
        vec![
            node("child1", true, None, (0, 0), (0, 5), vec![]),
            node("child2", true, None, (0, 6), (1, 0), vec![]),
        ],
    );
    let out = print_tree(&tree);
    assert_eq!(
        out,
        "(root [0, 0] - [1, 0]\n  (child1 [0, 0] - [0, 5])\n  (child2 [0, 6] - [1, 0]))\n"
    );
}

#[test]
fn unnamed_root_is_skipped_but_children_keep_their_depth() {
    let tree = node(
        ",",
        false,
        None,
        (0, 0),
        (0, 4),
        vec![
            node("a", true, None, (0, 0), (0, 1), vec![]),
            node("b", true, None, (0, 2), (0, 3), vec![]),
        ],
    );
    let out = print_tree(&tree);
    assert_eq!(out, "  (a [0, 0] - [0, 1])\n  (b [0, 2] - [0, 3])\n");
}

#[test]
fn unnamed_interior_node_emits_no_line_but_adds_a_level() {
    let tree = node(
        "root",
        true,
        None,
        (0, 0),
        (0, 9),
        vec![node(
            "(",
            false,
            None,
            (0, 1),
            (0, 8),
            vec![node("leaf", true, None, (0, 2), (0, 6), vec![])],
        )],
    );
    let out = print_tree(&tree);
    assert_eq!(out, "(root [0, 0] - [0, 9]\n    (leaf [0, 2] - [0, 6]))\n");
}

#[test]
fn fully_unnamed_tree_prints_only_the_final_newline() {
    let tree = node(
        ";",
        false,
        None,
        (0, 0),
        (0, 2),
        vec![node(",", false, None, (0, 0), (0, 1), vec![])],
    );
    let out = print_tree(&tree);
    assert_eq!(out, "\n");
}

#[test]
fn field_name_prefixes_the_node_line() {
    let tree = node(
        "call",
        true,
        None,
        (0, 0),
        (0, 10),
        vec![
            node("identifier", true, Some("function"), (0, 0), (0, 4), vec![]),
            node("arguments", true, Some("arguments"), (0, 4), (0, 10), vec![]),
        ],
    );
    let out = print_tree(&tree);
    assert_eq!(
        out,
        "(call [0, 0] - [0, 10]\n  function: (identifier [0, 0] - [0, 4])\n  \
         arguments: (arguments [0, 4] - [0, 10]))\n"
    );
}

#[test]
fn deep_chain_indents_two_spaces_per_level() {
    let tree = node(
        "a",
        true,
        None,
        (0, 0),
        (0, 9),
        vec![node(
            "b",
            true,
            None,
            (0, 1),
            (0, 8),
            vec![node("c", true, None, (0, 2), (0, 7), vec![])],
        )],
    );
    let out = print_tree(&tree);
    assert_eq!(
        out,
        "(a [0, 0] - [0, 9]\n  (b [0, 1] - [0, 8]\n    (c [0, 2] - [0, 7])))\n"
    );
}

#[test]
fn multi_digit_spans_render_in_decimal() {
    let tree = node("K", true, None, (12, 0), (120, 34), vec![]);
    let out = print_tree(&tree);
    assert_eq!(out, "(K [12, 0] - [120, 34])\n");
}

#[test]
fn walk_leaves_the_cursor_at_the_root() {
    let tree = node(
        "root",
        true,
        None,
        (0, 0),
        (1, 0),
        vec![node(
            "child",
            true,
            None,
            (0, 0),
            (0, 5),
            vec![node("leaf", true, None, (0, 1), (0, 2), vec![])],
        )],
    );
    let mut cursor = Cursor::new();
    let out = print_tree_with_cursor(&tree, &mut cursor);
    assert_eq!(cursor.depth(), 0);
    assert_eq!(
        out,
        "(root [0, 0] - [1, 0]\n  (child [0, 0] - [0, 5]\n    (leaf [0, 1] - [0, 2])))\n"
    );
}

#[test]
fn cursor_navigation_mirrors_the_tree_shape() {
    let tree = node(
        "root",
        true,
        None,
        (0, 0),
        (1, 0),
        vec![
            node("a", true, None, (0, 0), (0, 1), vec![]),
            node("b", true, None, (0, 2), (0, 3), vec![]),
        ],
    );
    let mut cursor = Cursor::new();
    assert!(cursor.goto_first_child(&tree));
    assert_eq!(cursor.node(&tree).info.kind, "a");
    assert!(cursor.goto_next_sibling(&tree));
    assert_eq!(cursor.node(&tree).info.kind, "b");
    assert!(!cursor.goto_next_sibling(&tree));
    assert!(!cursor.goto_first_child(&tree));
    assert!(cursor.goto_parent(&tree));
    assert_eq!(cursor.depth(), 0);
    assert!(!cursor.goto_parent(&tree));
}
