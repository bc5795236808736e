//! The tree printer: an iterative, cursor-driven depth-first walk that
//! renders a syntax tree as a parenthesized, indented, span-annotated
//! textual s-expression.
//!
//! The output is pinned to the recursive specification [`render_tree`]:
//! every named node opens a line of the form
//! `<indent><field>: (<kind> [<row>, <col>] - [<row>, <col>]`, its named
//! descendants follow on their own lines two spaces deeper per tree level,
//! and the node's closing paren is appended after its whole subtree, on the
//! line that is open at that moment.  Anonymous nodes emit nothing but are
//! still traversed, so their children keep the indentation of their real
//! ancestor chain.  The executable walk is a two-phase state machine over a
//! cursor, with no recursion: its stack depth does not grow with tree
//! depth.

use vstd::prelude::*;
use vstd::string::*;

use crate::numfmt::{dec_seq, push_usize};
use crate::tree::{
    lemma_path_pop, lemma_path_push, subtree_at, valid_path, Cursor, NodeInfo, Tree,
};

verus! {

/// Two spaces of indentation per nesting level.
pub open spec fn indent_spaces(depth: nat) -> Seq<char>
    decreases depth,
{
    if depth == 0 {
        Seq::empty()
    } else {
        indent_spaces((depth - 1) as nat) + "  "@
    }
}

/// The `<field>: ` prefix of a node whose parent edge carries a field name.
pub open spec fn field_prefix(info: NodeInfo) -> Seq<char> {
    match info.field_name {
        Some(f) => f@ + ": "@,
        None => Seq::empty(),
    }
}

/// The body of a named node's line, after the indentation: the field
/// prefix, then `(<kind> [<start>] - [<end>]` with the closing paren still
/// owed.
pub open spec fn node_line_body(info: NodeInfo) -> Seq<char> {
    field_prefix(info) + "("@ + info.kind@ + " ["@ + dec_seq(info.start.row as nat) + ", "@
        + dec_seq(info.start.column as nat) + "] - ["@ + dec_seq(info.end.row as nat) + ", "@
        + dec_seq(info.end.column as nat) + "]"@
}

/// The line a named node opens: a separating newline when output already
/// stands, the indentation for `depth`, then the line body.
pub open spec fn node_head(info: NodeInfo, depth: nat, printed: bool) -> Seq<char> {
    (if printed {
        "\n"@
    } else {
        Seq::<char>::empty()
    }) + indent_spaces(depth) + node_line_body(info)
}

/// What entering a node emits: its head line if it is named, else nothing.
pub open spec fn node_emit(t: Tree, depth: nat, printed: bool) -> Seq<char> {
    if t.info.is_named {
        node_head(t.info, depth, printed)
    } else {
        Seq::empty()
    }
}

/// What leaving a node emits: its closing paren if it is named.
pub open spec fn close_emit(t: Tree) -> Seq<char> {
    if t.info.is_named {
        ")"@
    } else {
        Seq::empty()
    }
}

/// Whether the subtree holds any named node; only those produce output.
pub open spec fn subtree_has_named(t: Tree) -> bool
    decreases t, t.children@.len() + 1,
{
    t.info.is_named || children_have_named_from(t, 0)
}

/// Whether any of the children of `t` from index `i` on holds a named node.
pub open spec fn children_have_named_from(t: Tree, i: int) -> bool
    decreases t, t.children@.len() - i,
{
    if 0 <= i < t.children@.len() {
        subtree_has_named(t.children@[i]) || children_have_named_from(t, i + 1)
    } else {
        false
    }
}

/// The full rendering of a subtree standing at `depth`; `printed` says
/// whether any output was emitted before it (a named node then opens its
/// line with a separating newline).
pub open spec fn render_subtree(t: Tree, depth: nat, printed: bool) -> Seq<char>
    decreases t, t.children@.len() + 1,
{
    if t.info.is_named {
        node_head(t.info, depth, printed) + render_children_from(t, 0, depth + 1, true) + ")"@
    } else {
        render_children_from(t, 0, depth + 1, printed)
    }
}

/// The rendering of the children of `t` from index `i` on, each one level
/// below `t`; descending always adds a level, named or not.
pub open spec fn render_children_from(t: Tree, i: int, depth: nat, printed: bool) -> Seq<char>
    decreases t, t.children@.len() - i,
{
    if 0 <= i < t.children@.len() {
        render_subtree(t.children@[i], depth, printed) + render_children_from(
            t,
            i + 1,
            depth,
            printed || subtree_has_named(t.children@[i]),
        )
    } else {
        Seq::empty()
    }
}

/// The complete output of the tree printer: the root's rendering and the
/// terminating newline.
pub open spec fn render_tree(t: Tree) -> Seq<char> {
    render_subtree(t, 0, false) + "\n"@
}

/// The number of nodes in a subtree.
pub open spec fn subtree_size(t: Tree) -> nat
    decreases t, t.children@.len() + 1,
{
    1 + children_size_from(t, 0)
}

/// The number of nodes in the subtrees of children `i..` of `t`.
pub open spec fn children_size_from(t: Tree, i: int) -> nat
    decreases t, t.children@.len() - i,
{
    if 0 <= i < t.children@.len() {
        subtree_size(t.children@[i]) + children_size_from(t, i + 1)
    } else {
        0
    }
}

/// The output still owed once the walk has fully left the subtree at `p`:
/// the younger siblings at every ancestor level and each named ancestor's
/// closing paren.
pub open spec fn rest_after(t: Tree, p: Seq<usize>, printed: bool) -> Seq<char>
    decreases p.len(),
{
    if p.len() == 0 {
        Seq::empty()
    } else {
        let q = p.drop_last();
        let parent = subtree_at(t, q);
        let i = p.last() as int;
        render_children_from(parent, i + 1, p.len() as nat, printed) + (if parent.info.is_named {
            ")"@
        } else {
            Seq::<char>::empty()
        }) + rest_after(
            t,
            q,
            printed || children_have_named_from(parent, i + 1) || parent.info.is_named,
        )
    }
}

/// The walk iterations still owed once the walk has fully left the subtree
/// at `p`: two per remaining node, one per ancestor's leaving phase.
pub open spec fn steps_rest(t: Tree, p: Seq<usize>) -> nat
    decreases p.len(),
{
    if p.len() == 0 {
        0
    } else {
        let q = p.drop_last();
        let parent = subtree_at(t, q);
        let i = p.last() as int;
        2 * children_size_from(parent, i + 1) + 1 + steps_rest(t, q)
    }
}

/// The output still owed at a walk state: the cursor stands at `p`,
/// `entering` when the node there is being seen for the first time, and
/// `printed` says whether any output stands.
pub open spec fn walk_remaining(t: Tree, p: Seq<usize>, entering: bool, printed: bool) -> Seq<
    char,
> {
    let n = subtree_at(t, p);
    if entering {
        render_subtree(n, p.len() as nat, printed) + rest_after(
            t,
            p,
            printed || subtree_has_named(n),
        )
    } else {
        close_emit(n) + rest_after(t, p, printed || n.info.is_named)
    }
}

/// The walk iterations still owed at a walk state.
pub open spec fn walk_steps(t: Tree, p: Seq<usize>, entering: bool) -> nat {
    if entering {
        2 * subtree_size(subtree_at(t, p)) + steps_rest(t, p)
    } else {
        1 + steps_rest(t, p)
    }
}

/// Entering a node that has a child: the walk emits the node's head (when
/// it is named) and descends to the first child, still entering.
proof fn lemma_step_enter_descend(t: Tree, p: Seq<usize>, printed: bool)
    requires
        valid_path(t, p),
        subtree_at(t, p).children@.len() > 0,
    ensures
        walk_remaining(t, p, true, printed) == node_emit(subtree_at(t, p), p.len() as nat, printed)
            + walk_remaining(t, p.push(0), true, printed || subtree_at(t, p).info.is_named),
        walk_steps(t, p.push(0), true) < walk_steps(t, p, true),
{
    let n = subtree_at(t, p);
    let c0 = n.children@[0];
    let d = p.len() as nat;
    lemma_path_push(t, p, 0);
    let p2 = p.push(0);
    assert(p2.drop_last() =~= p);
    assert(p2.last() == 0);
    assert(subtree_at(t, p2) == c0);
    assert(render_children_from(n, 0, d + 1, true) == render_subtree(c0, d + 1, true)
        + render_children_from(n, 1, d + 1, true || subtree_has_named(c0)));
    assert(render_children_from(n, 0, d + 1, printed) == render_subtree(c0, d + 1, printed)
        + render_children_from(n, 1, d + 1, printed || subtree_has_named(c0)));
    assert(children_have_named_from(n, 0) == (subtree_has_named(c0) || children_have_named_from(
        n,
        1,
    )));
    assert(children_size_from(n, 0) == subtree_size(c0) + children_size_from(n, 1));
    if n.info.is_named {
        assert(walk_remaining(t, p, true, printed) =~= node_emit(n, d, printed) + walk_remaining(
            t,
            p2,
            true,
            true,
        ));
    } else {
        assert(walk_remaining(t, p, true, printed) =~= node_emit(n, d, printed) + walk_remaining(
            t,
            p2,
            true,
            printed,
        ));
    }
}

/// Entering a leaf: the walk emits the node's head (when it is named) and
/// switches to the leaving phase without moving.
proof fn lemma_step_enter_leaf(t: Tree, p: Seq<usize>, printed: bool)
    requires
        valid_path(t, p),
        subtree_at(t, p).children@.len() == 0,
    ensures
        walk_remaining(t, p, true, printed) == node_emit(subtree_at(t, p), p.len() as nat, printed)
            + walk_remaining(t, p, false, printed || subtree_at(t, p).info.is_named),
        walk_steps(t, p, false) < walk_steps(t, p, true),
{
    let n = subtree_at(t, p);
    let d = p.len() as nat;
    assert(render_children_from(n, 0, d + 1, true) =~= Seq::<char>::empty());
    assert(render_children_from(n, 0, d + 1, printed) =~= Seq::<char>::empty());
    assert(!children_have_named_from(n, 0));
    assert(children_size_from(n, 0) == 0);
    if n.info.is_named {
        assert(walk_remaining(t, p, true, printed) =~= node_emit(n, d, printed) + walk_remaining(
            t,
            p,
            false,
            true,
        ));
    } else {
        assert(walk_remaining(t, p, true, printed) =~= node_emit(n, d, printed) + walk_remaining(
            t,
            p,
            false,
            printed,
        ));
    }
}

/// Leaving a node with a later sibling: the walk emits the closing paren
/// (when the node is named) and moves to the sibling, entering again.
proof fn lemma_step_close_sibling(t: Tree, p: Seq<usize>, printed: bool)
    requires
        valid_path(t, p),
        p.len() > 0,
        p.last() + 1 < subtree_at(t, p.drop_last()).children@.len(),
        p.last() + 1 <= usize::MAX,
    ensures
        walk_remaining(t, p, false, printed) == close_emit(subtree_at(t, p)) + walk_remaining(
            t,
            p.drop_last().push((p.last() + 1) as usize),
            true,
            printed || subtree_at(t, p).info.is_named,
        ),
        walk_steps(t, p.drop_last().push((p.last() + 1) as usize), true) < walk_steps(
            t,
            p,
            false,
        ),
{
    lemma_path_pop(t, p);
    let q = p.drop_last();
    let parent = subtree_at(t, q);
    let i = p.last() as int;
    let n = subtree_at(t, p);
    let pr1 = printed || n.info.is_named;
    lemma_path_push(t, q, (p.last() + 1) as usize);
    let p2 = q.push((p.last() + 1) as usize);
    let sib = parent.children@[i + 1];
    assert(subtree_at(t, p2) == sib);
    assert(p2.drop_last() =~= q);
    assert(p2.last() == i + 1);
    assert(p2.len() == p.len());
    let d = p.len() as nat;
    assert(render_children_from(parent, i + 1, d, pr1) == render_subtree(sib, d, pr1)
        + render_children_from(parent, i + 2, d, pr1 || subtree_has_named(sib)));
    assert(children_have_named_from(parent, i + 1) == (subtree_has_named(sib)
        || children_have_named_from(parent, i + 2)));
    assert(children_size_from(parent, i + 1) == subtree_size(sib) + children_size_from(
        parent,
        i + 2,
    ));
    assert(walk_remaining(t, p, false, printed) =~= close_emit(n) + walk_remaining(
        t,
        p2,
        true,
        pr1,
    ));
}

/// Leaving a last child: the walk emits the closing paren (when the node is
/// named) and ascends to the parent, staying in the leaving phase.
proof fn lemma_step_close_parent(t: Tree, p: Seq<usize>, printed: bool)
    requires
        valid_path(t, p),
        p.len() > 0,
        p.last() + 1 >= subtree_at(t, p.drop_last()).children@.len(),
    ensures
        walk_remaining(t, p, false, printed) == close_emit(subtree_at(t, p)) + walk_remaining(
            t,
            p.drop_last(),
            false,
            printed || subtree_at(t, p).info.is_named,
        ),
        walk_steps(t, p.drop_last(), false) < walk_steps(t, p, false),
{
    lemma_path_pop(t, p);
    let q = p.drop_last();
    let parent = subtree_at(t, q);
    let i = p.last() as int;
    let n = subtree_at(t, p);
    let pr1 = printed || n.info.is_named;
    let d = p.len() as nat;
    assert(render_children_from(parent, i + 1, d, pr1) =~= Seq::<char>::empty());
    assert(!children_have_named_from(parent, i + 1));
    assert(children_size_from(parent, i + 1) == 0);
    assert(walk_remaining(t, p, false, printed) =~= close_emit(n) + walk_remaining(
        t,
        q,
        false,
        pr1,
    ));
}

/// Leaving the root: the walk emits the root's closing paren (when it is
/// named) and owes nothing more.
proof fn lemma_step_close_root(t: Tree, printed: bool)
    ensures
        walk_remaining(t, Seq::<usize>::empty(), false, printed) == close_emit(t),
{
    assert(subtree_at(t, Seq::<usize>::empty()) == t);
    assert(walk_remaining(t, Seq::<usize>::empty(), false, printed) =~= close_emit(t));
}

/// Appends two spaces per level of `depth` to `out`.
fn push_indent(out: &mut String, depth: usize)
    ensures
        final(out)@ == old(out)@ + indent_spaces(depth as nat),
{
    let mut k: usize = 0;
    proof {
        assert(out@ =~= old(out)@ + indent_spaces(0));
    }
    while k < depth
        invariant
            k <= depth,
            out@ == old(out)@ + indent_spaces(k as nat),
        decreases depth - k,
    {
        out.append("  ");
        k = k + 1;
        proof {
            assert(out@ =~= old(out)@ + indent_spaces(k as nat));
        }
    }
}

/// Appends the head line of a named node to `out`.
#[verifier::rlimit(100)]
fn push_node_head(out: &mut String, info: &NodeInfo, depth: usize, printed: bool)
    ensures
        final(out)@ == old(out)@ + node_head(*info, depth as nat, printed),
{
    if printed {
        out.append("\n");
    }
    push_indent(out, depth);
    proof {
        assert(out@ =~= old(out)@ + ((if printed {
            "\n"@
        } else {
            Seq::<char>::empty()
        }) + indent_spaces(depth as nat)));
    }
    let ghost mid0 = out@;
    if let Some(f) = &info.field_name {
        out.append(f.as_str());
        out.append(": ");
    }
    proof {
        assert(out@ =~= mid0 + field_prefix(*info));
    }
    let ghost mid1 = out@;
    out.append("(");
    out.append(info.kind.as_str());
    out.append(" [");
    push_usize(out, info.start.row);
    out.append(", ");
    push_usize(out, info.start.column);
    proof {
        assert(out@ =~= mid1 + ("("@ + info.kind@ + " ["@ + dec_seq(info.start.row as nat) + ", "@
            + dec_seq(info.start.column as nat)));
    }
    let ghost mid2 = out@;
    out.append("] - [");
    push_usize(out, info.end.row);
    out.append(", ");
    push_usize(out, info.end.column);
    out.append("]");
    proof {
        assert(out@ =~= mid2 + ("] - ["@ + dec_seq(info.end.row as nat) + ", "@ + dec_seq(
            info.end.column as nat,
        ) + "]"@));
        assert(out@ =~= mid0 + node_line_body(*info));
        assert(out@ =~= old(out)@ + node_head(*info, depth as nat, printed));
    }
}

/// Renders `tree` as an indented s-expression terminated by a newline,
/// walking it iteratively with `cursor` (which must stand at the root) as
/// the traversal state.  The walk leaves the cursor reset to the root, so
/// the tree's traversal state is unchanged for later consumers.
#[verifier::rlimit(100)]
pub fn print_tree_with_cursor(tree: &Tree, cursor: &mut Cursor) -> (out: String)
    requires
        old(cursor).path().len() == 0,
    ensures
        out@ == render_tree(*tree),
        final(cursor).path().len() == 0,
{
    let mut out = String::new();
    let mut needs_newline = false;
    let mut indent_level: usize = 0;
    let mut did_visit_children = false;
    proof {
        assert(cursor.path() =~= Seq::<usize>::empty());
        assert(subtree_at(*tree, cursor.path()) == *tree);
        assert(rest_after(*tree, cursor.path(), subtree_has_named(*tree)) =~= Seq::<char>::empty());
        assert(out@ + walk_remaining(*tree, cursor.path(), true, false) =~= render_subtree(
            *tree,
            0,
            false,
        ));
    }
    loop
        invariant_except_break
            cursor.wf(*tree),
            indent_level == cursor.path().len(),
            needs_newline == (out@.len() > 0),
            out@ + walk_remaining(*tree, cursor.path(), !did_visit_children, out@.len() > 0)
                == render_subtree(*tree, 0, false),
        ensures
            out@ == render_subtree(*tree, 0, false),
            cursor.path().len() == 0,
        decreases walk_steps(*tree, cursor.path(), !did_visit_children),
    {
        let ghost p0 = cursor.path();
        let ghost out0 = out@;
        let ghost printed0 = out@.len() > 0;
        let n = cursor.node(tree);
        let is_named = n.info.is_named;
        if did_visit_children {
            if is_named {
                out.append(")");
                needs_newline = true;
            }
            proof {
                reveal_strlit(")");
                assert(out@ =~= out0 + close_emit(subtree_at(*tree, p0)));
                assert((out@.len() > 0) == (printed0 || is_named));
            }
            if cursor.goto_next_sibling(tree) {
                did_visit_children = false;
                proof {
                    lemma_step_close_sibling(*tree, p0, printed0);
                    assert(out0 + (close_emit(subtree_at(*tree, p0)) + walk_remaining(
                        *tree,
                        cursor.path(),
                        true,
                        printed0 || is_named,
                    )) =~= out@ + walk_remaining(*tree, cursor.path(), true, printed0 || is_named));
                }
            } else if cursor.goto_parent(tree) {
                did_visit_children = true;
                let d = cursor.depth();
                indent_level = d;
                proof {
                    lemma_step_close_parent(*tree, p0, printed0);
                    assert(out0 + (close_emit(subtree_at(*tree, p0)) + walk_remaining(
                        *tree,
                        cursor.path(),
                        false,
                        printed0 || is_named,
                    )) =~= out@ + walk_remaining(*tree, cursor.path(), false, printed0 || is_named));
                }
            } else {
                proof {
                    lemma_step_close_root(*tree, printed0);
                    assert(p0 =~= Seq::<usize>::empty());
                    assert(out@ == render_subtree(*tree, 0, false));
                }
                break;
            }
        } else {
            if is_named {
                push_node_head(&mut out, &n.info, indent_level, needs_newline);
                needs_newline = true;
                proof {
                    reveal_strlit("(");
                }
            }
            proof {
                assert(out@ =~= out0 + node_emit(subtree_at(*tree, p0), p0.len() as nat, printed0));
                assert((out@.len() > 0) == (printed0 || is_named));
            }
            if cursor.goto_first_child(tree) {
                did_visit_children = false;
                let d = cursor.depth();
                indent_level = d;
                proof {
                    lemma_step_enter_descend(*tree, p0, printed0);
                    assert(out0 + (node_emit(subtree_at(*tree, p0), p0.len() as nat, printed0)
                        + walk_remaining(*tree, cursor.path(), true, printed0 || is_named)) =~= out@
                        + walk_remaining(*tree, cursor.path(), true, printed0 || is_named));
                }
            } else {
                did_visit_children = true;
                proof {
                    lemma_step_enter_leaf(*tree, p0, printed0);
                    assert(out0 + (node_emit(subtree_at(*tree, p0), p0.len() as nat, printed0)
                        + walk_remaining(*tree, cursor.path(), false, printed0 || is_named)) =~= out@
                        + walk_remaining(*tree, cursor.path(), false, printed0 || is_named));
                }
            }
        }
    }
    out.append("\n");
    cursor.reset();
    out
}

/// Renders `tree` with a fresh cursor.
pub fn print_tree(tree: &Tree) -> (out: String)
    ensures
        out@ == render_tree(*tree),
{
    let mut cursor = Cursor::new();
    print_tree_with_cursor(tree, &mut cursor)
}

/// The indentation for `depth` is exactly two spaces per level.
pub proof fn lemma_indent_len(depth: nat)
    ensures
        indent_spaces(depth).len() == 2 * depth,
    decreases depth,
{
    reveal_strlit("  ");
    if depth > 0 {
        lemma_indent_len((depth - 1) as nat);
    }
}

/// Law: an anonymous node emits no line and no indentation of its own; its
/// rendering is exactly its children's rendering, one tree level deeper,
/// and an anonymous leaf renders nothing at all.
pub proof fn lemma_unnamed_node_is_silent(t: Tree, depth: nat, printed: bool)
    requires
        !t.info.is_named,
    ensures
        render_subtree(t, depth, printed) == render_children_from(t, 0, depth + 1, printed),
        t.children@.len() == 0 ==> render_subtree(t, depth, printed) == Seq::<char>::empty(),
{
    if t.children@.len() == 0 {
        assert(render_children_from(t, 0, depth + 1, printed) =~= Seq::<char>::empty());
    }
}

/// Law: a named node opens a line indented exactly two spaces per
/// tree-depth level — the separating newline when output already stands,
/// then `2 * depth` spaces, then the line body — and its children are
/// rendered one level deeper, as every node's children are, named or not.
pub proof fn lemma_indentation_is_tree_depth(t: Tree, depth: nat, printed: bool)
    requires
        t.info.is_named,
    ensures
        render_subtree(t, depth, printed) == (if printed {
            "\n"@
        } else {
            Seq::<char>::empty()
        }) + indent_spaces(depth) + node_line_body(t.info) + render_children_from(
            t,
            0,
            depth + 1,
            true,
        ) + ")"@,
        indent_spaces(depth).len() == 2 * depth,
{
    lemma_indent_len(depth);
    assert(render_subtree(t, depth, printed) =~= (if printed {
        "\n"@
    } else {
        Seq::<char>::empty()
    }) + indent_spaces(depth) + node_line_body(t.info) + render_children_from(t, 0, depth + 1, true)
        + ")"@);
}

/// Within the rendering of the children `j..` of `t`, child `i`'s own
/// rendering stands as one contiguous segment, at the same depth.  Returns
/// the text before it, the text after it, and the printed flag it is
/// rendered under.
proof fn lemma_child_render_contained(t: Tree, i: int, j: int, depth: nat, printed: bool) -> (w: (
    Seq<char>,
    Seq<char>,
    bool,
))
    requires
        0 <= j <= i < t.children@.len(),
    ensures
        render_children_from(t, j, depth, printed) == w.0 + render_subtree(
            t.children@[i],
            depth,
            w.2,
        ) + w.1,
    decreases i - j,
{
    let c = t.children@[j];
    if j == i {
        let w = (
            Seq::<char>::empty(),
            render_children_from(t, j + 1, depth, printed || subtree_has_named(c)),
            printed,
        );
        assert(render_children_from(t, j, depth, printed) =~= w.0 + render_subtree(
            t.children@[i],
            depth,
            w.2,
        ) + w.1);
        w
    } else {
        let sub = lemma_child_render_contained(t, i, j + 1, depth, printed || subtree_has_named(c));
        let w = (render_subtree(c, depth, printed) + sub.0, sub.1, sub.2);
        assert(render_children_from(t, j, depth, printed) =~= w.0 + render_subtree(
            t.children@[i],
            depth,
            w.2,
        ) + w.1);
        w
    }
}

/// Law: the node at any valid path is rendered at a depth equal to the
/// path's length — one level, two spaces, per tree edge between it and the
/// root, whether or not the nodes along the way are named.  Returns the
/// output before the node's segment, the output after it, and the printed
/// flag the segment is rendered under.
pub proof fn lemma_rendered_at_tree_depth(t: Tree, p: Seq<usize>, depth: nat, printed: bool) -> (w:
    (Seq<char>, Seq<char>, bool))
    requires
        valid_path(t, p),
    ensures
        render_subtree(t, depth, printed) == w.0 + render_subtree(
            subtree_at(t, p),
            depth + p.len(),
            w.2,
        ) + w.1,
    decreases p.len(),
{
    if p.len() == 0 {
        let w = (Seq::<char>::empty(), Seq::<char>::empty(), printed);
        assert(render_subtree(t, depth, printed) =~= w.0 + render_subtree(t, depth, printed)
            + w.1);
        w
    } else {
        let i = p[0] as int;
        let c = t.children@[i];
        assert(subtree_at(t, p) == subtree_at(c, p.drop_first()));
        if t.info.is_named {
            let sub = lemma_child_render_contained(t, i, 0, depth + 1, true);
            let inner = lemma_rendered_at_tree_depth(c, p.drop_first(), depth + 1, sub.2);
            let w = (node_head(t.info, depth, printed) + sub.0 + inner.0, inner.1 + sub.1 + ")"@, inner.2);
            assert(render_subtree(t, depth, printed) =~= w.0 + render_subtree(
                subtree_at(t, p),
                depth + p.len(),
                w.2,
            ) + w.1);
            w
        } else {
            let sub = lemma_child_render_contained(t, i, 0, depth + 1, printed);
            let inner = lemma_rendered_at_tree_depth(c, p.drop_first(), depth + 1, sub.2);
            let w = (sub.0 + inner.0, inner.1 + sub.1, inner.2);
            assert(render_subtree(t, depth, printed) =~= w.0 + render_subtree(
                subtree_at(t, p),
                depth + p.len(),
                w.2,
            ) + w.1);
            w
        }
    }
}

} // verus!
