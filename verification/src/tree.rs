//! The plain-data model of a parsed syntax tree, and a movable cursor
//! over it.
//!
//! A tree is the immutable product of a parsing engine: every node has a
//! kind, a named flag (anonymous nodes are syntactic noise such as
//! punctuation), an optional field name relative to its parent edge, and an
//! inclusive row/column span.  The cursor holds the path of child indices
//! from the root to its current node and moves one edge at a time, exactly
//! mirroring first-child / next-sibling / parent navigation.

use vstd::prelude::*;

verus! {

/// A position in the parsed source text, zero-indexed.
pub struct Point {
    pub row: usize,
    pub column: usize,
}

/// Everything the renderer reads of a single node.
pub struct NodeInfo {
    /// The grammar kind of the node.
    pub kind: String,
    /// Whether the node is named (anonymous nodes are suppressed from
    /// output but still traversed).
    pub is_named: bool,
    /// The grammar-defined role of this node relative to its parent edge,
    /// if the grammar gives the edge one.
    pub field_name: Option<String>,
    /// Start of the node's span.
    pub start: Point,
    /// End of the node's span.
    pub end: Point,
}

/// A syntax tree: one node and its ordered children.
pub struct Tree {
    pub info: NodeInfo,
    pub children: Vec<Tree>,
}

/// Whether `p` is a path of in-bounds child indices from the root of `t`.
pub open spec fn valid_path(t: Tree, p: Seq<usize>) -> bool
    decreases p.len(),
{
    p.len() == 0 || ((p[0] as int) < t.children@.len() && valid_path(
        t.children@[p[0] as int],
        p.drop_first(),
    ))
}

/// The subtree of `t` reached by following the child indices in `p`.
pub open spec fn subtree_at(t: Tree, p: Seq<usize>) -> Tree
    decreases p.len(),
{
    if p.len() == 0 {
        t
    } else {
        subtree_at(t.children@[p[0] as int], p.drop_first())
    }
}

/// Extending a valid path by one in-bounds child index keeps it valid and
/// reaches that child.
pub proof fn lemma_path_push(t: Tree, p: Seq<usize>, i: usize)
    requires
        valid_path(t, p),
        (i as int) < subtree_at(t, p).children@.len(),
    ensures
        valid_path(t, p.push(i)),
        subtree_at(t, p.push(i)) == subtree_at(t, p).children@[i as int],
    decreases p.len(),
{
    if p.len() == 0 {
        assert(p.push(i).drop_first() =~= Seq::<usize>::empty());
        assert(p.push(i)[0] == i);
        assert(subtree_at(t, p) == t);
        assert(valid_path(t.children@[i as int], Seq::<usize>::empty()));
        let ci = t.children@[i as int];
        assert(subtree_at(ci, Seq::<usize>::empty()) == ci);
    } else {
        let c0 = t.children@[p[0] as int];
        assert(subtree_at(t, p) == subtree_at(c0, p.drop_first()));
        lemma_path_push(c0, p.drop_first(), i);
        assert(p.push(i).drop_first() =~= p.drop_first().push(i));
        assert(p.push(i)[0] == p[0]);
        assert(valid_path(t, p.push(i)));
        assert(subtree_at(t, p.push(i)) == subtree_at(c0, p.push(i).drop_first()));
    }
}

/// Shortening a valid, non-empty path keeps it valid; its last index is in
/// bounds at the parent, and the path reaches that child of the parent.
pub proof fn lemma_path_pop(t: Tree, p: Seq<usize>)
    requires
        valid_path(t, p),
        p.len() > 0,
    ensures
        valid_path(t, p.drop_last()),
        (p.last() as int) < subtree_at(t, p.drop_last()).children@.len(),
        subtree_at(t, p) == subtree_at(t, p.drop_last()).children@[p.last() as int],
    decreases p.len(),
{
    if p.len() == 1 {
        assert(p.drop_last() =~= Seq::<usize>::empty());
        assert(p.drop_first() =~= Seq::<usize>::empty());
        assert(p.last() == p[0]);
    } else {
        lemma_path_pop(t.children@[p[0] as int], p.drop_first());
        assert(p.drop_first().drop_last() =~= p.drop_last().drop_first());
        assert(p.drop_first().last() == p.last());
        assert(p.drop_last()[0] == p[0]);
        assert(p.drop_last().len() > 0);
        assert(subtree_at(t, p) == subtree_at(t.children@[p[0] as int], p.drop_first()));
        assert(subtree_at(t, p.drop_last()) == subtree_at(
            t.children@[p[0] as int],
            p.drop_last().drop_first(),
        ));
    }
}

/// Returns the subtree of `tree` at `path`.
pub fn node_at<'a>(tree: &'a Tree, path: &Vec<usize>) -> (n: &'a Tree)
    requires
        valid_path(*tree, path@),
    ensures
        *n == subtree_at(*tree, path@),
{
    let mut cur: &'a Tree = tree;
    let mut k: usize = 0;
    proof {
        assert(path@.skip(0) =~= path@);
    }
    while k < path.len()
        invariant
            k <= path.len(),
            valid_path(*tree, path@),
            valid_path(*cur, path@.skip(k as int)),
            subtree_at(*cur, path@.skip(k as int)) == subtree_at(*tree, path@),
        decreases path.len() - k,
    {
        proof {
            assert(path@.skip(k as int)[0] == path@[k as int]);
            assert(path@.skip(k as int).drop_first() =~= path@.skip(k as int + 1));
        }
        cur = &cur.children[path[k]];
        k = k + 1;
    }
    proof {
        assert(path@.skip(path@.len() as int) =~= Seq::<usize>::empty());
    }
    cur
}

/// A movable traversal handle over a tree: the sole mutable state a
/// tree-printing walk manipulates.
pub struct Cursor {
    path: Vec<usize>,
}

impl Cursor {
    /// The path of child indices from the root to the current node.
    pub closed spec fn path(&self) -> Seq<usize> {
        self.path@
    }

    /// Whether the cursor points into `t`.
    pub open spec fn wf(&self, t: Tree) -> bool {
        valid_path(t, self.path())
    }

    /// A cursor positioned at the root.
    pub fn new() -> (c: Cursor)
        ensures
            c.path() == Seq::<usize>::empty(),
    {
        Cursor { path: Vec::new() }
    }

    /// Moves the cursor back to the root, wherever it stands.
    pub fn reset(&mut self)
        ensures
            final(self).path() == Seq::<usize>::empty(),
    {
        self.path.clear();
    }

    /// How many edges lie between the current node and the root.
    pub fn depth(&self) -> (d: usize)
        ensures
            d == self.path().len(),
    {
        self.path.len()
    }

    /// The node the cursor currently points at.
    pub fn node<'a>(&self, tree: &'a Tree) -> (n: &'a Tree)
        requires
            self.wf(*tree),
        ensures
            *n == subtree_at(*tree, self.path()),
    {
        node_at(tree, &self.path)
    }

    /// Descends to the first child of the current node; reports whether
    /// there was one.  On failure the cursor does not move.
    pub fn goto_first_child(&mut self, tree: &Tree) -> (moved: bool)
        requires
            old(self).wf(*tree),
        ensures
            final(self).wf(*tree),
            moved == (subtree_at(*tree, old(self).path()).children@.len() > 0),
            moved ==> final(self).path() == old(self).path().push(0),
            !moved ==> final(self).path() == old(self).path(),
    {
        let n = node_at(tree, &self.path);
        if n.children.len() > 0 {
            proof {
                lemma_path_push(*tree, self.path@, 0);
            }
            self.path.push(0);
            true
        } else {
            false
        }
    }

    /// Moves to the next sibling of the current node; reports whether
    /// there was one.  At the root, or at a last child, the cursor does
    /// not move.
    pub fn goto_next_sibling(&mut self, tree: &Tree) -> (moved: bool)
        requires
            old(self).wf(*tree),
        ensures
            final(self).wf(*tree),
            old(self).path().len() == 0 ==> !moved,
            old(self).path().len() > 0 ==> moved == (((old(self).path().last() + 1) as int)
                < subtree_at(*tree, old(self).path().drop_last()).children@.len()),
            moved ==> old(self).path().last() + 1 <= usize::MAX,
            moved ==> final(self).path() == old(self).path().drop_last().push(
                (old(self).path().last() + 1) as usize,
            ),
            !moved ==> final(self).path() == old(self).path(),
    {
        if self.path.len() == 0 {
            return false;
        }
        proof {
            lemma_path_pop(*tree, self.path@);
        }
        let i = self.path[self.path.len() - 1];
        let last: usize = self.path.len() - 1;
        self.path.truncate(last);
        let parent = node_at(tree, &self.path);
        proof {
            assert(self.path@ =~= old(self).path@.drop_last());
            assert(i == old(self).path@.last());
            assert((i as int) < parent.children@.len());
        }
        let sibling_count = parent.children.len();
        if i + 1 < sibling_count {
            proof {
                lemma_path_push(*tree, self.path@, (i + 1) as usize);
            }
            self.path.push(i + 1);
            true
        } else {
            self.path.push(i);
            proof {
                assert(self.path@ =~= old(self).path@);
            }
            false
        }
    }

    /// Ascends to the parent of the current node; reports whether there
    /// was one.  At the root the cursor does not move.
    pub fn goto_parent(&mut self, tree: &Tree) -> (moved: bool)
        requires
            old(self).wf(*tree),
        ensures
            final(self).wf(*tree),
            moved == (old(self).path().len() > 0),
            moved ==> final(self).path() == old(self).path().drop_last(),
            !moved ==> final(self).path() == old(self).path(),
    {
        if self.path.len() == 0 {
            return false;
        }
        proof {
            lemma_path_pop(*tree, self.path@);
        }
        let last: usize = self.path.len() - 1;
        self.path.truncate(last);
        proof {
            assert(self.path@ =~= old(self).path@.drop_last());
        }
        true
    }
}

} // verus!
