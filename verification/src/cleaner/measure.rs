//! The size of a directory tree, proof against cycles.

use std::collections::HashSet;
use vstd::prelude::*;
use crate::cleaner::ops::{FileKind, Meta};
use crate::error::IoFailure;
use crate::{lists, text};

verus! {

broadcast use {crate::text::group_views, vstd::std_specs::hash::group_hash_axioms};

/// A file system node as it was met: its inode, what it is, and its own bytes.
#[derive(Debug, Clone, Copy, PartialEq, Eq, Structural)]
pub struct Node {
    pub inode: u64,
    pub kind: FileKind,
    pub len: u64,
}

/// A node with this inode is among `nodes`.
pub open spec fn met(nodes: Seq<Node>, inode: u64) -> bool {
    exists|i: int| 0 <= i < nodes.len() && (#[trigger] nodes[i]).inode == inode
}

/// The bytes of the nodes met so far: each inode counts once, when it is first
/// met, and directories count only through what they hold.
pub open spec fn bytes_of(nodes: Seq<Node>) -> int
    decreases nodes.len(),
{
    if nodes.len() == 0 {
        0
    } else {
        let rest = nodes.drop_last();
        let node = nodes.last();
        if met(rest, node.inode) || node.kind == FileKind::Directory {
            bytes_of(rest)
        } else {
            bytes_of(rest) + node.len
        }
    }
}

/// A walk over a directory tree that adds up the sizes of what it meets.
pub struct SizeWalk {
    pending: Vec<String>,
    visited: HashSet<u64>,
    total: u64,
    seen: Ghost<Seq<Node>>,
}

impl SizeWalk {
    #[verifier::type_invariant]
    spec fn inv(&self) -> bool {
        &&& self.total == bytes_of(self.seen@)
        &&& forall|inode: u64| self.visited@.contains(inode) <==> met(self.seen@, inode)
    }

    /// The paths still to be looked at; the last one comes next.
    pub closed spec fn pending(&self) -> Seq<Seq<char>> {
        text::views(self.pending@)
    }

    /// The nodes met so far, in order.
    pub closed spec fn seen(&self) -> Seq<Node> {
        self.seen@
    }

    /// The bytes counted so far.
    pub fn total(&self) -> (r: u64)
        ensures
            r == bytes_of(self.seen()),
    {
        proof {
            use_type_invariant(self);
        }
        self.total
    }

    /// Takes the next path to be looked at; none when the walk is over.
    pub fn next(&mut self) -> (r: Option<String>)
        ensures
            final(self).seen() == old(self).seen(),
            match r {
                Some(path) => old(self).pending().len() > 0 && path@ == old(self).pending().last()
                    && final(self).pending() == old(self).pending().drop_last(),
                None => old(self).pending().len() == 0 && final(self).pending()
                    == old(self).pending(),
            },
    {
        proof {
            use_type_invariant(&*self);
        }
        let mut list: Vec<String> = Vec::new();
        std::mem::swap(&mut list, &mut self.pending);
        let ghost before = text::views(list@);
        let r = list.pop();
        assert(text::views(list@) =~= match r {
            Some(_) => before.drop_last(),
            None => before,
        });
        self.pending = list;
        r
    }

    /// Counts a node that was met. The answer says whether it is a directory whose
    /// entries are to be looked at: one that has not been met before.
    pub fn observe(&mut self, node: Node) -> (r: bool)
        requires
            bytes_of(old(self).seen().push(node)) <= u64::MAX,
        ensures
            final(self).pending() == old(self).pending(),
            final(self).seen() == old(self).seen().push(node),
            r == (node.kind == FileKind::Directory && !met(old(self).seen(), node.inode)),
    {
        proof {
            use_type_invariant(&*self);
        }
        let ghost nodes = self.seen@;
        let mut walk = SizeWalk {
            pending: Vec::new(),
            visited: HashSet::new(),
            total: 0,
            seen: Ghost(Seq::empty()),
        };
        std::mem::swap(self, &mut walk);
        let SizeWalk { pending, visited: before, total, seen: _ } = walk;
        let mut visited = before;
        let known: bool = visited.contains(&node.inode);
        visited.insert(node.inode);
        assert(nodes.push(node).drop_last() =~= nodes);
        let counted: u64 = if known || node.kind == FileKind::Directory {
            total
        } else {
            total + node.len
        };
        proof {
            assert forall|inode: u64|
                visited@.contains(inode) <==> met(nodes.push(node), inode) by {
                if met(nodes, inode) {
                    let i = choose|i: int|
                        0 <= i < nodes.len() && (#[trigger] nodes[i]).inode == inode;
                    assert(nodes.push(node)[i].inode == inode);
                }
                if inode == node.inode {
                    assert(nodes.push(node)[nodes.len() as int].inode == inode);
                }
                if met(nodes.push(node), inode) && inode != node.inode {
                    let i = choose|i: int|
                        0 <= i < nodes.push(node).len() && (#[trigger] nodes.push(node)[i]).inode
                            == inode;
                    assert(nodes[i].inode == inode);
                }
            }
        }
        *self = SizeWalk { pending, visited, total: counted, seen: Ghost(nodes.push(node)) };
        !known && node.kind == FileKind::Directory
    }

    /// Puts the entries of a directory before all else that is still to be looked at,
    /// the first one first.
    pub fn descend(&mut self, entries: Vec<String>)
        ensures
            final(self).seen() == old(self).seen(),
            final(self).pending() == old(self).pending() + text::views(entries@).reverse(),
    {
        proof {
            use_type_invariant(&*self);
        }
        let mut rest: Vec<String> = lists::reversed(entries);
        assert(text::views(rest@) =~= text::views(entries@).reverse());
        let mut list: Vec<String> = Vec::new();
        std::mem::swap(&mut list, &mut self.pending);
        list.append(&mut rest);
        self.pending = list;
    }
}

/// Begins to measure the tree below a path.
pub fn dir_size_safe(root: &str) -> (r: SizeWalk)
    ensures
        r.pending() == seq![root@],
        r.seen() == Seq::<Node>::empty(),
{
    let mut pending: Vec<String> = Vec::new();
    pending.push(text::owned(root));
    assert(text::views(pending@) =~= seq![root@]);
    SizeWalk { pending, visited: HashSet::new(), total: 0, seen: Ghost(Seq::empty()) }
}

/// The own bytes of a path; 0 where they cannot be read.
pub fn file_size_safe(meta: &Result<Meta, IoFailure>) -> (r: u64)
    ensures
        r == match meta {
            Ok(m) => m.len,
            Err(_) => 0,
        },
{
    match meta {
        Ok(m) => m.len,
        Err(_) => 0,
    }
}

/// Meeting a node again, through a hard link or a cycle, adds nothing.
pub proof fn inodes_count_once(nodes: Seq<Node>, again: Node)
    requires
        met(nodes, again.inode),
    ensures
        bytes_of(nodes.push(again)) == bytes_of(nodes),
{
    assert(nodes.push(again).drop_last() =~= nodes);
}

/// The total never shrinks, and grows by no more than the node's own bytes.
pub proof fn total_only_grows(nodes: Seq<Node>, node: Node)
    ensures
        bytes_of(nodes) <= bytes_of(nodes.push(node)) <= bytes_of(nodes) + node.len,
{
    assert(nodes.push(node).drop_last() =~= nodes);
}

// ── what a whole walk comes to ───────────────────────────────────────────────

/// A path and what is found there: nothing that could be looked at, or a node. What is
/// inside counts where the node is a directory, in the order in which it is listed.
pub enum Tree {
    Lost(Seq<char>),
    Found(Seq<char>, Node, Seq<Tree>),
}

/// The path of a tree.
pub open spec fn path_of(t: Tree) -> Seq<char> {
    match t {
        Tree::Lost(path) => path,
        Tree::Found(path, _, _) => path,
    }
}

/// The paths of trees, in order.
pub open spec fn paths_of(ts: Seq<Tree>) -> Seq<Seq<char>> {
    ts.map_values(|t: Tree| path_of(t))
}

/// All nodes of a tree: itself, then those of all that is inside, however deep.
pub open spec fn nodes_in(t: Tree) -> Seq<Node>
    decreases t,
{
    match t {
        Tree::Lost(_) => Seq::empty(),
        Tree::Found(_, node, inside) => if node.kind == FileKind::Directory {
            seq![node] + nodes_in_all(inside)
        } else {
            seq![node]
        },
    }
}

/// All nodes of trees, one tree after the other.
pub open spec fn nodes_in_all(ts: Seq<Tree>) -> Seq<Node>
    decreases ts, ts.len(),
    when ts.len() >= 0
{
    if ts.len() == 0 {
        Seq::empty()
    } else {
        nodes_in(ts[0]) + nodes_in_all(ts.subrange(1, ts.len() as int))
    }
}

/// The nodes met after a walk over a tree, given those met before. A directory that was
/// met before is not entered again.
pub open spec fn walked(t: Tree, seen: Seq<Node>) -> Seq<Node>
    decreases t,
{
    match t {
        Tree::Lost(_) => seen,
        Tree::Found(_, node, inside) => if enters(node, seen) {
            walked_all(inside, seen.push(node))
        } else {
            seen.push(node)
        },
    }
}

/// The nodes met after a walk over trees, one after the other.
pub open spec fn walked_all(ts: Seq<Tree>, seen: Seq<Node>) -> Seq<Node>
    decreases ts, ts.len(),
    when ts.len() >= 0
{
    if ts.len() == 0 {
        seen
    } else {
        walked_all(ts.subrange(1, ts.len() as int), walked(ts[0], seen))
    }
}

/// The node is a directory that is entered: it was not met before.
pub open spec fn enters(node: Node, seen: Seq<Node>) -> bool {
    node.kind == FileKind::Directory && !met(seen, node.inode)
}

/// Where a walk stands: the nodes met so far, and the trees still to be looked at, the
/// next one first.
#[verifier::ext_equal]
pub struct WalkView {
    pub seen: Seq<Node>,
    pub ahead: Seq<Tree>,
}

/// A walk after its next path was looked at: a node is noted by [`SizeWalk::observe`],
/// and what is inside of a directory that is entered comes first, by
/// [`SizeWalk::descend`].
pub open spec fn stepped(w: WalkView) -> WalkView {
    if w.ahead.len() == 0 {
        w
    } else {
        match w.ahead[0] {
            Tree::Lost(_) => WalkView { seen: w.seen, ahead: w.ahead.skip(1) },
            Tree::Found(_, node, inside) => WalkView {
                seen: w.seen.push(node),
                ahead: if enters(node, w.seen) {
                    inside + w.ahead.skip(1)
                } else {
                    w.ahead.skip(1)
                },
            },
        }
    }
}

/// A walk after so many paths were looked at.
pub open spec fn after_steps(w: WalkView, n: nat) -> WalkView
    decreases n,
{
    if n == 0 {
        w
    } else {
        after_steps(stepped(w), (n - 1) as nat)
    }
}

/// A walk begins at the root of a tree.
pub open spec fn walk_begun(t: Tree) -> WalkView {
    WalkView { seen: Seq::empty(), ahead: seq![t] }
}

/// How many paths there are in a tree.
pub open spec fn size_of(t: Tree) -> nat
    decreases t,
{
    match t {
        Tree::Lost(_) => 1,
        Tree::Found(_, _, inside) => 1 + size_of_all(inside),
    }
}

/// How many paths there are in trees.
pub open spec fn size_of_all(ts: Seq<Tree>) -> nat
    decreases ts, ts.len(),
    when ts.len() >= 0
{
    if ts.len() == 0 {
        0
    } else {
        size_of(ts[0]) + size_of_all(ts.subrange(1, ts.len() as int))
    }
}

proof fn lemma_sizes_add_up(a: Seq<Tree>, b: Seq<Tree>)
    ensures
        size_of_all(a + b) == size_of_all(a) + size_of_all(b),
    decreases a.len(),
{
    if a.len() == 0 {
        assert(a + b =~= b);
    } else {
        let rest = a.subrange(1, a.len() as int);
        assert((a + b).subrange(1, (a + b).len() as int) =~= rest + b);
        lemma_sizes_add_up(rest, b);
    }
}

proof fn lemma_walks_follow(a: Seq<Tree>, b: Seq<Tree>, seen: Seq<Node>)
    ensures
        walked_all(a + b, seen) == walked_all(b, walked_all(a, seen)),
    decreases a.len(),
{
    if a.len() == 0 {
        assert(a + b =~= b);
    } else {
        let rest = a.subrange(1, a.len() as int);
        assert((a + b).subrange(1, (a + b).len() as int) =~= rest + b);
        lemma_walks_follow(rest, b, walked(a[0], seen));
    }
}

/// The walk that [`SizeWalk`] takes is this one: where the paths still to be looked at
/// are those ahead, the next one is the first of them; without it they are those of the
/// rest; and the paths inside of a directory, put before the others, are those of what
/// is inside and the rest.
pub proof fn walk_follows_the_tree(ahead: Seq<Tree>, inside: Seq<Tree>)
    requires
        ahead.len() > 0,
    ensures
        ({
            let pending = paths_of(ahead).reverse();
            let rest = paths_of(ahead.skip(1)).reverse();
            &&& pending.last() == path_of(ahead[0])
            &&& pending.drop_last() == rest
            &&& rest + paths_of(inside).reverse() == paths_of(inside + ahead.skip(1)).reverse()
        }),
{
    let rest = paths_of(ahead.skip(1)).reverse();
    assert(paths_of(ahead).reverse().drop_last() =~= rest);
    assert(rest + paths_of(inside).reverse() =~= paths_of(inside + ahead.skip(1)).reverse());
}

proof fn lemma_step(w: WalkView)
    requires
        w.ahead.len() > 0,
    ensures
        walked_all(stepped(w).ahead, stepped(w).seen) == walked_all(w.ahead, w.seen),
        size_of_all(stepped(w).ahead) < size_of_all(w.ahead),
{
    let rest = w.ahead.skip(1);
    let first = w.ahead[0];
    assert(w.ahead.subrange(1, w.ahead.len() as int) =~= rest);
    assert(size_of_all(w.ahead) == size_of(first) + size_of_all(rest));
    assert(walked_all(w.ahead, w.seen) == walked_all(rest, walked(first, w.seen)));
    assert(size_of(first) >= 1);
    if let Tree::Found(_, node, inside) = first {
        lemma_sizes_add_up(inside, rest);
        if enters(node, w.seen) {
            lemma_walks_follow(inside, rest, w.seen.push(node));
        }
    }
}

/// A walk comes to its end, and by then it has met what [`walked`] says: after as many
/// paths as there are, nothing is left to be looked at. Whatever the tree, in particular
/// where a directory occurs in it again.
pub proof fn walk_comes_to_its_end(w: WalkView, n: nat)
    requires
        n >= size_of_all(w.ahead),
    ensures
        after_steps(w, n).ahead.len() == 0,
        after_steps(w, n).seen == walked_all(w.ahead, w.seen),
    decreases n,
{
    if w.ahead.len() == 0 {
        assert(stepped(w) == w);
        if n > 0 {
            walk_comes_to_its_end(w, (n - 1) as nat);
        }
    } else {
        lemma_step(w);
        walk_comes_to_its_end(stepped(w), (n - 1) as nat);
    }
}

/// The tree itself and all that is inside of it, however deep.
pub open spec fn parts(t: Tree) -> Seq<Tree>
    decreases t,
{
    match t {
        Tree::Lost(_) => seq![t],
        Tree::Found(_, _, inside) => seq![t] + parts_of_all(inside),
    }
}

/// Trees and all that is inside of them.
pub open spec fn parts_of_all(ts: Seq<Tree>) -> Seq<Tree>
    decreases ts, ts.len(),
    when ts.len() >= 0
{
    if ts.len() == 0 {
        Seq::empty()
    } else {
        parts(ts[0]) + parts_of_all(ts.subrange(1, ts.len() as int))
    }
}

/// The inode of a tree that could be looked at.
pub open spec fn has_inode(t: Tree, inode: u64) -> bool {
    t matches Tree::Found(_, node, _) && node.inode == inode
}

/// A directory that could be looked at.
pub open spec fn is_directory(t: Tree) -> bool {
    t matches Tree::Found(_, node, _) && node.kind == FileKind::Directory
}

/// What has the inode of a directory is that directory: it holds the same nodes.
pub open spec fn consistent(all: Seq<Tree>) -> bool {
    forall|i: int, j: int, inode: u64|
        0 <= i < all.len() && 0 <= j < all.len() && #[trigger] has_inode(all[i], inode)
            && #[trigger] has_inode(all[j], inode) && is_directory(all[i]) ==> nodes_in(all[i])
            == nodes_in(all[j])
}

/// Every node in `nodes` was met before.
spec fn all_met(full: Seq<Node>, nodes: Seq<Node>) -> bool {
    forall|i: int| 0 <= i < nodes.len() ==> met(full, (#[trigger] nodes[i]).inode)
}

/// Two runs of nodes have met the same inodes and come to the same bytes.
spec fn alike(seen: Seq<Node>, full: Seq<Node>) -> bool {
    &&& bytes_of(seen) == bytes_of(full)
    &&& forall|inode: u64|
        #![trigger met(seen, inode)]
        #![trigger met(full, inode)]
        met(seen, inode) <==> met(full, inode)
}

/// A directory that was met is either being walked or was walked to its end.
spec fn settled_but(all: Seq<Tree>, full: Seq<Node>, open: Seq<Tree>) -> bool {
    forall|i: int, inode: u64|
        0 <= i < all.len() && #[trigger] has_inode(all[i], inode) && met(full, inode) ==> all_met(
            full,
            nodes_in(all[i]),
        ) || exists|k: int| 0 <= k < open.len() && #[trigger] has_inode(open[k], inode)
}

/// The directories that are being walked lie in the whole tree and hold more than `n`.
spec fn open_around(all: Seq<Tree>, open: Seq<Tree>, n: int) -> bool {
    forall|k: int|
        0 <= k < open.len() ==> all.contains(#[trigger] open[k]) && nodes_in(open[k]).len() > n
}

proof fn lemma_met_push(nodes: Seq<Node>, node: Node)
    ensures
        forall|inode: u64|
            #[trigger] met(nodes.push(node), inode) <==> met(nodes, inode) || inode == node.inode,
        bytes_of(nodes.push(node)) == bytes_of(nodes) + (if met(nodes, node.inode)
            || node.kind == FileKind::Directory {
            0
        } else {
            node.len as int
        }),
{
    let pushed = nodes.push(node);
    assert(pushed.drop_last() =~= nodes);
    assert(pushed[nodes.len() as int].inode == node.inode);
    assert forall|inode: u64|
        #[trigger] met(pushed, inode) <==> met(nodes, inode) || inode == node.inode by {
        if met(nodes, inode) {
            let i = choose|i: int| 0 <= i < nodes.len() && (#[trigger] nodes[i]).inode == inode;
            assert(pushed[i].inode == inode);
        }
        if met(pushed, inode) {
            let i = choose|i: int| 0 <= i < pushed.len() && (#[trigger] pushed[i]).inode == inode;
            if i < nodes.len() {
                assert(nodes[i].inode == inode);
            }
        }
    }
}

proof fn lemma_met_again(full: Seq<Node>, nodes: Seq<Node>)
    requires
        all_met(full, nodes),
    ensures
        alike(full, full + nodes),
    decreases nodes.len(),
{
    if nodes.len() == 0 {
        assert(full + nodes =~= full);
    } else {
        let rest = nodes.drop_last();
        assert(all_met(full, rest)) by {
            assert forall|i: int| 0 <= i < rest.len() implies met(
                full,
                (#[trigger] rest[i]).inode,
            ) by {
                assert(nodes[i] == rest[i]);
            }
        }
        lemma_met_again(full, rest);
        assert(full + nodes =~= (full + rest).push(nodes.last()));
        lemma_met_push(full + rest, nodes.last());
        assert(met(full, nodes[nodes.len() - 1].inode));
    }
}

proof fn lemma_met_grows(a: Seq<Node>, b: Seq<Node>, inode: u64)
    requires
        met(a, inode),
    ensures
        met(a + b, inode),
{
    let i = choose|i: int| 0 <= i < a.len() && (#[trigger] a[i]).inode == inode;
    assert((a + b)[i].inode == inode);
}

proof fn lemma_ends_met(a: Seq<Node>, b: Seq<Node>)
    ensures
        all_met(a + b, b),
{
    assert forall|i: int| 0 <= i < b.len() implies met(a + b, (#[trigger] b[i]).inode) by {
        assert((a + b)[a.len() + i].inode == b[i].inode);
    }
}

proof fn lemma_walk_tree(
    all: Seq<Tree>,
    t: Tree,
    seen: Seq<Node>,
    full: Seq<Node>,
    open: Seq<Tree>,
)
    requires
        consistent(all),
        forall|i: int| 0 <= i < parts(t).len() ==> all.contains(#[trigger] parts(t)[i]),
        alike(seen, full),
        settled_but(all, full, open),
        open_around(all, open, nodes_in(t).len() as int),
    ensures
        alike(walked(t, seen), full + nodes_in(t)),
        settled_but(all, full + nodes_in(t), open),
    decreases t,
{
    match t {
        Tree::Lost(_) => {
            assert(full + nodes_in(t) =~= full);
            assert(walked(t, seen) == seen);
        },
        Tree::Found(_, node, inside) => {
            assert(parts(t)[0] == t);
            let at = choose|i: int| 0 <= i < all.len() && all[i] == t;
            assert(has_inode(all[at], node.inode));
            lemma_met_push(seen, node);
            lemma_met_push(full, node);
            if enters(node, seen) {
                let seen2 = seen.push(node);
                let full2 = full.push(node);
                let open2 = open.push(t);
                let nodes = nodes_in_all(inside);
                assert forall|i: int, inode: u64|
                    0 <= i < all.len() && #[trigger] has_inode(all[i], inode) && met(
                        full2,
                        inode,
                    ) implies all_met(full2, nodes_in(all[i])) || exists|k: int|
                    0 <= k < open2.len() && #[trigger] has_inode(open2[k], inode) by {
                    if inode == node.inode {
                        assert(has_inode(open2[open.len() as int], inode));
                    } else if all_met(full, nodes_in(all[i])) {
                        assert(full2 =~= full + seq![node]);
                        assert forall|j: int| 0 <= j < nodes_in(all[i]).len() implies met(
                            full2,
                            (#[trigger] nodes_in(all[i])[j]).inode,
                        ) by {
                            lemma_met_grows(full, seq![node], nodes_in(all[i])[j].inode);
                        }
                    } else {
                        let k = choose|k: int|
                            0 <= k < open.len() && #[trigger] has_inode(open[k], inode);
                        assert(has_inode(open2[k], inode));
                    }
                }
                assert(settled_but(all, full2, open2));
                assert(nodes_in(t).len() == nodes.len() + 1);
                assert(open_around(all, open2, nodes.len() as int)) by {
                    assert forall|k: int| 0 <= k < open2.len() implies all.contains(
                        #[trigger] open2[k],
                    ) && nodes_in(open2[k]).len() > nodes.len() by {
                        if k < open.len() {
                            assert(open2[k] == open[k]);
                        }
                    }
                }
                assert forall|i: int| 0 <= i < parts_of_all(inside).len() implies all.contains(
                    #[trigger] parts_of_all(inside)[i],
                ) by {
                    assert(parts(t)[i + 1] == parts_of_all(inside)[i]);
                }
                lemma_walk_trees(all, inside, seen2, full2, open2);
                let end = full2 + nodes;
                assert(full + nodes_in(t) =~= end);
                lemma_ends_met(full, nodes_in(t));
                assert forall|i: int, inode: u64|
                    0 <= i < all.len() && #[trigger] has_inode(all[i], inode) && met(
                        end,
                        inode,
                    ) implies all_met(end, nodes_in(all[i])) || exists|k: int|
                    0 <= k < open.len() && #[trigger] has_inode(open[k], inode) by {
                    if inode == node.inode {
                        assert(nodes_in(all[i]) == nodes_in(all[at]));
                    } else if !all_met(end, nodes_in(all[i])) {
                        let k = choose|k: int|
                            0 <= k < open2.len() && #[trigger] has_inode(open2[k], inode);
                        assert(k < open.len());
                        assert(has_inode(open[k], inode));
                    }
                }
            } else if met(seen, node.inode) {
                if !is_directory(t) {
                    assert(nodes_in(t) =~= seq![node]);
                    assert(all_met(full, nodes_in(t)));
                } else if !all_met(full, nodes_in(t)) {
                    let k = choose|k: int|
                        0 <= k < open.len() && #[trigger] has_inode(open[k], node.inode);
                    let o = choose|o: int| 0 <= o < all.len() && all[o] == open[k];
                    assert(has_inode(all[o], node.inode));
                    assert(nodes_in(all[o]) == nodes_in(all[at]));
                }
                lemma_met_again(full, nodes_in(t));
                let end = full + nodes_in(t);
                assert forall|i: int, inode: u64|
                    0 <= i < all.len() && #[trigger] has_inode(all[i], inode) && met(
                        end,
                        inode,
                    ) implies all_met(end, nodes_in(all[i])) || exists|k: int|
                    0 <= k < open.len() && #[trigger] has_inode(open[k], inode) by {
                    if all_met(full, nodes_in(all[i])) {
                        assert forall|j: int| 0 <= j < nodes_in(all[i]).len() implies met(
                            end,
                            (#[trigger] nodes_in(all[i])[j]).inode,
                        ) by {
                            lemma_met_grows(full, nodes_in(t), nodes_in(all[i])[j].inode);
                        }
                    }
                }
            } else {
                assert(nodes_in(t) =~= seq![node]);
                let end = full + nodes_in(t);
                assert(end =~= full.push(node));
                lemma_ends_met(full, nodes_in(t));
                assert forall|i: int, inode: u64|
                    0 <= i < all.len() && #[trigger] has_inode(all[i], inode) && met(
                        end,
                        inode,
                    ) implies all_met(end, nodes_in(all[i])) || exists|k: int|
                    0 <= k < open.len() && #[trigger] has_inode(open[k], inode) by {
                    if inode == node.inode {
                        if is_directory(all[i]) {
                            assert(nodes_in(all[i]) == nodes_in(all[at]));
                        } else {
                            assert(nodes_in(all[i]).len() == 1);
                            assert(nodes_in(all[i])[0].inode == inode);
                        }
                    } else if all_met(full, nodes_in(all[i])) {
                        assert forall|j: int| 0 <= j < nodes_in(all[i]).len() implies met(
                            end,
                            (#[trigger] nodes_in(all[i])[j]).inode,
                        ) by {
                            lemma_met_grows(full, nodes_in(t), nodes_in(all[i])[j].inode);
                        }
                    }
                }
            }
        },
    }
}

proof fn lemma_walk_trees(
    all: Seq<Tree>,
    ts: Seq<Tree>,
    seen: Seq<Node>,
    full: Seq<Node>,
    open: Seq<Tree>,
)
    requires
        consistent(all),
        forall|i: int|
            0 <= i < parts_of_all(ts).len() ==> all.contains(#[trigger] parts_of_all(ts)[i]),
        alike(seen, full),
        settled_but(all, full, open),
        open_around(all, open, nodes_in_all(ts).len() as int),
    ensures
        alike(walked_all(ts, seen), full + nodes_in_all(ts)),
        settled_but(all, full + nodes_in_all(ts), open),
    decreases ts, ts.len(),
{
    if ts.len() == 0 {
        assert(full + nodes_in_all(ts) =~= full);
    } else {
        let first = ts[0];
        let rest = ts.subrange(1, ts.len() as int);
        assert forall|i: int| 0 <= i < parts(first).len() implies all.contains(
            #[trigger] parts(first)[i],
        ) by {
            assert(parts_of_all(ts)[i] == parts(first)[i]);
        }
        assert forall|i: int| 0 <= i < parts_of_all(rest).len() implies all.contains(
            #[trigger] parts_of_all(rest)[i],
        ) by {
            assert(parts_of_all(ts)[parts(first).len() + i] == parts_of_all(rest)[i]);
        }
        lemma_walk_tree(all, first, seen, full, open);
        lemma_walk_trees(all, rest, walked(first, seen), full + nodes_in(first), open);
        assert(full + nodes_in_all(ts) =~= full + nodes_in(first) + nodes_in_all(rest));
    }
}

/// A whole walk over a tree in which the inode of a directory stands for that directory
/// comes to the bytes of every entry that is no directory, each inode once: no entry is
/// left out, not even below a directory that is not entered again.
pub proof fn whole_walk_counts_everything(t: Tree, n: nat)
    requires
        consistent(parts(t)),
        n >= size_of(t),
    ensures
        after_steps(walk_begun(t), n).ahead.len() == 0,
        bytes_of(after_steps(walk_begun(t), n).seen) == bytes_of(nodes_in(t)),
{
    let w = walk_begun(t);
    let none = Seq::<Node>::empty();
    assert(w.ahead.subrange(1, 1) =~= Seq::<Tree>::empty());
    assert(size_of_all(w.ahead) == size_of(t)) by {
        assert(size_of_all(Seq::<Tree>::empty()) == 0);
    }
    walk_comes_to_its_end(w, n);
    assert(walked_all(w.ahead, none) == walked(t, none)) by {
        assert(walked_all(Seq::<Tree>::empty(), walked(t, none)) == walked(t, none));
    }
    lemma_walk_tree(parts(t), t, none, none, Seq::empty());
    assert(none + nodes_in(t) =~= nodes_in(t));
}

/// A node that was not met before counts with all its bytes, a directory with none of its
/// own.
pub proof fn new_nodes_count_in_full(nodes: Seq<Node>, node: Node)
    requires
        forall|i: int| 0 <= i < nodes.len() ==> (#[trigger] nodes[i]).inode != node.inode,
    ensures
        node.kind != FileKind::Directory ==> bytes_of(nodes.push(node)) == bytes_of(nodes)
            + node.len,
        node.kind == FileKind::Directory ==> bytes_of(nodes.push(node)) == bytes_of(nodes),
        bytes_of(Seq::empty()) == 0,
{
    assert(nodes.push(node).drop_last() =~= nodes);
    assert(!met(nodes, node.inode));
}

/// The nodes of a directory are its own and all those of every entry, of a file its own
/// only.
pub proof fn every_entry_has_its_nodes(
    path: Seq<char>,
    node: Node,
    inside: Seq<Tree>,
    i: int,
    other: Node,
)
    requires
        0 <= i < inside.len(),
    ensures
        nodes_in(Tree::Found(path, node, inside)).contains(node),
        node.kind == FileKind::Directory && nodes_in(inside[i]).contains(other) ==> nodes_in(
            Tree::Found(path, node, inside),
        ).contains(other),
        node.kind != FileKind::Directory ==> nodes_in(Tree::Found(path, node, inside))
            == seq![node],
{
    let all = nodes_in(Tree::Found(path, node, inside));
    assert(all[0] == node);
    if node.kind == FileKind::Directory && nodes_in(inside[i]).contains(other) {
        lemma_entry_nodes(inside, i, other);
        let rest = nodes_in_all(inside);
        let k = choose|k: int| 0 <= k < rest.len() && rest[k] == other;
        assert(all[k + 1] == other);
    }
}

proof fn lemma_entry_nodes(ts: Seq<Tree>, i: int, other: Node)
    requires
        0 <= i < ts.len(),
        nodes_in(ts[i]).contains(other),
    ensures
        nodes_in_all(ts).contains(other),
    decreases i,
{
    let first = nodes_in(ts[0]);
    let tail = ts.subrange(1, ts.len() as int);
    let rest = nodes_in_all(tail);
    let all = nodes_in_all(ts);
    assert(all == first + rest);
    if i == 0 {
        let k = choose|k: int| 0 <= k < first.len() && first[k] == other;
        assert(all[k] == other);
    } else {
        assert(tail[i - 1] == ts[i]);
        lemma_entry_nodes(tail, i - 1, other);
        let k = choose|k: int| 0 <= k < rest.len() && rest[k] == other;
        assert(all[first.len() + k] == other);
    }
}

} // verus!
