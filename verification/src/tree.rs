//! A directory tree held in memory, and what a purge does to it.
//!
//! A [`Node`] stands for a file or a directory together with everything that
//! decides how the operations on it go: when a file was last modified, whether
//! a directory can be listed, whether the entry lets itself be removed.
//! [`purge_nodes`] and [`purge_root`] say, for such a tree, what a purge leaves
//! behind, which lines it emits and how it ends.
use vstd::prelude::*;
use crate::age::{old_enough, AgeReading, Timestamp};
use crate::engine::{line, Child, ChildView};
use crate::status::{Outcome, StatusLineView};

verus! {

/// A file or a directory in memory.
#[derive(Debug, PartialEq, Eq)]
pub enum Node {
    File {
        /// The file's full path.
        path: String,
        /// When the file was last modified; `None` if that cannot be read.
        modified: Option<Timestamp>,
        /// Whether an attempt to remove the file succeeds.
        removable: bool,
    },
    Dir {
        /// The directory's full path.
        path: String,
        /// The directory's entries, in the order in which a listing gives them.
        children: Vec<Node>,
        /// Whether the directory can be listed.
        listable: bool,
        /// Whether an attempt to remove the directory succeeds once it is empty.
        removable: bool,
    },
}

/// The mathematical content of a [`Node`].
pub enum NodeView {
    File { path: Seq<char>, modified: Option<Timestamp>, removable: bool },
    Dir { path: Seq<char>, children: Seq<NodeView>, listable: bool, removable: bool },
}

impl Node {
    /// The node's mathematical content: its own data, and the content of
    /// everything beneath it.
    pub open spec fn content(self) -> NodeView
        decreases self,
    {
        match self {
            Node::File { path, modified, removable } => NodeView::File {
                path: path@,
                modified,
                removable,
            },
            Node::Dir { path, children, listable, removable } => NodeView::Dir {
                path: path@,
                children: Seq::new(
                    children@.len(),
                    |i: int|
                        if 0 <= i < children@.len() {
                            children@[i].content()
                        } else {
                            arbitrary()
                        },
                ),
                listable,
                removable,
            },
        }
    }
}

impl View for Node {
    type V = NodeView;

    open spec fn view(&self) -> NodeView {
        self.content()
    }
}

impl DeepView for Node {
    type V = NodeView;

    open spec fn deep_view(&self) -> NodeView {
        self@
    }
}

impl NodeView {
    /// The node's full path.
    pub open spec fn path(self) -> Seq<char> {
        match self {
            NodeView::File { path, .. } => path,
            NodeView::Dir { path, .. } => path,
        }
    }

    /// The node as a listing of its parent shows it.
    pub open spec fn entry(self) -> ChildView {
        ChildView { path: self.path(), is_dir: self is Dir }
    }
}

/// The listing of a directory that holds `nodes`.
pub open spec fn listing(nodes: Seq<NodeView>) -> Seq<ChildView> {
    Seq::new(nodes.len(), |i: int| nodes[i].entry())
}

/// The circumstances of a run: the threshold, whether anything is removed, and
/// what the clock says (`None` if it cannot be read).
pub struct Rules {
    pub min_age_minutes: u32,
    pub delete_enabled: bool,
    pub now: Option<Timestamp>,
}

/// What a purge makes of a sequence of entries.
pub struct Run {
    /// The entries that are still there afterwards.
    pub remaining: Seq<NodeView>,
    /// The lines emitted, in order.
    pub lines: Seq<StatusLineView>,
    /// Whether every entry was cleared away.  Never set when the run broke off.
    pub cleared: bool,
    /// The path of the directory that could not be listed, if the run broke off.
    pub failed: Option<Seq<char>>,
}

/// What a purge makes of a single entry.
///
/// A file that is too young stays.  One that is old enough goes if removing is
/// enabled and the file lets itself be removed; when nothing is removed it
/// stays but counts as cleared.
///
/// A directory that cannot be listed breaks the run off.  Otherwise its entries
/// are purged first.  If the run broke off beneath it, or not all of its
/// entries were cleared, it stays.  If all were cleared, it goes if removing is
/// enabled, it is empty and it lets itself be removed; when nothing is removed
/// it stays but counts as cleared.
pub open spec fn purge_node(node: NodeView, rules: Rules) -> Run
    decreases node,
{
    match node {
        NodeView::File { path, modified, removable } => {
            if !old_enough(AgeReading { modified, now: rules.now }, rules.min_age_minutes) {
                Run {
                    remaining: seq![node],
                    lines: seq![line(Outcome::FileSkippedTooYoung, path)],
                    cleared: false,
                    failed: None,
                }
            } else if !rules.delete_enabled {
                Run {
                    remaining: seq![node],
                    lines: seq![line(Outcome::FileDeleted, path)],
                    cleared: true,
                    failed: None,
                }
            } else if removable {
                Run {
                    remaining: Seq::empty(),
                    lines: seq![line(Outcome::FileDeleted, path)],
                    cleared: true,
                    failed: None,
                }
            } else {
                Run {
                    remaining: seq![node],
                    lines: seq![line(Outcome::FileDeleteFailed, path)],
                    cleared: false,
                    failed: None,
                }
            }
        },
        NodeView::Dir { path, children, listable, removable } => {
            if !listable {
                Run {
                    remaining: seq![node],
                    lines: Seq::empty(),
                    cleared: false,
                    failed: Some(path),
                }
            } else {
                let inner = purge_nodes(children, rules);
                let kept = NodeView::Dir { path, children: inner.remaining, listable, removable };
                if inner.failed is Some {
                    Run {
                        remaining: seq![kept],
                        lines: inner.lines,
                        cleared: false,
                        failed: inner.failed,
                    }
                } else if !inner.cleared {
                    Run {
                        remaining: seq![kept],
                        lines: inner.lines.push(line(Outcome::DirectoryNotEmptyEnough, path)),
                        cleared: false,
                        failed: None,
                    }
                } else if !rules.delete_enabled {
                    Run {
                        remaining: seq![kept],
                        lines: inner.lines.push(line(Outcome::DirectoryDeleted, path)),
                        cleared: true,
                        failed: None,
                    }
                } else if removable && inner.remaining.len() == 0 {
                    Run {
                        remaining: Seq::empty(),
                        lines: inner.lines.push(line(Outcome::DirectoryDeleted, path)),
                        cleared: true,
                        failed: None,
                    }
                } else {
                    Run {
                        remaining: seq![kept],
                        lines: inner.lines.push(line(Outcome::DirectoryDeleteFailed, path)),
                        cleared: false,
                        failed: None,
                    }
                }
            }
        },
    }
}

/// What a purge makes of the entries of one directory, visited in order.  Once
/// the run has broken off, the entries that follow are left as they are.
pub open spec fn purge_nodes(nodes: Seq<NodeView>, rules: Rules) -> Run
    decreases nodes,
{
    if nodes.len() == 0 {
        Run { remaining: Seq::empty(), lines: Seq::empty(), cleared: true, failed: None }
    } else {
        let first = purge_node(nodes[0], rules);
        if first.failed is Some {
            Run {
                remaining: first.remaining + nodes.skip(1),
                lines: first.lines,
                cleared: false,
                failed: first.failed,
            }
        } else {
            let others = purge_nodes(nodes.skip(1), rules);
            Run {
                remaining: first.remaining + others.remaining,
                lines: first.lines + others.lines,
                cleared: first.cleared && others.cleared,
                failed: others.failed,
            }
        }
    }
}

/// What a purge that starts at `root` comes to.
pub struct RootRun {
    /// The root afterwards.  The root itself is never removed.
    pub root: NodeView,
    /// The lines emitted, in order.
    pub lines: Seq<StatusLineView>,
    /// Whether everything beneath the root was cleared away, or the path of the
    /// directory that could not be listed.
    pub result: Result<bool, Seq<char>>,
}

/// What a purge makes of the tree `root`, which lies at `root_path`.  A root
/// that is no directory, or cannot be listed, breaks the run off at once.
pub open spec fn purge_root(root_path: Seq<char>, root: NodeView, rules: Rules) -> RootRun {
    match root {
        NodeView::Dir { path, children, listable, removable } if listable => {
            let inner = purge_nodes(children, rules);
            RootRun {
                root: NodeView::Dir { path, children: inner.remaining, listable, removable },
                lines: inner.lines,
                result: match inner.failed {
                    Some(failed_path) => Err(failed_path),
                    None => Ok(inner.cleared),
                },
            }
        },
        _ => RootRun { root, lines: Seq::empty(), result: Err(root_path) },
    }
}

/// The view of a directory holds the views of its entries.
pub proof fn lemma_dir_view(node: Node)
    requires
        node is Dir,
    ensures
        node@ matches NodeView::Dir { children, .. } && children == node->children.deep_view(),
{
    let held = node->children;
    assert(node@->children =~= held.deep_view()) by {
        assert forall|i: int| 0 <= i < held@.len() implies node@->children[i]
            == held.deep_view()[i] by {
            assert(held.deep_view()[i] == held@[i].deep_view());
        }
    }
}

impl Node {
    /// A file.
    pub fn file(path: String, modified: Option<Timestamp>, removable: bool) -> (node: Node)
        ensures
            node@ == (NodeView::File { path: path@, modified, removable }),
    {
        Node::File { path, modified, removable }
    }

    /// A directory that holds `children`.
    pub fn dir(path: String, children: Vec<Node>, listable: bool, removable: bool) -> (node: Node)
        ensures
            node@ == (NodeView::Dir {
                path: path@,
                children: children.deep_view(),
                listable,
                removable,
            }),
    {
        let node = Node::Dir { path, children, listable, removable };
        proof {
            lemma_dir_view(node);
        }
        node
    }

    /// The node as a listing of its parent shows it.
    pub fn entry(&self) -> (child: Child)
        ensures
            child@ == self@.entry(),
    {
        match self {
            Node::File { path, .. } => Child { path: path.clone(), is_dir: false },
            Node::Dir { path, .. } => Child { path: path.clone(), is_dir: true },
        }
    }

    /// A copy of the node and everything beneath it.
    pub fn duplicate(&self) -> (copy: Node)
        ensures
            copy@ == self@,
        decreases self,
    {
        match self {
            Node::File { path, modified, removable } => Node::File {
                path: path.clone(),
                modified: *modified,
                removable: *removable,
            },
            Node::Dir { path, children, listable, removable } => {
                let mut copies: Vec<Node> = Vec::new();
                let mut i: usize = 0;
                while i < children.len()
                    invariant
                        i <= children.len(),
                        copies.len() == i,
                        forall|j: int| 0 <= j < i ==> copies[j]@ == children[j]@,
                        *self matches Node::Dir { children: c, .. } && c == children,
                    decreases children.len() - i,
                {
                    let copy = children[i].duplicate();
                    copies.push(copy);
                    i += 1;
                }
                let copy = Node::Dir {
                    path: path.clone(),
                    children: copies,
                    listable: *listable,
                    removable: *removable,
                };
                proof {
                    lemma_dir_view(copy);
                    lemma_dir_view(*self);
                    assert(copies.deep_view() =~= children.deep_view());
                }
                copy
            },
        }
    }
}

/// The listing of a directory that holds `nodes`.
pub fn list(nodes: &Vec<Node>) -> (entries: Vec<Child>)
    ensures
        entries.deep_view() == listing(nodes.deep_view()),
{
    let mut entries: Vec<Child> = Vec::new();
    let mut i: usize = 0;
    while i < nodes.len()
        invariant
            i <= nodes.len(),
            entries.len() == i,
            forall|j: int| 0 <= j < i ==> entries[j]@ == nodes[j]@.entry(),
        decreases nodes.len() - i,
    {
        entries.push(nodes[i].entry());
        i += 1;
    }
    assert(entries.deep_view() =~= listing(nodes.deep_view()));
    entries
}

} // verus!
