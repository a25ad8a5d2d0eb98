//! What holds of every purge: of the engine's requests, and of what a purge
//! leaves of a tree.
use vstd::prelude::*;
use crate::age::{old_enough, AgeReading};
use crate::engine::{
    lemma_settle_awaits, record, settle, step, ActionView, EngineView, EventView, FrameView,
};
use crate::tree::{purge_node, purge_nodes, purge_root, NodeView, Rules};

verus! {

/// A step takes a well-formed engine to a well-formed engine, and leaves its
/// settings alone.
pub proof fn law_step_keeps_well_formed(s: EngineView, e: EventView)
    requires
        s.wf(),
    ensures
        step(s, e).state.wf(),
        step(s, e).state.min_age_minutes == s.min_age_minutes,
        step(s, e).state.delete_enabled == s.delete_enabled,
{
    lemma_settle_awaits(s.delete_enabled, s.frames);
    lemma_settle_awaits(s.delete_enabled, record(s.frames, true));
    lemma_settle_awaits(s.delete_enabled, record(s.frames, false));
    match (s.awaiting, e) {
        (ActionView::List(path), EventView::Listed(entries)) => {
            lemma_settle_awaits(
                s.delete_enabled,
                s.frames.push(FrameView { dir: path, rest: entries, cleared: true }),
            );
        },
        _ => {},
    }
}

/// While removing is disabled, no step ends in a request to remove anything.
pub proof fn law_nothing_removed_when_disabled(s: EngineView, e: EventView)
    requires
        s.wf(),
        !s.delete_enabled,
    ensures
        !step(s, e).state.awaiting.is_removal(),
{
    law_step_keeps_well_formed(s, e);
}

/// A step ends in a request to remove a file only if it answers an age
/// reading for that very file which is old enough, while removing is enabled;
/// or if that request stood before and the event did not answer it.
pub proof fn law_file_removal_follows_old_enough_reading(
    s: EngineView,
    e: EventView,
    path: Seq<char>,
)
    requires
        step(s, e).state.awaiting == ActionView::RemoveFile(path),
    ensures
        ({
            ||| {
                &&& s.awaiting == ActionView::ReadAge(path)
                &&& s.delete_enabled
                &&& e matches EventView::Age(reading)
                &&& old_enough(reading, s.min_age_minutes)
            }
            ||| {
                &&& s.awaiting == ActionView::RemoveFile(path)
                &&& !(e is Removed)
                &&& step(s, e).state == s
            }
        }),
{
    lemma_settle_awaits(s.delete_enabled, s.frames);
    lemma_settle_awaits(s.delete_enabled, record(s.frames, true));
    lemma_settle_awaits(s.delete_enabled, record(s.frames, false));
    match (s.awaiting, e) {
        (ActionView::List(dir), EventView::Listed(entries)) => {
            lemma_settle_awaits(
                s.delete_enabled,
                s.frames.push(FrameView { dir, rest: entries, cleared: true }),
            );
        },
        _ => {},
    }
}

/// Moving on ends in a request to remove a directory only if removing is
/// enabled, the innermost directory has no entry left to visit, and every
/// entry of it was cleared away; the request is then for that directory.
pub proof fn law_directory_removal_follows_cleared_entries(
    delete_enabled: bool,
    frames: Seq<FrameView>,
)
    requires
        settle(delete_enabled, frames).awaiting is RemoveDir,
    ensures
        delete_enabled,
        frames.len() > 1,
        frames.last().rest.len() == 0,
        frames.last().cleared,
        settle(delete_enabled, frames).awaiting == ActionView::RemoveDir(frames.last().dir),
{
    lemma_settle_awaits(delete_enabled, frames);
    lemma_settle_awaits(delete_enabled, frames.drop_last());
}

/// Whether the file `file` occurs in `node` or anywhere beneath it.
pub open spec fn node_holds(node: NodeView, file: NodeView) -> bool
    decreases node,
{
    match node {
        NodeView::File { .. } => node == file,
        NodeView::Dir { children, .. } => nodes_hold(children, file),
    }
}

/// Whether the file `file` occurs among `nodes` or anywhere beneath them.
pub open spec fn nodes_hold(nodes: Seq<NodeView>, file: NodeView) -> bool
    decreases nodes,
{
    nodes.len() > 0 && (node_holds(nodes[0], file) || nodes_hold(nodes.skip(1), file))
}

/// Whether `file` is a file that is old enough under `rules`.
pub open spec fn file_old_enough(file: NodeView, rules: Rules) -> bool {
    file matches NodeView::File { modified, .. } && old_enough(
        AgeReading { modified, now: rules.now },
        rules.min_age_minutes,
    )
}

/// Whether `node` and everything beneath it lets itself be removed.
pub open spec fn node_yields(node: NodeView) -> bool
    decreases node,
{
    match node {
        NodeView::File { removable, .. } => removable,
        NodeView::Dir { children, removable, .. } => removable && nodes_yield(children),
    }
}

/// Whether all of `nodes` and everything beneath them lets itself be removed.
pub open spec fn nodes_yield(nodes: Seq<NodeView>) -> bool
    decreases nodes,
{
    nodes.len() > 0 ==> node_yields(nodes[0]) && nodes_yield(nodes.skip(1))
}

/// What is held in two sequences put together is what is held in either.
pub proof fn lemma_hold_in_either(a: Seq<NodeView>, b: Seq<NodeView>, file: NodeView)
    ensures
        nodes_hold(a + b, file) == (nodes_hold(a, file) || nodes_hold(b, file)),
    decreases a.len(),
{
    if a.len() == 0 {
        assert(a + b =~= b);
    } else {
        assert((a + b)[0] == a[0]);
        assert((a + b).skip(1) =~= a.skip(1) + b);
        lemma_hold_in_either(a.skip(1), b, file);
    }
}

/// A sequence of one node holds what the node holds.
pub proof fn lemma_hold_in_one(node: NodeView, file: NodeView)
    ensures
        nodes_hold(seq![node], file) == node_holds(node, file),
{
    assert(seq![node].skip(1) =~= Seq::<NodeView>::empty());
    assert(!nodes_hold(Seq::<NodeView>::empty(), file));
}

/// A single entry leaves at most itself behind.  While removing is enabled,
/// it counts as cleared exactly if it is gone; and an entry at which the run
/// broke off is never gone.
pub proof fn lemma_entry_cleared_iff_gone(node: NodeView, rules: Rules)
    ensures
        purge_node(node, rules).remaining.len() <= 1,
        purge_node(node, rules).remaining.len() == 0 ==> purge_node(node, rules).cleared,
        purge_node(node, rules).failed is Some ==> !purge_node(node, rules).cleared,
        rules.delete_enabled ==> (purge_node(node, rules).cleared <==> purge_node(
            node,
            rules,
        ).remaining.len() == 0),
{
}

/// Entries among which the run broke off do not count as cleared.
pub proof fn lemma_broken_run_is_not_cleared(nodes: Seq<NodeView>, rules: Rules)
    requires
        purge_nodes(nodes, rules).failed is Some,
    ensures
        !purge_nodes(nodes, rules).cleared,
    decreases nodes.len(),
{
    if nodes.len() > 0 && purge_node(nodes[0], rules).failed is None {
        lemma_broken_run_is_not_cleared(nodes.skip(1), rules);
    }
}

/// While removing is enabled, the entries of a directory count as cleared
/// exactly if none of them is left.
pub proof fn law_cleared_iff_nothing_remains(nodes: Seq<NodeView>, rules: Rules)
    requires
        rules.delete_enabled,
    ensures
        purge_nodes(nodes, rules).cleared <==> purge_nodes(nodes, rules).remaining.len() == 0,
    decreases nodes.len(),
{
    if nodes.len() > 0 {
        lemma_entry_cleared_iff_gone(nodes[0], rules);
        law_cleared_iff_nothing_remains(nodes.skip(1), rules);
    }
}

/// Whether nothing stands in the way of clearing `node` away: every file in
/// it or beneath it is old enough, every directory can be listed, and, where
/// removing is enabled, each of them lets itself be removed.
pub open spec fn node_clears(node: NodeView, rules: Rules) -> bool
    decreases node,
{
    match node {
        NodeView::File { removable, .. } => file_old_enough(node, rules) && (rules.delete_enabled
            ==> removable),
        NodeView::Dir { children, listable, removable, .. } => listable && nodes_clear(
            children,
            rules,
        ) && (rules.delete_enabled ==> removable),
    }
}

/// Whether nothing stands in the way of clearing all of `nodes` away.
pub open spec fn nodes_clear(nodes: Seq<NodeView>, rules: Rules) -> bool
    decreases nodes,
{
    nodes.len() > 0 ==> node_clears(nodes[0], rules) && nodes_clear(nodes.skip(1), rules)
}

/// An entry counts as cleared if and only if nothing stands in the way of
/// clearing it away: every file in it or beneath it is old enough, every
/// directory can be listed, and, where removing is enabled, each of them lets
/// itself be removed.
pub proof fn lemma_entry_cleared_iff_clears(node: NodeView, rules: Rules)
    ensures
        purge_node(node, rules).cleared <==> node_clears(node, rules),
    decreases node,
{
    match node {
        NodeView::Dir { children, listable, .. } => {
            if listable {
                law_cleared_iff_every_entry_clears(children, rules);
                if purge_nodes(children, rules).failed is Some {
                    lemma_broken_run_is_not_cleared(children, rules);
                }
                if rules.delete_enabled {
                    law_cleared_iff_nothing_remains(children, rules);
                }
            }
        },
        _ => {},
    }
}

/// The entries of a directory count as cleared if and only if nothing stands in
/// the way of clearing any of them away: every file among them or beneath them
/// is old enough, every directory can be listed, and, where removing is
/// enabled, each of them lets itself be removed.
pub proof fn law_cleared_iff_every_entry_clears(nodes: Seq<NodeView>, rules: Rules)
    ensures
        purge_nodes(nodes, rules).cleared <==> nodes_clear(nodes, rules),
    decreases nodes,
{
    if nodes.len() > 0 {
        lemma_entry_cleared_iff_gone(nodes[0], rules);
        lemma_entry_cleared_iff_clears(nodes[0], rules);
        law_cleared_iff_every_entry_clears(nodes.skip(1), rules);
    }
}

/// While removing is enabled, an entry is removed if and only if it and
/// everything beneath it is removed: every file is old enough and lets itself
/// be removed, every directory can be listed and lets itself be removed.
pub proof fn law_removed_iff_everything_beneath_goes(node: NodeView, rules: Rules)
    requires
        rules.delete_enabled,
    ensures
        purge_node(node, rules).remaining.len() == 0 <==> node_clears(node, rules),
{
    lemma_entry_cleared_iff_gone(node, rules);
    lemma_entry_cleared_iff_clears(node, rules);
}

/// While removing is enabled, a purge of the tree reports that everything was
/// cleared away if and only if the root can be listed and nothing is left
/// beneath it.
pub proof fn law_cleared_tree_is_empty(root_path: Seq<char>, root: NodeView, rules: Rules)
    requires
        rules.delete_enabled,
    ensures
        purge_root(root_path, root, rules).result == Ok::<bool, Seq<char>>(true) <==> (root
            matches NodeView::Dir { listable, .. } && listable && purge_root(
            root_path,
            root,
            rules,
        ).root->children.len() == 0),
{
    match root {
        NodeView::Dir { children, listable, .. } => {
            if listable {
                law_cleared_iff_nothing_remains(children, rules);
                if purge_nodes(children, rules).failed is Some {
                    lemma_broken_run_is_not_cleared(children, rules);
                }
            }
        },
        _ => {},
    }
}

/// While removing is enabled, a directory is removed if and only if it can be
/// listed, nothing that was beneath it is left, and it lets itself be removed.
/// A directory that stays holds exactly what is left of its entries.
pub proof fn law_directory_removed_iff_emptied(dir: NodeView, rules: Rules)
    requires
        dir is Dir,
        rules.delete_enabled,
    ensures
        ({
            let beneath = purge_nodes(dir->children, rules);
            let after = purge_node(dir, rules);
            &&& after.remaining.len() == 0 <==> dir->listable && dir->Dir_removable
                && beneath.remaining.len() == 0
            &&& after.remaining.len() != 0 && dir->listable ==> after.remaining == seq![
                NodeView::Dir {
                    path: dir->Dir_path,
                    children: beneath.remaining,
                    listable: dir->listable,
                    removable: dir->Dir_removable,
                },
            ]
            &&& after.remaining.len() != 0 && !dir->listable ==> after.remaining == seq![dir]
        }),
{
    law_cleared_iff_nothing_remains(dir->children, rules);
    if purge_nodes(dir->children, rules).failed is Some {
        lemma_broken_run_is_not_cleared(dir->children, rules);
    }
}

/// A file that is not old enough is still there after the purge, whether
/// removing is enabled or not: stated of a single entry.
pub proof fn lemma_young_file_stays_in_entry(node: NodeView, rules: Rules, file: NodeView)
    requires
        file is File,
        !file_old_enough(file, rules),
        node_holds(node, file),
    ensures
        nodes_hold(purge_node(node, rules).remaining, file),
    decreases node,
{
    match node {
        NodeView::File { .. } => {
            lemma_hold_in_one(node, file);
        },
        NodeView::Dir { path, children, listable, removable } => {
            if listable {
                let inner = purge_nodes(children, rules);
                law_young_file_stays(children, rules, file);
                let kept = NodeView::Dir { path, children: inner.remaining, listable, removable };
                lemma_hold_in_one(kept, file);
            } else {
                lemma_hold_in_one(node, file);
            }
        },
    }
}

/// A file that is not old enough is still there after the purge, whether
/// removing is enabled or not.
pub proof fn law_young_file_stays(nodes: Seq<NodeView>, rules: Rules, file: NodeView)
    requires
        file is File,
        !file_old_enough(file, rules),
        nodes_hold(nodes, file),
    ensures
        nodes_hold(purge_nodes(nodes, rules).remaining, file),
    decreases nodes,
{
    let first = purge_node(nodes[0], rules);
    if first.failed is Some {
        lemma_hold_in_either(first.remaining, nodes.skip(1), file);
    } else {
        lemma_hold_in_either(first.remaining, purge_nodes(nodes.skip(1), rules).remaining, file);
    }
    if node_holds(nodes[0], file) {
        lemma_young_file_stays_in_entry(nodes[0], rules, file);
    } else if first.failed is None {
        law_young_file_stays(nodes.skip(1), rules, file);
    }
}

/// A file beneath the root that is not old enough is still beneath the root
/// after the purge, whether removing is enabled or not.
pub proof fn law_young_file_stays_beneath_root(
    root_path: Seq<char>,
    root: NodeView,
    rules: Rules,
    file: NodeView,
)
    requires
        file is File,
        !file_old_enough(file, rules),
        node_holds(root, file),
    ensures
        node_holds(purge_root(root_path, root, rules).root, file),
{
    match root {
        NodeView::Dir { children, listable, .. } => {
            if listable {
                law_young_file_stays(children, rules, file);
            }
        },
        _ => {},
    }
}

/// While removing is disabled, a purge leaves every entry as it was.
pub proof fn law_simulation_changes_nothing(nodes: Seq<NodeView>, rules: Rules)
    requires
        !rules.delete_enabled,
    ensures
        purge_nodes(nodes, rules).remaining == nodes,
    decreases nodes,
{
    if nodes.len() > 0 {
        lemma_simulation_keeps_entry(nodes[0], rules);
        law_simulation_changes_nothing(nodes.skip(1), rules);
        assert(seq![nodes[0]] + nodes.skip(1) =~= nodes);
    } else {
        assert(nodes =~= Seq::empty());
    }
}

/// While removing is disabled, a purge leaves an entry as it was.
pub proof fn lemma_simulation_keeps_entry(node: NodeView, rules: Rules)
    requires
        !rules.delete_enabled,
    ensures
        purge_node(node, rules).remaining == seq![node],
    decreases node,
{
    match node {
        NodeView::Dir { children, listable, .. } => {
            if listable {
                law_simulation_changes_nothing(children, rules);
            }
        },
        _ => {},
    }
}

/// While removing is disabled, a purge leaves the tree as it was.
pub proof fn law_simulation_changes_no_tree(root_path: Seq<char>, root: NodeView, rules: Rules)
    requires
        !rules.delete_enabled,
    ensures
        purge_root(root_path, root, rules).root == root,
{
    match root {
        NodeView::Dir { children, listable, .. } => {
            if listable {
                law_simulation_changes_nothing(children, rules);
            }
        },
        _ => {},
    }
}

/// The same circumstances, with removing enabled or disabled.
pub open spec fn with_removal(rules: Rules, delete_enabled: bool) -> Rules {
    Rules { delete_enabled, ..rules }
}

/// Where every entry lets itself be removed, a purge with removing disabled
/// emits the lines, and comes to the result, of a purge with removing enabled:
/// stated of a single entry.
pub proof fn lemma_simulation_reports_entry_like_deletion(node: NodeView, rules: Rules)
    requires
        node_yields(node),
    ensures
        purge_node(node, with_removal(rules, false)).lines == purge_node(
            node,
            with_removal(rules, true),
        ).lines,
        purge_node(node, with_removal(rules, false)).cleared == purge_node(
            node,
            with_removal(rules, true),
        ).cleared,
        purge_node(node, with_removal(rules, false)).failed == purge_node(
            node,
            with_removal(rules, true),
        ).failed,
    decreases node,
{
    match node {
        NodeView::Dir { children, listable, .. } => {
            if listable {
                law_simulation_reports_like_deletion(children, rules);
                law_cleared_iff_nothing_remains(children, with_removal(rules, true));
            }
        },
        _ => {},
    }
}

/// Where every entry lets itself be removed, a purge with removing disabled
/// emits the lines, and comes to the result, of a purge with removing enabled.
pub proof fn law_simulation_reports_like_deletion(nodes: Seq<NodeView>, rules: Rules)
    requires
        nodes_yield(nodes),
    ensures
        purge_nodes(nodes, with_removal(rules, false)).lines == purge_nodes(
            nodes,
            with_removal(rules, true),
        ).lines,
        purge_nodes(nodes, with_removal(rules, false)).cleared == purge_nodes(
            nodes,
            with_removal(rules, true),
        ).cleared,
        purge_nodes(nodes, with_removal(rules, false)).failed == purge_nodes(
            nodes,
            with_removal(rules, true),
        ).failed,
    decreases nodes,
{
    if nodes.len() > 0 {
        lemma_simulation_reports_entry_like_deletion(nodes[0], rules);
        law_simulation_reports_like_deletion(nodes.skip(1), rules);
    }
}

/// Where everything beneath the root lets itself be removed, a purge with
/// removing disabled emits the lines, and comes to the result, of a purge with
/// removing enabled.
pub proof fn law_simulation_reports_tree_like_deletion(
    root_path: Seq<char>,
    root: NodeView,
    rules: Rules,
)
    requires
        root matches NodeView::Dir { children, .. } ==> nodes_yield(children),
    ensures
        purge_root(root_path, root, with_removal(rules, false)).lines == purge_root(
            root_path,
            root,
            with_removal(rules, true),
        ).lines,
        purge_root(root_path, root, with_removal(rules, false)).result == purge_root(
            root_path,
            root,
            with_removal(rules, true),
        ).result,
{
    match root {
        NodeView::Dir { children, listable, .. } => {
            if listable {
                law_simulation_reports_like_deletion(children, rules);
            }
        },
        _ => {},
    }
}


/// A purge of a single entry is the purge of the sequence that holds just it.
pub proof fn lemma_run_of_one(node: NodeView, rules: Rules)
    ensures
        purge_nodes(seq![node], rules).remaining == purge_node(node, rules).remaining,
        purge_nodes(seq![node], rules).lines == purge_node(node, rules).lines,
        purge_nodes(seq![node], rules).cleared == purge_node(node, rules).cleared,
        purge_nodes(seq![node], rules).failed == purge_node(node, rules).failed,
{
    let one = purge_node(node, rules);
    let none = purge_nodes(Seq::<NodeView>::empty(), rules);
    lemma_entry_cleared_iff_gone(node, rules);
    assert(seq![node][0] == node);
    assert(seq![node].skip(1) =~= Seq::<NodeView>::empty());
    assert(none.cleared && none.failed is None);
    assert(one.remaining + none.remaining =~= one.remaining);
    assert(one.remaining + Seq::<NodeView>::empty() =~= one.remaining);
    assert(one.lines + none.lines =~= one.lines);
}

/// A purge of two sequences put together deals with the first, and then, unless
/// the run broke off, with the second.
pub proof fn lemma_run_of_both(a: Seq<NodeView>, b: Seq<NodeView>, rules: Rules)
    ensures
        ({
            let both = purge_nodes(a + b, rules);
            let first = purge_nodes(a, rules);
            let second = purge_nodes(b, rules);
            if first.failed is Some {
                &&& both.remaining == first.remaining + b
                &&& both.lines == first.lines
                &&& !both.cleared
                &&& both.failed == first.failed
            } else {
                &&& both.remaining == first.remaining + second.remaining
                &&& both.lines == first.lines + second.lines
                &&& both.cleared == (first.cleared && second.cleared)
                &&& both.failed == second.failed
            }
        }),
    decreases a.len(),
{
    let both = purge_nodes(a + b, rules);
    let first = purge_nodes(a, rules);
    let second = purge_nodes(b, rules);
    if a.len() == 0 {
        assert(a + b =~= b);
        assert(first.remaining + second.remaining =~= second.remaining);
        assert(first.lines + second.lines =~= second.lines);
    } else {
        let head = purge_node(a[0], rules);
        let rest = purge_nodes(a.skip(1), rules);
        assert((a + b)[0] == a[0]);
        assert((a + b).skip(1) =~= a.skip(1) + b);
        lemma_run_of_both(a.skip(1), b, rules);
        if head.failed is Some {
            assert(head.remaining + (a.skip(1) + b) =~= (head.remaining + a.skip(1)) + b);
        } else if rest.failed is Some {
            assert(head.remaining + (rest.remaining + b) =~= (head.remaining + rest.remaining) + b);
        } else {
            assert(head.remaining + (rest.remaining + second.remaining) =~= (head.remaining
                + rest.remaining) + second.remaining);
            assert(head.lines + (rest.lines + second.lines) =~= (head.lines + rest.lines)
                + second.lines);
        }
    }
}

/// A second purge under the same circumstances finds what the first left of an
/// entry, leaves all of it, and comes to the same result.
pub proof fn lemma_second_run_keeps_entry(node: NodeView, rules: Rules)
    ensures
        ({
            let first = purge_node(node, rules);
            let second = purge_nodes(first.remaining, rules);
            &&& second.remaining == first.remaining
            &&& second.cleared == first.cleared
            &&& second.failed == first.failed
        }),
    decreases node,
{
    let first = purge_node(node, rules);
    lemma_entry_cleared_iff_gone(node, rules);
    if first.remaining.len() == 0 {
        assert(first.remaining =~= Seq::empty());
    } else {
        let kept = first.remaining[0];
        assert(first.remaining =~= seq![kept]);
        lemma_run_of_one(kept, rules);
        match node {
            NodeView::Dir { children, listable, .. } => {
                if listable {
                    law_second_run_changes_nothing(children, rules);
                }
            },
            _ => {},
        }
    }
}

/// A second purge under the same circumstances removes nothing more: it finds
/// what the first left, leaves all of it, and comes to the same result.
pub proof fn law_second_run_changes_nothing(nodes: Seq<NodeView>, rules: Rules)
    ensures
        ({
            let first = purge_nodes(nodes, rules);
            let second = purge_nodes(first.remaining, rules);
            &&& second.remaining == first.remaining
            &&& second.cleared == first.cleared
            &&& second.failed == first.failed
        }),
    decreases nodes,
{
    if nodes.len() > 0 {
        let head = purge_node(nodes[0], rules);
        lemma_second_run_keeps_entry(nodes[0], rules);
        if head.failed is Some {
            lemma_run_of_both(head.remaining, nodes.skip(1), rules);
        } else {
            let others = purge_nodes(nodes.skip(1), rules);
            law_second_run_changes_nothing(nodes.skip(1), rules);
            lemma_run_of_both(head.remaining, others.remaining, rules);
        }
    }
}

/// A second purge of the tree under the same circumstances removes nothing
/// more, and comes to the same result.  The root is there before and after.
pub proof fn law_second_run_changes_no_tree(root_path: Seq<char>, root: NodeView, rules: Rules)
    ensures
        ({
            let first = purge_root(root_path, root, rules);
            let second = purge_root(root_path, first.root, rules);
            &&& second.root == first.root
            &&& second.result == first.result
        }),
{
    match root {
        NodeView::Dir { children, listable, .. } => {
            if listable {
                law_second_run_changes_nothing(children, rules);
            }
        },
        _ => {},
    }
}

/// Whether a run breaks off, and where, does not depend on the circumstances:
/// stated of a single entry.
pub proof fn lemma_entry_fails_alike(node: NodeView, one: Rules, other: Rules)
    ensures
        purge_node(node, one).failed == purge_node(node, other).failed,
    decreases node,
{
    match node {
        NodeView::Dir { children, listable, .. } => {
            if listable {
                lemma_fails_alike(children, one, other);
            }
        },
        _ => {},
    }
}

/// Whether a run breaks off, and where, does not depend on the circumstances.
pub proof fn lemma_fails_alike(nodes: Seq<NodeView>, one: Rules, other: Rules)
    ensures
        purge_nodes(nodes, one).failed == purge_nodes(nodes, other).failed,
    decreases nodes,
{
    if nodes.len() > 0 {
        lemma_entry_fails_alike(nodes[0], one, other);
        lemma_fails_alike(nodes.skip(1), one, other);
    }
}

/// A file that a purge with removing enabled left behind, and that a later
/// purge takes away, was too young for the first purge and is old enough for
/// the later one: stated of a single entry.
pub proof fn lemma_entry_later_run_removes_only_newly_aged(
    node: NodeView,
    earlier: Rules,
    later: Rules,
    file: NodeView,
)
    requires
        earlier.delete_enabled,
        file is File,
        nodes_hold(purge_node(node, earlier).remaining, file),
        !nodes_hold(purge_nodes(purge_node(node, earlier).remaining, later).remaining, file),
    ensures
        !file_old_enough(file, earlier),
        file_old_enough(file, later),
        later.delete_enabled,
    decreases node,
{
    let first = purge_node(node, earlier);
    lemma_entry_cleared_iff_gone(node, earlier);
    let kept = first.remaining[0];
    assert(first.remaining =~= seq![kept]);
    lemma_hold_in_one(kept, file);
    lemma_run_of_one(kept, later);
    let again = purge_node(kept, later);
    match node {
        NodeView::File { .. } => {
            if again.remaining.len() > 0 {
                assert(again.remaining =~= seq![kept]);
            }
        },
        NodeView::Dir { children, listable, .. } => {
            if listable {
                let inner = purge_nodes(children, earlier);
                let inner_again = purge_nodes(inner.remaining, later);
                if again.remaining.len() > 0 {
                    lemma_hold_in_one(again.remaining[0], file);
                    assert(again.remaining =~= seq![again.remaining[0]]);
                }
                assert(!nodes_hold(inner_again.remaining, file));
                law_later_run_removes_only_newly_aged(children, earlier, later, file);
            } else {
                assert(again.remaining =~= seq![kept]);
            }
        },
    }
}

/// A file that a purge with removing enabled left behind, and that a later
/// purge takes away, was too young for the first purge and is old enough for
/// the later one.  So a second purge with the same threshold removes only what
/// has aged past the threshold in between.
pub proof fn law_later_run_removes_only_newly_aged(
    nodes: Seq<NodeView>,
    earlier: Rules,
    later: Rules,
    file: NodeView,
)
    requires
        earlier.delete_enabled,
        file is File,
        nodes_hold(purge_nodes(nodes, earlier).remaining, file),
        !nodes_hold(purge_nodes(purge_nodes(nodes, earlier).remaining, later).remaining, file),
    ensures
        !file_old_enough(file, earlier),
        file_old_enough(file, later),
        later.delete_enabled,
    decreases nodes,
{
    let first = purge_nodes(nodes, earlier);
    if nodes.len() > 0 {
        let head = purge_node(nodes[0], earlier);
        let head_again = purge_nodes(head.remaining, later);
        lemma_second_run_keeps_entry(nodes[0], earlier);
        lemma_fails_alike(head.remaining, earlier, later);
        if head.failed is Some {
            let tail = nodes.skip(1);
            lemma_run_of_both(head.remaining, tail, later);
            lemma_hold_in_either(head.remaining, tail, file);
            lemma_hold_in_either(head_again.remaining, tail, file);
            lemma_entry_later_run_removes_only_newly_aged(nodes[0], earlier, later, file);
        } else {
            let others = purge_nodes(nodes.skip(1), earlier);
            let others_again = purge_nodes(others.remaining, later);
            lemma_run_of_both(head.remaining, others.remaining, later);
            lemma_hold_in_either(head.remaining, others.remaining, file);
            lemma_hold_in_either(head_again.remaining, others_again.remaining, file);
            if nodes_hold(head.remaining, file) && !nodes_hold(head_again.remaining, file) {
                lemma_entry_later_run_removes_only_newly_aged(nodes[0], earlier, later, file);
            } else {
                law_later_run_removes_only_newly_aged(nodes.skip(1), earlier, later, file);
            }
        }
    }
}

/// A file beneath the root that a purge with removing enabled left behind, and
/// that a later purge of the tree takes away, was too young for the first
/// purge and is old enough for the later one.
pub proof fn law_later_run_removes_only_newly_aged_beneath_root(
    root_path: Seq<char>,
    root: NodeView,
    earlier: Rules,
    later: Rules,
    file: NodeView,
)
    requires
        earlier.delete_enabled,
        file is File,
        node_holds(purge_root(root_path, root, earlier).root, file),
        !node_holds(
            purge_root(root_path, purge_root(root_path, root, earlier).root, later).root,
            file,
        ),
    ensures
        !file_old_enough(file, earlier),
        file_old_enough(file, later),
        later.delete_enabled,
{
    match root {
        NodeView::Dir { children, listable, .. } => {
            if listable {
                law_later_run_removes_only_newly_aged(children, earlier, later, file);
            }
        },
        _ => {},
    }
}

/// A purge never removes the root: a root that is a directory is one
/// afterwards, under the same path.
pub proof fn law_root_stays(root_path: Seq<char>, root: NodeView, rules: Rules)
    ensures
        purge_root(root_path, root, rules).root.path() == root.path(),
        (purge_root(root_path, root, rules).root is Dir) == (root is Dir),
{
}


/// The number of entries in `node` and beneath it, the node itself included.
pub open spec fn node_count(node: NodeView) -> nat
    decreases node,
{
    match node {
        NodeView::File { .. } => 1,
        NodeView::Dir { children, .. } => 1 + nodes_count(children),
    }
}

/// The number of entries among `nodes` and beneath them.
pub open spec fn nodes_count(nodes: Seq<NodeView>) -> nat
    decreases nodes,
{
    if nodes.len() == 0 {
        0
    } else {
        node_count(nodes[0]) + nodes_count(nodes.skip(1))
    }
}

/// A purge that does not break off emits one line for the entry and one for
/// each entry beneath it, whether removing is enabled or not.
pub proof fn lemma_one_line_for_each_entry_of(node: NodeView, rules: Rules)
    requires
        purge_node(node, rules).failed is None,
    ensures
        purge_node(node, rules).lines.len() == node_count(node),
    decreases node,
{
    match node {
        NodeView::Dir { children, .. } => {
            law_one_line_for_each_entry(children, rules);
        },
        _ => {},
    }
}

/// A purge that does not break off emits exactly one line for each entry it
/// finds, at any depth, whether removing is enabled or not.
pub proof fn law_one_line_for_each_entry(nodes: Seq<NodeView>, rules: Rules)
    requires
        purge_nodes(nodes, rules).failed is None,
    ensures
        purge_nodes(nodes, rules).lines.len() == nodes_count(nodes),
    decreases nodes,
{
    if nodes.len() > 0 {
        lemma_one_line_for_each_entry_of(nodes[0], rules);
        law_one_line_for_each_entry(nodes.skip(1), rules);
    }
}

} // verus!
