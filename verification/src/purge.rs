//! Running the engine against a directory tree held in memory.
//!
//! [`purge`] does what a program does against a real filesystem: it performs
//! each operation the engine asks for, here on a [`Node`] tree, and tells the
//! engine how it went.  What comes out is proved to be what
//! [`purge_root`] says of the tree.
use vstd::prelude::*;
use vstd::pervasive::unreached;
use crate::age::{AgeReading, Timestamp};
use crate::config::{Config, ConfigView};
use crate::engine::{
    lemma_settle_awaits, record, request, settle, Action, ActionView, ChildView, Engine, Event,
    FrameView, Step,
};
use crate::status::{StatusLine, StatusLineView};
use crate::tree::{
    lemma_dir_view, list, listing, purge_node, purge_nodes, purge_root, Node, NodeView,
    RootRun, Rules,
};

verus! {

/// What a purge of a tree in memory came to.
#[derive(Debug, PartialEq, Eq)]
pub struct Report {
    /// The tree afterwards.
    pub root: Node,
    /// The lines emitted, in order.
    pub lines: Vec<StatusLine>,
    /// Whether everything beneath the root was cleared away, or the path of the
    /// directory that could not be listed.
    pub result: Result<bool, String>,
}

impl View for Report {
    type V = RootRun;

    open spec fn view(&self) -> RootRun {
        RootRun {
            root: self.root@,
            lines: self.lines.deep_view(),
            result: match self.result {
                Ok(all_cleared) => Ok(all_cleared),
                Err(path) => Err(path@),
            },
        }
    }
}

/// The circumstances of a run with the given settings and clock.
pub open spec fn rules_of(config: ConfigView, now: Option<Timestamp>) -> Rules {
    Rules {
        min_age_minutes: config.min_age_minutes,
        delete_enabled: config.delete_enabled,
        now,
    }
}

/// The frames of an engine that is inside the directory `dir`, with `rest`
/// still to be visited there.
spec fn inside(
    below: Seq<FrameView>,
    dir: Seq<char>,
    rest: Seq<ChildView>,
    cleared: bool,
) -> Seq<FrameView> {
    below.push(FrameView { dir, rest, cleared })
}

/// Adds `lines` at the end of `log`.
fn emit(log: &mut Vec<StatusLine>, lines: Vec<StatusLine>)
    ensures
        final(log).deep_view() == old(log).deep_view() + lines.deep_view(),
{
    let mut lines = lines;
    let ghost added = lines@;
    log.append(&mut lines);
    assert(log.deep_view() =~= old(log).deep_view() + Seq::new(
        added.len(),
        |i: int| added[i].deep_view(),
    ));
}

/// Adds copies of `nodes[from..]`, which were never visited, at the end of
/// `kept`.
fn keep_from(kept: &mut Vec<Node>, nodes: &Vec<Node>, from: usize)
    requires
        from <= nodes.len(),
    ensures
        final(kept).deep_view() == old(kept).deep_view() + nodes.deep_view().skip(from as int),
{
    let mut i: usize = from;
    assert(kept.deep_view() =~= old(kept).deep_view() + nodes.deep_view().subrange(
        from as int,
        i as int,
    ));
    while i < nodes.len()
        invariant
            from <= i <= nodes.len(),
            kept.deep_view() == old(kept).deep_view() + nodes.deep_view().subrange(
                from as int,
                i as int,
            ),
        decreases nodes.len() - i,
    {
        let ghost before = kept.deep_view();
        kept.push(nodes[i].duplicate());
        assert(kept.deep_view() =~= before.push(nodes[i as int]@));
        i += 1;
        assert(kept.deep_view() =~= old(kept).deep_view() + nodes.deep_view().subrange(
            from as int,
            i as int,
        ));
    }
    assert(nodes.deep_view().subrange(from as int, i as int) =~= nodes.deep_view().skip(
        from as int,
    ));
}

/// Deals with one entry: answers the engine's requests about it from `node`,
/// and adds what is left of the entry to `kept`.
fn visit(
    engine: Engine,
    node: &Node,
    now: Option<Timestamp>,
    log: &mut Vec<StatusLine>,
    kept: &mut Vec<Node>,
    Ghost(below): Ghost<Seq<FrameView>>,
    Ghost(dir): Ghost<Seq<char>>,
    Ghost(later): Ghost<Seq<ChildView>>,
    Ghost(cleared): Ghost<bool>,
) -> (after: Engine)
    requires
        engine@.frames == inside(below, dir, later, cleared),
        engine@.awaiting == request(node@.entry()),
    ensures
        after@.min_age_minutes == engine@.min_age_minutes,
        after@.delete_enabled == engine@.delete_enabled,
        ({
            let rules = Rules {
                min_age_minutes: engine@.min_age_minutes,
                delete_enabled: engine@.delete_enabled,
                now,
            };
            let run = purge_node(node@, rules);
            &&& final(kept).deep_view() == old(kept).deep_view() + run.remaining
            &&& match run.failed {
                Some(path) => {
                    &&& after@.awaiting == ActionView::Failed(path)
                    &&& final(log).deep_view() == old(log).deep_view() + run.lines
                },
                None => {
                    let onward = settle(
                        rules.delete_enabled,
                        inside(below, dir, later, cleared && run.cleared),
                    );
                    &&& after@.frames == onward.frames
                    &&& after@.awaiting == onward.awaiting
                    &&& final(log).deep_view() == old(log).deep_view() + run.lines + onward.lines
                },
            }
        }),
    decreases node,
{
    let ghost rules = Rules {
        min_age_minutes: engine@.min_age_minutes,
        delete_enabled: engine@.delete_enabled,
        now,
    };
    let ghost run = purge_node(node@, rules);
    let ghost frames = inside(below, dir, later, cleared);
    let ghost shown = log.deep_view();
    let ghost held = kept.deep_view();
    assert(frames.drop_last() =~= below);
    match node {
        Node::File { path, modified, removable } => {
            let reading = AgeReading { modified: *modified, now };
            let Step { engine: engine, lines, action } = engine.step(Event::Age(reading));
            emit(log, lines);
            proof {
                lemma_settle_awaits(rules.delete_enabled, record(frames, false));
                lemma_settle_awaits(rules.delete_enabled, frames);
                assert(record(frames, false) =~= inside(below, dir, later, false));
            }
            match action {
                Action::RemoveFile(_) => {
                    let removed = *removable;
                    let Step { engine: engine, lines, action: _ } = engine.step(
                        Event::Removed(removed),
                    );
                    emit(log, lines);
                    assert(record(frames, removed) =~= inside(
                        below,
                        dir,
                        later,
                        cleared && removed,
                    ));
                    if !removed {
                        kept.push(node.duplicate());
                        assert(kept.deep_view() =~= held + run.remaining);
                    } else {
                        assert(kept.deep_view() =~= held + run.remaining);
                    }
                    assert(log.deep_view() =~= shown + run.lines + settle(
                        rules.delete_enabled,
                        inside(below, dir, later, cleared && run.cleared),
                    ).lines);
                    engine
                },
                _ => {
                    kept.push(node.duplicate());
                    assert(kept.deep_view() =~= held + run.remaining);
                    assert(log.deep_view() =~= shown + run.lines + settle(
                        rules.delete_enabled,
                        inside(below, dir, later, cleared && run.cleared),
                    ).lines);
                    engine
                },
            }
        },
        Node::Dir { path, children, listable, removable } => {
            proof {
                lemma_dir_view(*node);
            }
            if !*listable {
                let Step { engine: engine, lines, action: _ } = engine.step(Event::ListFailed);
                emit(log, lines);
                kept.push(node.duplicate());
                assert(kept.deep_view() =~= held + run.remaining);
                assert(log.deep_view() =~= shown + run.lines);
                return engine;
            }
            let ghost inner = purge_nodes(children.deep_view(), rules);
            let Step { engine: engine, lines, action: _ } = engine.step(
                Event::Listed(list(children)),
            );
            emit(log, lines);
            let (engine, inner_kept) = walk(
                engine,
                children,
                now,
                log,
                Ghost(frames),
                Ghost(path@),
                Ghost(shown),
            );
            let ghost opened = inside(frames, path@, Seq::empty(), inner.cleared);
            proof {
                assert(opened.drop_last() =~= frames);
                assert(record(frames, false) =~= inside(below, dir, later, false));
                lemma_settle_awaits(rules.delete_enabled, opened);
                lemma_settle_awaits(rules.delete_enabled, record(frames, false));
                lemma_settle_awaits(rules.delete_enabled, frames);
            }
            let emptied = inner_kept.len() == 0;
            match engine.awaiting() {
                Action::Failed(_) => {
                    kept.push(Node::dir(path.clone(), inner_kept, true, *removable));
                    assert(kept.deep_view() =~= held + run.remaining);
                    engine
                },
                Action::RemoveDir(_) => {
                    let removed = *removable && emptied;
                    let Step { engine: engine, lines, action: _ } = engine.step(
                        Event::Removed(removed),
                    );
                    emit(log, lines);
                    assert(record(frames, removed) =~= inside(
                        below,
                        dir,
                        later,
                        cleared && removed,
                    ));
                    if !removed {
                        kept.push(Node::dir(path.clone(), inner_kept, true, *removable));
                        assert(kept.deep_view() =~= held + run.remaining);
                    } else {
                        assert(kept.deep_view() =~= held + run.remaining);
                    }
                    assert(log.deep_view() =~= shown + run.lines + settle(
                        rules.delete_enabled,
                        inside(below, dir, later, cleared && run.cleared),
                    ).lines);
                    engine
                },
                _ => {
                    kept.push(Node::dir(path.clone(), inner_kept, true, *removable));
                    assert(kept.deep_view() =~= held + run.remaining);
                    assert(log.deep_view() =~= shown + run.lines + settle(
                        rules.delete_enabled,
                        inside(below, dir, later, cleared && run.cleared),
                    ).lines);
                    engine
                },
            }
        },
    }
}

/// Deals with the entries of one directory, in order, once the engine has been
/// given their listing.  Hands back the engine and what is left of the entries.
#[verifier::loop_isolation(false)]
fn walk(
    engine: Engine,
    nodes: &Vec<Node>,
    now: Option<Timestamp>,
    log: &mut Vec<StatusLine>,
    Ghost(below): Ghost<Seq<FrameView>>,
    Ghost(dir): Ghost<Seq<char>>,
    Ghost(shown): Ghost<Seq<StatusLineView>>,
) -> (r: (Engine, Vec<Node>))
    requires
        ({
            let entry = settle(
                engine@.delete_enabled,
                inside(below, dir, listing(nodes.deep_view()), true),
            );
            &&& engine@.frames == entry.frames
            &&& engine@.awaiting == entry.awaiting
            &&& old(log).deep_view() == shown + entry.lines
        }),
    ensures
        r.0@.min_age_minutes == engine@.min_age_minutes,
        r.0@.delete_enabled == engine@.delete_enabled,
        ({
            let rules = Rules {
                min_age_minutes: engine@.min_age_minutes,
                delete_enabled: engine@.delete_enabled,
                now,
            };
            let run = purge_nodes(nodes.deep_view(), rules);
            &&& r.1.deep_view() == run.remaining
            &&& match run.failed {
                Some(path) => {
                    &&& r.0@.awaiting == ActionView::Failed(path)
                    &&& final(log).deep_view() == shown + run.lines
                },
                None => {
                    let exit = settle(
                        rules.delete_enabled,
                        inside(below, dir, Seq::empty(), run.cleared),
                    );
                    &&& r.0@.frames == exit.frames
                    &&& r.0@.awaiting == exit.awaiting
                    &&& final(log).deep_view() == shown + run.lines + exit.lines
                },
            }
        }),
    decreases nodes,
{
    let ghost rules = Rules {
        min_age_minutes: engine@.min_age_minutes,
        delete_enabled: engine@.delete_enabled,
        now,
    };
    let ghost all = nodes.deep_view();
    let ghost total = purge_nodes(all, rules);
    let ghost entries = listing(all);
    let mut engine = engine;
    let mut kept: Vec<Node> = Vec::new();
    let ghost mut cleared = true;
    let ghost mut done: Seq<StatusLineView> = Seq::empty();
    let mut i: usize = 0;
    proof {
        assert(all.skip(0) =~= all);
        assert(entries.skip(0) =~= entries);
        assert(kept.deep_view() + total.remaining =~= total.remaining);
        assert(done + total.lines =~= total.lines);
        assert(shown + done =~= shown);
    }
    while i < nodes.len()
        invariant
            i <= nodes.len(),
            engine@.min_age_minutes == rules.min_age_minutes,
            engine@.delete_enabled == rules.delete_enabled,
            ({
                let here = settle(
                    rules.delete_enabled,
                    inside(below, dir, entries.skip(i as int), cleared),
                );
                &&& engine@.frames == here.frames
                &&& engine@.awaiting == here.awaiting
                &&& log.deep_view() == shown + done + here.lines
            }),
            ({
                let rest = purge_nodes(all.skip(i as int), rules);
                &&& total.remaining == kept.deep_view() + rest.remaining
                &&& total.lines == done + rest.lines
                &&& total.cleared == (cleared && rest.cleared)
                &&& total.failed == rest.failed
            }),
        decreases nodes.len() - i,
    {
        let ghost here_frames = inside(below, dir, entries.skip(i as int), cleared);
        let ghost later = entries.skip(i as int + 1);
        let ghost rest = purge_nodes(all.skip(i as int), rules);
        let ghost run = purge_node(all[i as int], rules);
        let ghost held = kept.deep_view();
        proof {
            assert(here_frames.drop_last() =~= below);
            assert(entries.skip(i as int).skip(1) =~= later);
            assert(entries.skip(i as int)[0] == all[i as int].entry());
            assert(all.skip(i as int)[0] == all[i as int]);
            assert(all.skip(i as int).skip(1) =~= all.skip(i as int + 1));
            assert(shown + done + Seq::<StatusLineView>::empty() =~= shown + done);
            assert(log.deep_view() == shown + done);
        }
        engine = visit(
            engine,
            &nodes[i],
            now,
            log,
            &mut kept,
            Ghost(below),
            Ghost(dir),
            Ghost(later),
            Ghost(cleared),
        );
        match engine.awaiting() {
            Action::Failed(_) => {
                proof {
                    lemma_settle_awaits(
                        rules.delete_enabled,
                        inside(below, dir, later, cleared && run.cleared),
                    );
                    assert(run.failed is Some);
                }
                keep_from(&mut kept, nodes, i + 1);
                proof {
                    assert(kept.deep_view() =~= held + (run.remaining + all.skip(i as int + 1)));
                    assert(log.deep_view() =~= shown + total.lines);
                }
                return (engine, kept);
            },
            _ => {
                proof {
                    assert(run.failed is None);
                    let next = purge_nodes(all.skip(i as int + 1), rules);
                    assert(total.remaining =~= kept.deep_view() + next.remaining);
                    assert(total.lines =~= (done + run.lines) + next.lines);
                    assert(log.deep_view() =~= shown + (done + run.lines) + settle(
                        rules.delete_enabled,
                        inside(below, dir, later, cleared && run.cleared),
                    ).lines);
                    done = done + run.lines;
                    cleared = cleared && run.cleared;
                }
            },
        }
        i += 1;
    }
    proof {
        assert(all.skip(i as int) =~= Seq::empty());
        assert(entries.skip(i as int) =~= Seq::empty());
        assert(kept.deep_view() + Seq::<NodeView>::empty() =~= kept.deep_view());
        assert(done + Seq::<StatusLineView>::empty() =~= done);
    }
    (engine, kept)
}

/// Purges the tree `root`, which stands for what lies at the root path of
/// `config`, with the clock reading `now`.  The tree itself is left as it is;
/// the report holds what a purge leaves of it.
pub fn purge(config: &Config, root: &Node, now: Option<Timestamp>) -> (report: Report)
    ensures
        report@ == purge_root(config@.root_path, root@, rules_of(config@, now)),
{
    let engine = Engine::new(config);
    let ghost rules = rules_of(config@, now);
    match root {
        Node::Dir { path, children, listable, removable } => {
            proof {
                lemma_dir_view(*root);
            }
            if *listable {
                let ghost inner = purge_nodes(children.deep_view(), rules);
                let Step { engine: engine, lines, action: _ } = engine.step(
                    Event::Listed(list(children)),
                );
                let mut log = lines;
                let ghost below = Seq::<FrameView>::empty();
                proof {
                    assert(Seq::<StatusLineView>::empty() + log.deep_view() =~= log.deep_view());
                }
                let (engine, kept) = walk(
                    engine,
                    children,
                    now,
                    &mut log,
                    Ghost(below),
                    Ghost(config@.root_path),
                    Ghost(Seq::empty()),
                );
                proof {
                    let last = inside(below, config@.root_path, Seq::empty(), inner.cleared);
                    assert(last.drop_last() =~= below);
                    assert(Seq::<StatusLineView>::empty() + inner.lines =~= inner.lines);
                    assert(inner.lines + Seq::<StatusLineView>::empty() =~= inner.lines);
                }
                let result = match engine.awaiting() {
                    Action::Done(all_cleared) => Ok(all_cleared),
                    Action::Failed(failed_path) => Err(failed_path),
                    _ => unreached(),
                };
                return Report {
                    root: Node::dir(path.clone(), kept, true, *removable),
                    lines: log,
                    result,
                };
            }
        },
        _ => {},
    }
    let Step { engine: _, lines, action: _ } = engine.step(Event::ListFailed);
    Report { root: root.duplicate(), lines, result: Err(config.root_path().clone()) }
}

} // verus!
