//! The decisions of a purge, as a machine that is driven from outside.
//!
//! The engine never touches a filesystem.  It names, one at a time, the
//! operation it wants performed (an [`Action`]), and is then told how that
//! operation went (an [`Event`]).  In between it keeps the bookkeeping of the
//! depth-first walk: one frame for each directory whose entries are being gone
//! through, with the entries still to come and whether everything so far in
//! that directory was cleared away.
use vstd::prelude::*;
use crate::age::{is_old_enough, old_enough, AgeReading};
use crate::config::{Config, ConfigView};
use crate::status::{Outcome, StatusLine, StatusLineView};

verus! {

/// One entry of a directory listing.
#[derive(Debug, PartialEq, Eq)]
pub struct Child {
    pub path: String,
    pub is_dir: bool,
}

/// The mathematical content of a [`Child`].
pub struct ChildView {
    pub path: Seq<char>,
    pub is_dir: bool,
}

impl View for Child {
    type V = ChildView;

    open spec fn view(&self) -> ChildView {
        ChildView { path: self.path@, is_dir: self.is_dir }
    }
}

impl DeepView for Child {
    type V = ChildView;

    open spec fn deep_view(&self) -> ChildView {
        self@
    }
}

/// An operation the engine wants performed, or the end of the run.
#[derive(Debug, PartialEq, Eq)]
pub enum Action {
    /// List the entries of the directory at this path.
    List(String),
    /// Read the modification time of the file at this path, and the clock.
    ReadAge(String),
    /// Remove the file at this path.
    RemoveFile(String),
    /// Remove the directory at this path, which has been emptied.
    RemoveDir(String),
    /// The run has come to an end; the flag says whether everything beneath the
    /// root was cleared away.
    Done(bool),
    /// The run broke off because the directory at this path could not be listed.
    Failed(String),
}

/// The mathematical content of an [`Action`].
pub enum ActionView {
    List(Seq<char>),
    ReadAge(Seq<char>),
    RemoveFile(Seq<char>),
    RemoveDir(Seq<char>),
    Done(bool),
    Failed(Seq<char>),
}

impl ActionView {
    /// Whether the action takes something away from the filesystem.
    pub open spec fn is_removal(self) -> bool {
        self is RemoveFile || self is RemoveDir
    }

    /// Whether the run is over.
    pub open spec fn is_final(self) -> bool {
        self is Done || self is Failed
    }
}

impl View for Action {
    type V = ActionView;

    open spec fn view(&self) -> ActionView {
        match self {
            Action::List(path) => ActionView::List(path@),
            Action::ReadAge(path) => ActionView::ReadAge(path@),
            Action::RemoveFile(path) => ActionView::RemoveFile(path@),
            Action::RemoveDir(path) => ActionView::RemoveDir(path@),
            Action::Done(all_cleared) => ActionView::Done(*all_cleared),
            Action::Failed(path) => ActionView::Failed(path@),
        }
    }
}

impl Action {
    /// A copy of the action.
    pub fn duplicate(&self) -> (a: Action)
        ensures
            a@ == self@,
    {
        match self {
            Action::List(path) => Action::List(path.clone()),
            Action::ReadAge(path) => Action::ReadAge(path.clone()),
            Action::RemoveFile(path) => Action::RemoveFile(path.clone()),
            Action::RemoveDir(path) => Action::RemoveDir(path.clone()),
            Action::Done(all_cleared) => Action::Done(*all_cleared),
            Action::Failed(path) => Action::Failed(path.clone()),
        }
    }
}

/// How an operation went.
#[derive(Debug, PartialEq, Eq)]
pub enum Event {
    /// The directory was listed; these are its entries, in the order in which
    /// they are to be visited.
    Listed(Vec<Child>),
    /// The directory could not be listed.
    ListFailed,
    /// What was learned about the file's age.
    Age(AgeReading),
    /// Whether the removal succeeded.
    Removed(bool),
}

/// The mathematical content of an [`Event`].
pub enum EventView {
    Listed(Seq<ChildView>),
    ListFailed,
    Age(AgeReading),
    Removed(bool),
}

impl View for Event {
    type V = EventView;

    open spec fn view(&self) -> EventView {
        match self {
            Event::Listed(entries) => EventView::Listed(entries.deep_view()),
            Event::ListFailed => EventView::ListFailed,
            Event::Age(reading) => EventView::Age(*reading),
            Event::Removed(ok) => EventView::Removed(*ok),
        }
    }
}

/// The bookkeeping for one directory whose entries are being gone through.
pub struct FrameView {
    /// The directory's path.
    pub dir: Seq<char>,
    /// The entries that have not been visited yet.
    pub rest: Seq<ChildView>,
    /// Whether every entry visited so far was cleared away.
    pub cleared: bool,
}

/// The engine's state: its settings, the directories it is inside of
/// (outermost first), and the action it is waiting on.  The entry that the
/// awaited action is about does not occur in `rest` of the innermost frame any
/// more.
pub struct EngineView {
    pub min_age_minutes: u32,
    pub delete_enabled: bool,
    pub frames: Seq<FrameView>,
    pub awaiting: ActionView,
}

impl EngineView {
    /// What holds of every state the engine can be in: an action about an entry
    /// is awaited only inside some directory, and a removal is awaited only when
    /// removing is enabled.
    pub open spec fn wf(self) -> bool {
        &&& (self.awaiting is ReadAge || self.awaiting.is_removal()) ==> self.frames.len() > 0
        &&& self.awaiting.is_removal() ==> self.delete_enabled
    }
}

/// The state in which a run starts: outside every directory, waiting for the
/// root to be listed.
pub open spec fn initial(config: ConfigView) -> EngineView {
    EngineView {
        min_age_minutes: config.min_age_minutes,
        delete_enabled: config.delete_enabled,
        frames: Seq::empty(),
        awaiting: ActionView::List(config.root_path),
    }
}

/// The status line for an entry.
pub open spec fn line(outcome: Outcome, path: Seq<char>) -> StatusLineView {
    StatusLineView { outcome, path }
}

/// Folds the fate of the entry just dealt with into the innermost directory:
/// it stays cleared only if the entry was cleared away.
pub open spec fn record(frames: Seq<FrameView>, entry_cleared: bool) -> Seq<FrameView> {
    if frames.len() == 0 {
        frames
    } else {
        frames.drop_last().push(
            FrameView { cleared: frames.last().cleared && entry_cleared, ..frames.last() },
        )
    }
}

/// The operation that an entry calls for first: a directory is listed, a file
/// has its age read.
pub open spec fn request(child: ChildView) -> ActionView {
    if child.is_dir {
        ActionView::List(child.path)
    } else {
        ActionView::ReadAge(child.path)
    }
}

/// Where the bookkeeping comes to rest, and the lines emitted on the way.
pub struct Settled {
    pub frames: Seq<FrameView>,
    pub awaiting: ActionView,
    pub lines: Seq<StatusLineView>,
}

/// Moves on from the entry just dealt with, until an operation is needed or the
/// run is over.
///
/// If the innermost directory has an entry left, that entry is next: a
/// directory is to be listed, a file to have its age read.  Otherwise the
/// innermost directory is done.  If it is the root, the run ends with the
/// root's flag.  If not everything in it was cleared, it is left alone, its
/// parent is no longer cleared, and the walk goes on in the parent.  If
/// everything was cleared its removal is requested; when nothing is removed it
/// counts as removed, and the walk goes on in the parent.
pub open spec fn settle(delete_enabled: bool, frames: Seq<FrameView>) -> Settled
    decreases frames.len(),
{
    if frames.len() == 0 {
        Settled { frames, awaiting: ActionView::Done(true), lines: Seq::empty() }
    } else {
        let top = frames.last();
        let below = frames.drop_last();
        if top.rest.len() > 0 {
            let child = top.rest[0];
            Settled {
                frames: below.push(FrameView { rest: top.rest.skip(1), ..top }),
                awaiting: request(child),
                lines: Seq::empty(),
            }
        } else if below.len() == 0 {
            Settled { frames: below, awaiting: ActionView::Done(top.cleared), lines: Seq::empty() }
        } else if !top.cleared {
            let onward = settle(delete_enabled, record(below, false));
            Settled {
                lines: seq![line(Outcome::DirectoryNotEmptyEnough, top.dir)] + onward.lines,
                ..onward
            }
        } else if delete_enabled {
            Settled {
                frames: below,
                awaiting: ActionView::RemoveDir(top.dir),
                lines: Seq::empty(),
            }
        } else {
            let onward = settle(delete_enabled, below);
            Settled {
                lines: seq![line(Outcome::DirectoryDeleted, top.dir)] + onward.lines,
                ..onward
            }
        }
    }
}

/// The result of one step: the state after it, and the lines it emitted.
pub struct Transition {
    pub state: EngineView,
    pub lines: Seq<StatusLineView>,
}

/// Emits `lines`, then moves on from `frames`.
pub open spec fn resume(s: EngineView, frames: Seq<FrameView>, lines: Seq<StatusLineView>) -> Transition {
    let settled = settle(s.delete_enabled, frames);
    Transition {
        state: EngineView { frames: settled.frames, awaiting: settled.awaiting, ..s },
        lines: lines + settled.lines,
    }
}

/// The engine's reaction to an event.
///
/// - A listing opens a new innermost directory, cleared so far.  A failed
///   listing ends the run.
/// - An age reading that is not old enough leaves the file alone and the
///   directory not cleared.  One that is old enough requests the file's
///   removal; when nothing is removed the file counts as removed.
/// - A removal that succeeded clears the entry; one that failed leaves the
///   directory not cleared.
/// - An event that does not answer the awaited action changes nothing.
pub open spec fn step(s: EngineView, e: EventView) -> Transition {
    match (s.awaiting, e) {
        (ActionView::List(path), EventView::Listed(entries)) => resume(
            s,
            s.frames.push(FrameView { dir: path, rest: entries, cleared: true }),
            Seq::empty(),
        ),
        (ActionView::List(path), EventView::ListFailed) => Transition {
            state: EngineView { awaiting: ActionView::Failed(path), ..s },
            lines: Seq::empty(),
        },
        (ActionView::ReadAge(path), EventView::Age(reading)) => if !old_enough(
            reading,
            s.min_age_minutes,
        ) {
            resume(s, record(s.frames, false), seq![line(Outcome::FileSkippedTooYoung, path)])
        } else if s.delete_enabled {
            Transition {
                state: EngineView { awaiting: ActionView::RemoveFile(path), ..s },
                lines: Seq::empty(),
            }
        } else {
            resume(s, s.frames, seq![line(Outcome::FileDeleted, path)])
        },
        (ActionView::RemoveFile(path), EventView::Removed(ok)) => resume(
            s,
            record(s.frames, ok),
            seq![line(if ok { Outcome::FileDeleted } else { Outcome::FileDeleteFailed }, path)],
        ),
        (ActionView::RemoveDir(path), EventView::Removed(ok)) => resume(
            s,
            record(s.frames, ok),
            seq![
                line(
                    if ok { Outcome::DirectoryDeleted } else { Outcome::DirectoryDeleteFailed },
                    path,
                ),
            ],
        ),
        _ => Transition { state: s, lines: Seq::empty() },
    }
}


/// Moving on never ends in a request to remove a file, nor in a failure; it
/// ends in a request to remove a directory only if removing is enabled and
/// the innermost directory is cleared; and it leaves the engine well formed.
pub proof fn lemma_settle_awaits(delete_enabled: bool, frames: Seq<FrameView>)
    ensures
        !(settle(delete_enabled, frames).awaiting is RemoveFile),
        !(settle(delete_enabled, frames).awaiting is Failed),
        settle(delete_enabled, frames).awaiting is RemoveDir ==> delete_enabled && frames.len() > 0
            && frames.last().cleared,
        settle(delete_enabled, frames).awaiting is RemoveDir || settle(
            delete_enabled,
            frames,
        ).awaiting is ReadAge ==> settle(delete_enabled, frames).frames.len() > 0,
    decreases frames.len(),
{
    if frames.len() > 0 {
        let top = frames.last();
        let below = frames.drop_last();
        if top.rest.len() == 0 && below.len() > 0 {
            if !top.cleared {
                lemma_settle_awaits(delete_enabled, record(below, false));
            } else if !delete_enabled {
                lemma_settle_awaits(delete_enabled, below);
            }
        }
    }
}

/// The bookkeeping for one directory: its listing, and how far the walk has
/// come in it.
#[derive(Debug)]
struct Frame {
    dir: String,
    entries: Vec<Child>,
    next: usize,
    cleared: bool,
}

impl View for Frame {
    type V = FrameView;

    closed spec fn view(&self) -> FrameView {
        FrameView {
            dir: self.dir@,
            rest: if self.next <= self.entries.len() {
                self.entries.deep_view().skip(self.next as int)
            } else {
                Seq::empty()
            },
            cleared: self.cleared,
        }
    }
}

spec fn frame_views(frames: Seq<Frame>) -> Seq<FrameView> {
    Seq::new(frames.len(), |i: int| frames[i]@)
}

/// The decisions of one purge run.
#[derive(Debug)]
pub struct Engine {
    min_age_minutes: u32,
    delete_enabled: bool,
    frames: Vec<Frame>,
    awaiting: Action,
}

impl View for Engine {
    type V = EngineView;

    closed spec fn view(&self) -> EngineView {
        EngineView {
            min_age_minutes: self.min_age_minutes,
            delete_enabled: self.delete_enabled,
            frames: frame_views(self.frames@),
            awaiting: self.awaiting@,
        }
    }
}

/// What a step hands back: the engine after it, the lines to show, and the
/// action the engine now waits on.
#[derive(Debug)]
pub struct Step {
    pub engine: Engine,
    pub lines: Vec<StatusLine>,
    pub action: Action,
}

proof fn lemma_lines_push(before: Seq<StatusLine>, after: Seq<StatusLine>, added: StatusLine)
    requires
        after == before.push(added),
    ensures
        Seq::new(after.len(), |i: int| after[i].deep_view()) == Seq::new(
            before.len(),
            |i: int| before[i].deep_view(),
        ).push(added@),
{
    assert(Seq::new(after.len(), |i: int| after[i].deep_view()) =~= Seq::new(
        before.len(),
        |i: int| before[i].deep_view(),
    ).push(added@));
}

/// Folds the fate of the entry just dealt with into the innermost frame.
fn record_outcome(frames: &mut Vec<Frame>, entry_cleared: bool)
    ensures
        frame_views(final(frames)@) == record(frame_views(old(frames)@), entry_cleared),
{
    let ghost before = frames@;
    match frames.pop() {
        Some(top) => {
            let ghost below = frames@;
            let updated = Frame {
                dir: top.dir,
                entries: top.entries,
                next: top.next,
                cleared: top.cleared && entry_cleared,
            };
            frames.push(updated);
            assert(frame_views(frames@) =~= record(frame_views(before), entry_cleared));
        },
        None => {
            assert(frame_views(frames@) =~= record(frame_views(before), entry_cleared));
        },
    }
}

/// Moves on from the entry just dealt with: computes [`settle`] on the frames
/// and adds its lines to those already emitted.
#[verifier::loop_isolation(false)]
fn settle_frames(
    min_age_minutes: u32,
    delete_enabled: bool,
    open_frames: Vec<Frame>,
    emitted_lines: Vec<StatusLine>,
) -> (r: Step)
    ensures
        r.engine@ == (EngineView {
            min_age_minutes,
            delete_enabled,
            frames: settle(delete_enabled, frame_views(open_frames@)).frames,
            awaiting: settle(delete_enabled, frame_views(open_frames@)).awaiting,
        }),
        r.lines.deep_view() == emitted_lines.deep_view() + settle(
            delete_enabled,
            frame_views(open_frames@),
        ).lines,
        r.action@ == r.engine@.awaiting,
        r.engine@.wf(),
{
    let ghost goal = settle(delete_enabled, frame_views(open_frames@));
    let ghost goal_lines = emitted_lines.deep_view() + goal.lines;
    let mut frames = open_frames;
    let mut lines = emitted_lines;
    loop
        invariant
            settle(delete_enabled, frame_views(frames@)).frames == goal.frames,
            settle(delete_enabled, frame_views(frames@)).awaiting == goal.awaiting,
            lines.deep_view() + settle(delete_enabled, frame_views(frames@)).lines == goal_lines,
        decreases frames.len(),
    {
        let ghost stack = frames@;
        let ghost emitted = lines@;
        match frames.pop() {
            None => {
                assert(lines.deep_view() + Seq::<StatusLineView>::empty() =~= lines.deep_view());
                let engine = Engine {
                    min_age_minutes,
                    delete_enabled,
                    frames,
                    awaiting: Action::Done(true),
                };
                return Step { engine, lines, action: Action::Done(true) };
            },
            Some(top) => {
                assert(frame_views(stack).last() == top@);
                assert(frame_views(stack).drop_last() =~= frame_views(frames@));
                if top.next < top.entries.len() {
                    let path = top.entries[top.next].path.clone();
                    let is_dir = top.entries[top.next].is_dir;
                    let advanced = Frame {
                        dir: top.dir,
                        entries: top.entries,
                        next: top.next + 1,
                        cleared: top.cleared,
                    };
                    assert(top@.rest[0] == top.entries[top.next as int]@);
                    assert(advanced@.rest =~= top@.rest.skip(1));
                    let ghost below = frames@;
                    frames.push(advanced);
                    assert(frame_views(frames@) =~= frame_views(below).push(advanced@));
                    assert(lines.deep_view() + Seq::<StatusLineView>::empty() =~= lines.deep_view());
                    if is_dir {
                        let action = Action::List(path.clone());
                        let engine = Engine {
                            min_age_minutes,
                            delete_enabled,
                            frames,
                            awaiting: Action::List(path),
                        };
                        return Step { engine, lines, action };
                    } else {
                        let action = Action::ReadAge(path.clone());
                        let engine = Engine {
                            min_age_minutes,
                            delete_enabled,
                            frames,
                            awaiting: Action::ReadAge(path),
                        };
                        return Step { engine, lines, action };
                    }
                } else if frames.len() == 0 {
                    assert(lines.deep_view() + Seq::<StatusLineView>::empty() =~= lines.deep_view());
                    let engine = Engine {
                        min_age_minutes,
                        delete_enabled,
                        frames,
                        awaiting: Action::Done(top.cleared),
                    };
                    return Step { engine, lines, action: Action::Done(top.cleared) };
                } else if !top.cleared {
                    let ghost onward = settle(delete_enabled, record(frame_views(frames@), false));
                    let entry = StatusLine::new(Outcome::DirectoryNotEmptyEnough, top.dir);
                    lines.push(entry);
                    proof {
                        lemma_lines_push(emitted, lines@, entry);
                        assert(emitted.len() == lines@.len() - 1);
                        assert(lines.deep_view() + onward.lines =~= goal_lines);
                    }
                    record_outcome(&mut frames, false);
                } else if delete_enabled {
                    assert(lines.deep_view() + Seq::<StatusLineView>::empty() =~= lines.deep_view());
                    let action = Action::RemoveDir(top.dir.clone());
                    let engine = Engine {
                        min_age_minutes,
                        delete_enabled,
                        frames,
                        awaiting: Action::RemoveDir(top.dir),
                    };
                    return Step { engine, lines, action };
                } else {
                    let ghost onward = settle(delete_enabled, frame_views(frames@));
                    let entry = StatusLine::new(Outcome::DirectoryDeleted, top.dir);
                    lines.push(entry);
                    proof {
                        lemma_lines_push(emitted, lines@, entry);
                        assert(lines.deep_view() + onward.lines =~= goal_lines);
                    }
                }
            },
        }
    }
}

impl Engine {
    #[verifier::type_invariant]
    spec fn well_formed(self) -> bool {
        self@.wf()
    }

    /// An engine at the start of a run with the given settings.
    pub fn new(config: &Config) -> (engine: Engine)
        ensures
            engine@ == initial(config@),
            engine@.wf(),
    {
        let engine = Engine {
            min_age_minutes: config.min_age_minutes(),
            delete_enabled: config.delete_enabled(),
            frames: Vec::new(),
            awaiting: Action::List(config.root_path().clone()),
        };
        assert(engine@.frames =~= Seq::empty());
        engine
    }

    /// The action the engine is waiting on.
    pub fn awaiting(&self) -> (action: Action)
        ensures
            action@ == self@.awaiting,
            self@.wf(),
    {
        proof {
            use_type_invariant(self);
        }
        self.awaiting.duplicate()
    }

    /// The result of the run: `None` while it is under way, then whether
    /// everything was cleared away, or the path of the directory that could not
    /// be listed.
    pub fn result(&self) -> (r: Option<Result<bool, String>>)
        ensures
            match r {
                None => !self@.awaiting.is_final(),
                Some(Ok(all_cleared)) => self@.awaiting == ActionView::Done(all_cleared),
                Some(Err(path)) => self@.awaiting == ActionView::Failed(path@),
            },
    {
        match &self.awaiting {
            Action::Done(all_cleared) => Some(Ok(*all_cleared)),
            Action::Failed(path) => Some(Err(path.clone())),
            _ => None,
        }
    }

    /// Takes in how the awaited operation went, and says what is to be done
    /// next: computes [`step`].
    pub fn step(self, event: Event) -> (r: Step)
        ensures
            r.engine@ == step(self@, event@).state,
            r.lines.deep_view() == step(self@, event@).lines,
            r.action@ == r.engine@.awaiting,
            r.engine@.wf(),
    {
        proof {
            use_type_invariant(&self);
        }
        let ghost before = self@;
        let Engine { min_age_minutes, delete_enabled, frames, awaiting } = self;
        let mut frames = frames;
        let mut lines: Vec<StatusLine> = Vec::new();
        assert(lines.deep_view() =~= Seq::empty());
        match (awaiting, event) {
            (Action::List(path), Event::Listed(entries)) => {
                let ghost below = frames@;
                let opened = Frame { dir: path, entries, next: 0, cleared: true };
                assert(opened@.rest =~= entries.deep_view());
                frames.push(opened);
                assert(frame_views(frames@) =~= frame_views(below).push(opened@));
                let r = settle_frames(min_age_minutes, delete_enabled, frames, lines);
                assert(r.lines.deep_view() =~= step(before, event@).lines);
                r
            },
            (Action::List(path), Event::ListFailed) => {
                let action = Action::Failed(path.clone());
                let engine = Engine {
                    min_age_minutes,
                    delete_enabled,
                    frames,
                    awaiting: Action::Failed(path),
                };
                Step { engine, lines, action }
            },
            (Action::ReadAge(path), Event::Age(reading)) => {
                if !is_old_enough(reading, min_age_minutes) {
                    let entry = StatusLine::new(Outcome::FileSkippedTooYoung, path);
                    let ghost emitted = lines@;
                    lines.push(entry);
                    proof {
                        lemma_lines_push(emitted, lines@, entry);
                        assert(lines.deep_view() =~= seq![entry@]);
                    }
                    record_outcome(&mut frames, false);
                    settle_frames(min_age_minutes, delete_enabled, frames, lines)
                } else if delete_enabled {
                    let action = Action::RemoveFile(path.clone());
                    let engine = Engine {
                        min_age_minutes,
                        delete_enabled,
                        frames,
                        awaiting: Action::RemoveFile(path),
                    };
                    Step { engine, lines, action }
                } else {
                    let entry = StatusLine::new(Outcome::FileDeleted, path);
                    let ghost emitted = lines@;
                    lines.push(entry);
                    proof {
                        lemma_lines_push(emitted, lines@, entry);
                        assert(lines.deep_view() =~= seq![entry@]);
                    }
                    settle_frames(min_age_minutes, delete_enabled, frames, lines)
                }
            },
            (Action::RemoveFile(path), Event::Removed(ok)) => {
                let outcome = if ok {
                    Outcome::FileDeleted
                } else {
                    Outcome::FileDeleteFailed
                };
                let entry = StatusLine::new(outcome, path);
                let ghost emitted = lines@;
                lines.push(entry);
                proof {
                    lemma_lines_push(emitted, lines@, entry);
                    assert(lines.deep_view() =~= seq![entry@]);
                }
                record_outcome(&mut frames, ok);
                settle_frames(min_age_minutes, delete_enabled, frames, lines)
            },
            (Action::RemoveDir(path), Event::Removed(ok)) => {
                let outcome = if ok {
                    Outcome::DirectoryDeleted
                } else {
                    Outcome::DirectoryDeleteFailed
                };
                let entry = StatusLine::new(outcome, path);
                let ghost emitted = lines@;
                lines.push(entry);
                proof {
                    lemma_lines_push(emitted, lines@, entry);
                    assert(lines.deep_view() =~= seq![entry@]);
                }
                record_outcome(&mut frames, ok);
                settle_frames(min_age_minutes, delete_enabled, frames, lines)
            },
            (awaiting, _) => {
                let action = awaiting.duplicate();
                let engine = Engine { min_age_minutes, delete_enabled, frames, awaiting };
                Step { engine, lines, action }
            },
        }
    }
}

} // verus!
