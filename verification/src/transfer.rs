//! Walking directory trees: uploads, downloads and deletions, and the progress
//! of a copy.
//!
//! A `Walk` decides; its user performs what `next` says and reports what came
//! of it to `step`.

use vstd::prelude::*;
use crate::files;
use crate::files::FileStep;
use crate::paths;
use crate::paths::System;
use crate::text;

verus! {

/// What a walk is for.
#[derive(Debug, Clone, Copy, PartialEq, Eq, Structural)]
pub enum WalkKind {
    /// From the local side to the remote side.
    Upload,
    /// From the remote side to the local side.
    Download,
    /// Deleting on the remote side.
    Delete,
}

/// What to do next. The source and the target are those that the walk is at.
#[derive(Debug, Clone, Copy, PartialEq, Eq, Structural)]
pub enum WalkAction {
    /// Say what the source is. A deletion does not follow links.
    Stat,
    /// Create the target as a directory.
    MakeDir,
    /// List the source, a directory.
    List,
    OpenSource,
    /// Say how much of the target is there already.
    Measure,
    /// Move on in the source, to the offset.
    Seek,
    /// Open the target: to append to it where the offset is not zero, else
    /// anew.
    OpenTarget,
    /// Copy what is left of the source to the target.
    Copy,
    /// Delete the source, a file.
    Unlink,
    /// Remove the source, a directory that is empty by now.
    RemoveDir,
    Finish,
}

/// What is left to do. Paths are of the type `P`, texts of the type `S`.
#[derive(Debug)]
pub enum Task<P, S> {
    Visit { src: P, dst: P },
    RemoveDir(P),
    /// End the walk with an error.
    Fail(S),
}

/// What came of an action.
#[derive(Debug)]
pub enum WalkEvent {
    Found { is_dir: bool, size: Option<u64> },
    Done,
    Failed(String),
    /// What the directory holds, as far as it could be read: names on the
    /// local side, paths on the remote side.
    Listed { entries: Vec<Vec<u8>>, error: Option<String> },
    Measured(Option<u64>),
}

/// What a `WalkEvent` holds.
pub enum WalkEventView {
    Found { is_dir: bool, size: Option<u64> },
    Done,
    Failed(Seq<char>),
    Listed { entries: Seq<Seq<u8>>, error: Option<Seq<char>> },
    Measured(Option<u64>),
}

impl View for WalkEvent {
    type V = WalkEventView;

    open spec fn view(&self) -> WalkEventView {
        match *self {
            WalkEvent::Found { is_dir, size } => WalkEventView::Found { is_dir, size },
            WalkEvent::Done => WalkEventView::Done,
            WalkEvent::Failed(e) => WalkEventView::Failed(e@),
            WalkEvent::Listed { entries, error } => WalkEventView::Listed {
                entries: text::runs(entries@),
                error: text::opt_text(error),
            },
            WalkEvent::Measured(n) => WalkEventView::Measured(n),
        }
    }
}

/// What a task holds.
pub type TaskView = Task<Seq<u8>, Seq<char>>;

impl View for Task<Vec<u8>, String> {
    type V = TaskView;

    open spec fn view(&self) -> TaskView {
        match *self {
            Task::Visit { src, dst } => Task::Visit { src: src@, dst: dst@ },
            Task::RemoveDir(p) => Task::RemoveDir(p@),
            Task::Fail(e) => Task::Fail(e@),
        }
    }
}

/// What a list of tasks holds.
pub open spec fn task_views(v: Seq<Task<Vec<u8>, String>>) -> Seq<TaskView> {
    Seq::new(v.len(), |i: int| v[i]@)
}

/// A walk through a tree.
pub struct Walk {
    kind: WalkKind,
    sys: System,
    resume: bool,
    action: WalkAction,
    tasks: Vec<Task<Vec<u8>, String>>,
    src: Vec<u8>,
    dst: Vec<u8>,
    total: u64,
    offset: u64,
    error: Option<String>,
}

/// What a `Walk` holds.
pub struct WalkView {
    pub kind: WalkKind,
    /// How paths are written.
    pub sys: System,
    /// Whether files that are there in part are continued.
    pub resume: bool,
    pub action: WalkAction,
    /// What is left to do, the next last.
    pub tasks: Seq<TaskView>,
    /// Where the walk is.
    pub src: Seq<u8>,
    pub dst: Seq<u8>,
    /// The size of the file that the walk is at.
    pub total: u64,
    /// Where in it the copy begins.
    pub offset: u64,
    /// What the walk failed with.
    pub error: Option<Seq<char>>,
}

/// A walk that turns to its next task.
pub open spec fn turned(w: WalkView) -> WalkView {
    let n = WalkView { src: Seq::empty(), dst: Seq::empty(), total: 0, offset: 0, ..w };
    if w.tasks.len() == 0 {
        WalkView { action: WalkAction::Finish, ..n }
    } else {
        let n = WalkView { tasks: w.tasks.drop_last(), ..n };
        match w.tasks.last() {
            Task::Visit { src, dst } => WalkView { action: WalkAction::Stat, src, dst, ..n },
            Task::RemoveDir(p) => WalkView { action: WalkAction::RemoveDir, src: p, ..n },
            Task::Fail(e) => WalkView { action: WalkAction::Finish, error: Some(e), ..n },
        }
    }
}

/// A walk at its start.
pub open spec fn begun(
    sys: System,
    kind: WalkKind,
    src: Seq<u8>,
    dst: Seq<u8>,
    resume: bool,
) -> WalkView {
    WalkView {
        kind,
        sys,
        resume,
        action: WalkAction::Stat,
        tasks: Seq::empty(),
        src,
        dst,
        total: 0,
        offset: 0,
        error: None,
    }
}

/// The name under which a walk goes on to an entry of a directory. A name on
/// the local side is kept as it is; of a path on the remote side the name is
/// taken, as text.
pub open spec fn entry_name(sys: System, kind: WalkKind, entry: Seq<u8>) -> Option<Seq<u8>> {
    if kind == WalkKind::Upload {
        Some(entry)
    } else {
        match paths::name_of(sys, entry) {
            Some(n) => Some(text::utf8(paths::shown(sys, n))),
            None => None,
        }
    }
}

/// The tasks for what a directory holds, the first entry last. An entry
/// without a name is passed over.
pub open spec fn visits(
    sys: System,
    kind: WalkKind,
    src: Seq<u8>,
    dst: Seq<u8>,
    entries: Seq<Seq<u8>>,
) -> Seq<TaskView>
    decreases entries.len(),
{
    if entries.len() == 0 {
        Seq::empty()
    } else {
        let rest = visits(sys, kind, src, dst, entries.drop_first());
        match entry_name(sys, kind, entries[0]) {
            Some(name) => rest.push(
                Task::Visit {
                    src: paths::joined(sys, src, name),
                    dst: paths::joined(sys, dst, name),
                },
            ),
            None => rest,
        }
    }
}

/// The tasks that a listed directory leaves behind: to remove it in the end
/// where it is deleted, and to fail where it could not be read to its end.
pub open spec fn leftovers(kind: WalkKind, src: Seq<u8>, error: Option<Seq<char>>) -> Seq<TaskView> {
    let own = if kind == WalkKind::Delete {
        seq![Task::RemoveDir(src)]
    } else {
        Seq::empty()
    };
    match error {
        Some(e) => own.push(Task::Fail(e)),
        None => own,
    }
}

/// What was tried with which path in an action, for the words of an error.
pub open spec fn failing(w: WalkView) -> (FileStep, Seq<u8>) {
    match (w.kind, w.action) {
        (WalkKind::Upload, WalkAction::Stat) => (FileStep::Named, w.src),
        (WalkKind::Upload, WalkAction::OpenTarget) => if w.offset > 0 {
            (FileStep::Resume, w.dst)
        } else {
            (FileStep::Create, w.dst)
        },
        (WalkKind::Upload, _) => (FileStep::Plain, w.src),
        (_, WalkAction::Stat) => (FileStep::Stat, w.src),
        (_, WalkAction::List) => (FileStep::List, w.src),
        (_, WalkAction::OpenSource) => (FileStep::Open, w.src),
        (_, WalkAction::Unlink) => (FileStep::Delete, w.src),
        (_, WalkAction::RemoveDir) => (FileStep::RemoveDir, w.src),
        _ => (FileStep::Plain, w.src),
    }
}

/// A walk that failed.
pub open spec fn failed(w: WalkView, error: Seq<char>) -> WalkView {
    WalkView { action: WalkAction::Finish, error: Some(error), ..w }
}

/// Where a copy begins that continues a file of which so much is there: only
/// a part of the file is continued, anything else is copied anew.
pub open spec fn resume_at(have: Option<u64>, total: u64) -> u64 {
    if 0 < files::or_zero(have) < total {
        files::or_zero(have)
    } else {
        0
    }
}

/// A walk after one more event. An event that does not answer the action at
/// hand changes nothing.
pub open spec fn after(w: WalkView, e: WalkEventView) -> WalkView {
    match (w.action, e) {
        (WalkAction::Finish, _) => w,
        (WalkAction::MakeDir, WalkEventView::Failed(x)) => if w.kind == WalkKind::Upload {
            WalkView { action: WalkAction::List, ..w }
        } else {
            failed(w, x)
        },
        (WalkAction::Measure, WalkEventView::Failed(_)) => w,
        (_, WalkEventView::Failed(x)) => failed(
            w,
            files::file_error_text(failing(w).0, paths::shown(w.sys, failing(w).1), x),
        ),
        (WalkAction::Stat, WalkEventView::Found { is_dir, size }) => WalkView {
            action: match (w.kind, is_dir) {
                (WalkKind::Delete, true) => WalkAction::List,
                (WalkKind::Delete, false) => WalkAction::Unlink,
                (_, true) => WalkAction::MakeDir,
                (_, false) => WalkAction::OpenSource,
            },
            total: files::or_zero(size),
            ..w
        },
        (WalkAction::MakeDir, WalkEventView::Done) => WalkView { action: WalkAction::List, ..w },
        (WalkAction::List, WalkEventView::Listed { entries, error }) => turned(
            WalkView {
                tasks: w.tasks + leftovers(w.kind, w.src, error) + visits(
                    w.sys,
                    w.kind,
                    w.src,
                    w.dst,
                    entries,
                ),
                ..w
            },
        ),
        (WalkAction::OpenSource, WalkEventView::Done) => WalkView {
            action: if w.resume {
                WalkAction::Measure
            } else {
                WalkAction::OpenTarget
            },
            ..w
        },
        (WalkAction::Measure, WalkEventView::Measured(have)) => WalkView {
            action: if resume_at(have, w.total) > 0 {
                WalkAction::Seek
            } else {
                WalkAction::OpenTarget
            },
            offset: resume_at(have, w.total),
            ..w
        },
        (WalkAction::Seek, WalkEventView::Done) => WalkView { action: WalkAction::OpenTarget, ..w },
        (WalkAction::OpenTarget, WalkEventView::Done) => WalkView { action: WalkAction::Copy, ..w },
        (WalkAction::Copy, WalkEventView::Done) => turned(w),
        (WalkAction::Unlink, WalkEventView::Done) => turned(w),
        (WalkAction::RemoveDir, WalkEventView::Done) => turned(w),
        _ => w,
    }
}

fn name_of_entry(sys: System, kind: WalkKind, entry: &[u8]) -> (r: Option<Vec<u8>>)
    ensures
        text::opt_bytes(r) == entry_name(sys, kind, entry@),
{
    if kind == WalkKind::Upload {
        return Some(text::copy_bytes(entry));
    }
    match paths::file_name(sys, entry) {
        Some(n) => Some(text::bytes_of(paths::show(sys, n.as_slice()).as_str())),
        None => None,
    }
}

impl Walk {
    /// What the walk holds.
    pub closed spec fn view(&self) -> WalkView {
        WalkView {
            kind: self.kind,
            sys: self.sys,
            resume: self.resume,
            action: self.action,
            tasks: task_views(self.tasks@),
            src: self.src@,
            dst: self.dst@,
            total: self.total,
            offset: self.offset,
            error: text::opt_text(self.error),
        }
    }

    /// Begins a walk, given how paths are written.
    pub fn begin(sys: System, kind: WalkKind, src: &str, dst: &str, resume: bool) -> (r: Self)
        ensures
            r@ == begun(sys, kind, text::utf8(src@), text::utf8(dst@), resume),
    {
        let r = Walk {
            kind,
            sys,
            resume,
            action: WalkAction::Stat,
            tasks: Vec::new(),
            src: text::bytes_of(src),
            dst: text::bytes_of(dst),
            total: 0,
            offset: 0,
            error: None,
        };
        assert(r@.tasks =~= Seq::empty());
        r
    }

    /// What to do next.
    pub fn next(&self) -> (r: WalkAction)
        ensures
            r == self@.action,
    {
        self.action
    }

    /// The source that the walk is at.
    pub fn source(&self) -> (r: &[u8])
        ensures
            r@ == self@.src,
    {
        self.src.as_slice()
    }

    /// The target that the walk is at.
    pub fn target(&self) -> (r: &[u8])
        ensures
            r@ == self@.dst,
    {
        self.dst.as_slice()
    }

    /// The size of the file that the walk is at.
    pub fn total(&self) -> (r: u64)
        ensures
            r == self@.total,
    {
        self.total
    }

    /// Where in the file the copy begins.
    pub fn offset(&self) -> (r: u64)
        ensures
            r == self@.offset,
    {
        self.offset
    }

    /// What a walk that is over came to.
    pub fn result(&self) -> (r: Result<(), String>)
        ensures
            text::result_text(r) == match self@.error {
                Some(e) => Err(e),
                None => Ok(()),
            },
    {
        match &self.error {
            Some(e) => Err(e.clone()),
            None => Ok(()),
        }
    }

    fn turn(&mut self)
        ensures
            final(self)@ == turned(old(self)@),
    {
        let ghost before = self.tasks@;
        self.total = 0;
        self.offset = 0;
        self.src = Vec::new();
        self.dst = Vec::new();
        assert(self.src@ =~= Seq::<u8>::empty() && self.dst@ =~= Seq::<u8>::empty());
        match self.tasks.pop() {
            None => {
                self.action = WalkAction::Finish;
            },
            Some(t) => {
                proof {
                    assert(task_views(before).last() == t@);
                    assert(task_views(self.tasks@) =~= task_views(before).drop_last());
                }
                match t {
                    Task::Visit { src, dst } => {
                        self.action = WalkAction::Stat;
                        self.src = src;
                        self.dst = dst;
                    },
                    Task::RemoveDir(p) => {
                        self.action = WalkAction::RemoveDir;
                        self.src = p;
                    },
                    Task::Fail(e) => {
                        self.action = WalkAction::Finish;
                        self.error = Some(e);
                    },
                }
            },
        }
    }

    fn push(&mut self, t: Task<Vec<u8>, String>)
        ensures
            final(self)@ == (WalkView { tasks: old(self)@.tasks.push(t@), ..old(self)@ }),
    {
        let ghost before = self.tasks@;
        self.tasks.push(t);
        assert(task_views(self.tasks@) =~= task_views(before).push(t@));
    }

    fn list(&mut self, entries: Vec<Vec<u8>>, error: Option<String>)
        requires
            old(self)@.action == WalkAction::List,
        ensures
            final(self)@ == after(
                old(self)@,
                WalkEventView::Listed {
                    entries: text::runs(entries@),
                    error: text::opt_text(error),
                },
            ),
    {
        let ghost all = text::runs(entries@);
        let ghost was = self@;
        let ghost own = leftovers(was.kind, was.src, text::opt_text(error));
        if self.kind == WalkKind::Delete {
            let p = text::copy_bytes(self.src.as_slice());
            self.push(Task::RemoveDir(p));
        }
        if let Some(e) = error {
            self.push(Task::Fail(e));
        }
        assert(self@.tasks =~= was.tasks + own);
        let mut i: usize = entries.len();
        assert(all.skip(i as int) =~= Seq::<Seq<u8>>::empty());
        assert(self@.tasks =~= was.tasks + own + visits(
            was.sys,
            was.kind,
            was.src,
            was.dst,
            all.skip(i as int),
        ));
        while i > 0
            invariant
                i <= entries@.len(),
                all == text::runs(entries@),
                self@ == (WalkView {
                    tasks: was.tasks + own + visits(
                        was.sys,
                        was.kind,
                        was.src,
                        was.dst,
                        all.skip(i as int),
                    ),
                    ..was
                }),
            decreases i,
        {
            i -= 1;
            let ghost rest = visits(was.sys, was.kind, was.src, was.dst, all.skip(i + 1));
            proof {
                assert(all.skip(i as int).drop_first() =~= all.skip(i + 1));
                assert(all.skip(i as int)[0] == entries@[i as int]@);
            }
            if let Some(name) = name_of_entry(self.sys, self.kind, entries[i].as_slice()) {
                let src = paths::join(self.sys, self.src.as_slice(), name.as_slice());
                let dst = paths::join(self.sys, self.dst.as_slice(), name.as_slice());
                let t = Task::Visit { src, dst };
                let ghost tv = t@;
                self.push(t);
                assert((was.tasks + own + rest).push(tv) =~= was.tasks + own + rest.push(tv));
            }
        }
        assert(all.skip(0) =~= all);
        self.turn();
    }

    fn fail(&mut self, e: String)
        ensures
            final(self)@ == failed(
                old(self)@,
                files::file_error_text(
                    failing(old(self)@).0,
                    paths::shown(old(self)@.sys, failing(old(self)@).1),
                    e@,
                ),
            ),
    {
        let (step, path): (FileStep, &[u8]) = match (self.kind, self.action) {
            (WalkKind::Upload, WalkAction::Stat) => (FileStep::Named, self.src.as_slice()),
            (WalkKind::Upload, WalkAction::OpenTarget) => if self.offset > 0 {
                (FileStep::Resume, self.dst.as_slice())
            } else {
                (FileStep::Create, self.dst.as_slice())
            },
            (WalkKind::Upload, _) => (FileStep::Plain, self.src.as_slice()),
            (_, WalkAction::Stat) => (FileStep::Stat, self.src.as_slice()),
            (_, WalkAction::List) => (FileStep::List, self.src.as_slice()),
            (_, WalkAction::OpenSource) => (FileStep::Open, self.src.as_slice()),
            (_, WalkAction::Unlink) => (FileStep::Delete, self.src.as_slice()),
            (_, WalkAction::RemoveDir) => (FileStep::RemoveDir, self.src.as_slice()),
            _ => (FileStep::Plain, self.src.as_slice()),
        };
        let words = files::file_error(step, paths::show(self.sys, path).as_str(), e.as_str());
        self.error = Some(words);
        self.action = WalkAction::Finish;
    }

    /// Takes in what came of the action at hand.
    pub fn step(&mut self, e: WalkEvent)
        ensures
            final(self)@ == after(old(self)@, e@),
    {
        match (self.action, e) {
            (WalkAction::Finish, _) => {},
            (WalkAction::MakeDir, WalkEvent::Failed(x)) => if self.kind == WalkKind::Upload {
                self.action = WalkAction::List;
            } else {
                self.error = Some(x);
                self.action = WalkAction::Finish;
            },
            (WalkAction::Measure, WalkEvent::Failed(_)) => {},
            (_, WalkEvent::Failed(x)) => self.fail(x),
            (WalkAction::Stat, WalkEvent::Found { is_dir, size }) => {
                self.total = match size {
                    Some(n) => n,
                    None => 0,
                };
                self.action = match (self.kind, is_dir) {
                    (WalkKind::Delete, true) => WalkAction::List,
                    (WalkKind::Delete, false) => WalkAction::Unlink,
                    (_, true) => WalkAction::MakeDir,
                    (_, false) => WalkAction::OpenSource,
                };
            },
            (WalkAction::MakeDir, WalkEvent::Done) => self.action = WalkAction::List,
            (WalkAction::List, WalkEvent::Listed { entries, error }) => self.list(entries, error),
            (WalkAction::OpenSource, WalkEvent::Done) => {
                self.action = if self.resume {
                    WalkAction::Measure
                } else {
                    WalkAction::OpenTarget
                };
            },
            (WalkAction::Measure, WalkEvent::Measured(have)) => {
                let have: u64 = match have {
                    Some(n) => n,
                    None => 0,
                };
                if have > 0 && have < self.total {
                    self.offset = have;
                    self.action = WalkAction::Seek;
                } else {
                    self.offset = 0;
                    self.action = WalkAction::OpenTarget;
                }
            },
            (WalkAction::Seek, WalkEvent::Done) => self.action = WalkAction::OpenTarget,
            (WalkAction::OpenTarget, WalkEvent::Done) => self.action = WalkAction::Copy,
            (WalkAction::Copy, WalkEvent::Done) => self.turn(),
            (WalkAction::Unlink, WalkEvent::Done) => self.turn(),
            (WalkAction::RemoveDir, WalkEvent::Done) => self.turn(),
            _ => {},
        }
    }
}

/// Begins an upload.
pub fn upload_path(src: &str, dst: &str, resume: bool) -> (r: Walk)
    ensures
        r@ == begun(r@.sys, WalkKind::Upload, text::utf8(src@), text::utf8(dst@), resume),
{
    Walk::begin(paths::system(), WalkKind::Upload, src, dst, resume)
}

/// Begins a download.
pub fn download_path(src: &str, dst: &str, resume: bool) -> (r: Walk)
    ensures
        r@ == begun(r@.sys, WalkKind::Download, text::utf8(src@), text::utf8(dst@), resume),
{
    Walk::begin(paths::system(), WalkKind::Download, src, dst, resume)
}

/// Begins to delete a remote path, with all that is in it.
pub fn delete_remote(path: &str) -> (r: Walk)
    ensures
        r@ == begun(r@.sys, WalkKind::Delete, text::utf8(path@), Seq::empty(), false),
{
    proof {
        reveal_strlit("");
        assert(""@ =~= Seq::<char>::empty());
        assert(text::utf8(""@) =~= Seq::<u8>::empty());
    }
    Walk::begin(paths::system(), WalkKind::Delete, path, "", false)
}

// ---------- laws ----------

/// A copy continues a file only where a part of the file is there, and then
/// right behind that part.
pub proof fn law_only_a_part_is_continued(w: WalkView, have: Option<u64>)
    requires
        w.action == WalkAction::Measure,
    ensures
        after(w, WalkEventView::Measured(have)).offset > 0 <==> 0 < files::or_zero(have) < w.total,
        after(w, WalkEventView::Measured(have)).offset > 0 ==> have == Some(
            after(w, WalkEventView::Measured(have)).offset,
        ),
{
}

/// Where it was not asked to continue, a walk does not even look how much of
/// a target is there.
pub proof fn law_nothing_is_continued_unasked(w: WalkView, e: WalkEventView)
    requires
        !w.resume,
        w.action != WalkAction::Measure,
    ensures
        after(w, e).action != WalkAction::Measure,
        !after(w, e).resume,
{
}

/// An upload goes on under the very names that the local directory gives,
/// whether they are text or not.
pub proof fn law_an_upload_keeps_names(
    sys: System,
    src: Seq<u8>,
    dst: Seq<u8>,
    names: Seq<Seq<u8>>,
    i: int,
)
    requires
        0 <= i < names.len(),
    ensures
        visits(sys, WalkKind::Upload, src, dst, names).len() == names.len(),
        visits(sys, WalkKind::Upload, src, dst, names)[names.len() - 1 - i] == (TaskView::Visit {
            src: paths::joined(sys, src, names[i]),
            dst: paths::joined(sys, dst, names[i]),
        }),
    decreases names.len(),
{
    let rest = names.drop_first();
    if rest.len() > 0 {
        law_an_upload_keeps_names(sys, src, dst, rest, if i > 0 {
            i - 1
        } else {
            0
        });
    } else {
        assert(visits(sys, WalkKind::Upload, src, dst, rest).len() == 0);
    }
}

/// A world that a walk goes through: what a directory holds, or that a path is
/// none; how large a file is; and how much of a target is there.
pub struct World {
    pub dir: spec_fn(Seq<u8>) -> Option<Seq<Seq<u8>>>,
    pub size: spec_fn(Seq<u8>) -> Option<u64>,
    pub have: spec_fn(Seq<u8>) -> Option<u64>,
}

/// What comes of the action at hand in a world where nothing fails.
pub open spec fn reply(world: World, w: WalkView) -> WalkEventView {
    match w.action {
        WalkAction::Stat => WalkEventView::Found {
            is_dir: (world.dir)(w.src) is Some,
            size: (world.size)(w.src),
        },
        WalkAction::List => WalkEventView::Listed {
            entries: match (world.dir)(w.src) {
                Some(es) => es,
                None => Seq::empty(),
            },
            error: None,
        },
        WalkAction::Measure => WalkEventView::Measured((world.have)(w.dst)),
        _ => WalkEventView::Done,
    }
}

/// A walk after `n` steps through a world where nothing fails.
pub open spec fn walked(world: World, w: WalkView, n: nat) -> WalkView
    decreases n,
{
    if n == 0 {
        w
    } else {
        walked(world, after(w, reply(world, w)), (n - 1) as nat)
    }
}

/// Something that a walk does to the target or, deleting, to the source.
pub struct Deed {
    pub action: WalkAction,
    pub src: Seq<u8>,
    /// Empty where something is deleted.
    pub dst: Seq<u8>,
}

/// What a walk does in one step.
pub open spec fn deed(w: WalkView) -> Seq<Deed> {
    match w.action {
        WalkAction::MakeDir => seq![Deed { action: w.action, src: w.src, dst: w.dst }],
        WalkAction::Copy => seq![Deed { action: w.action, src: w.src, dst: w.dst }],
        WalkAction::Unlink => seq![Deed { action: w.action, src: w.src, dst: Seq::empty() }],
        WalkAction::RemoveDir => seq![Deed { action: w.action, src: w.src, dst: Seq::empty() }],
        _ => Seq::empty(),
    }
}

/// What a walk does in `n` steps.
pub open spec fn deeds(world: World, w: WalkView, n: nat) -> Seq<Deed>
    decreases n,
{
    if n == 0 {
        Seq::empty()
    } else {
        deed(w) + deeds(world, after(w, reply(world, w)), (n - 1) as nat)
    }
}

/// Whether the tree at a path is at most `d` directories deep.
pub open spec fn shallow(sys: System, kind: WalkKind, world: World, src: Seq<u8>, d: nat) -> bool
    decreases d,
{
    match (world.dir)(src) {
        None => true,
        Some(es) => d > 0 && forall|i: int|
            0 <= i < es.len() && entry_name(sys, kind, #[trigger] es[i]) is Some ==> shallow(
                sys, kind,
                world,
                paths::joined(sys, src, entry_name(sys, kind, es[i])->Some_0),
                (d - 1) as nat,
            ),
    }
}

/// What is to be done with the tree at a path: a directory is made before what
/// it holds is copied, and removed after what it holds is deleted.
pub open spec fn duties(
    sys: System,
    kind: WalkKind,
    world: World,
    src: Seq<u8>,
    dst: Seq<u8>,
    d: nat,
) -> Seq<Deed>
    decreases d, 0nat,
{
    match (world.dir)(src) {
        None => if kind == WalkKind::Delete {
            seq![Deed { action: WalkAction::Unlink, src, dst: Seq::empty() }]
        } else {
            seq![Deed { action: WalkAction::Copy, src, dst }]
        },
        Some(es) => if d == 0 {
            Seq::empty()
        } else if kind == WalkKind::Delete {
            duties_within(sys, kind, world, src, dst, es, (d - 1) as nat) + seq![
                Deed { action: WalkAction::RemoveDir, src, dst: Seq::empty() },
            ]
        } else {
            seq![Deed { action: WalkAction::MakeDir, src, dst }] + duties_within(
                sys,
                kind,
                world,
                src,
                dst,
                es,
                (d - 1) as nat,
            )
        },
    }
}

/// What is to be done with the entries of a directory, one after the other.
pub open spec fn duties_within(
    sys: System,
    kind: WalkKind,
    world: World,
    src: Seq<u8>,
    dst: Seq<u8>,
    entries: Seq<Seq<u8>>,
    d: nat,
) -> Seq<Deed>
    decreases d, entries.len() + 1,
{
    if entries.len() == 0 {
        Seq::empty()
    } else {
        let rest = duties_within(sys, kind, world, src, dst, entries.drop_first(), d);
        match entry_name(sys, kind, entries[0]) {
            Some(name) => duties(
                sys,
                kind,
                world,
                paths::joined(sys, src, name),
                paths::joined(sys, dst, name),
                d,
            ) + rest,
            None => rest,
        }
    }
}

proof fn lemma_compose(world: World, w: WalkView, a: nat, b: nat)
    ensures
        walked(world, w, a + b) == walked(world, walked(world, w, a), b),
        deeds(world, w, a + b) == deeds(world, w, a) + deeds(world, walked(world, w, a), b),
    decreases a,
{
    if a == 0 {
        assert(deeds(world, w, a) + deeds(world, w, b) =~= deeds(world, w, b));
    } else {
        let v = after(w, reply(world, w));
        lemma_compose(world, v, (a - 1) as nat, b);
        assert((a + b - 1) as nat == (a - 1) as nat + b);
        assert(deeds(world, w, a + b) =~= deeds(world, w, a) + deeds(
            world,
            walked(world, w, a),
            b,
        ));
    }
}

proof fn lemma_one(world: World, w: WalkView)
    ensures
        walked(world, w, 1) == after(w, reply(world, w)),
        deeds(world, w, 1) == deed(w),
{
    reveal_with_fuel(walked, 2);
    reveal_with_fuel(deeds, 2);
    assert(deeds(world, w, 1) =~= deed(w));
}

proof fn lemma_file(world: World, w: WalkView) -> (n: nat)
    requires
        w.action == WalkAction::Stat,
        (world.dir)(w.src) is None,
    ensures
        walked(world, w, n) == turned(w),
        deeds(world, w, n) == duties(w.sys, w.kind, world, w.src, w.dst, 0),
{
    let w1 = after(w, reply(world, w));
    lemma_one(world, w);
    let w2 = after(w1, reply(world, w1));
    lemma_one(world, w1);
    lemma_compose(world, w, 1, 1);
    if w.kind == WalkKind::Delete {
        assert(w2 == turned(w));
        assert(deeds(world, w, 2) =~= duties(w.sys, w.kind, world, w.src, w.dst, 0));
        2
    } else {
        let w3 = after(w2, reply(world, w2));
        lemma_one(world, w2);
        lemma_compose(world, w, 2, 1);
        let w4 = after(w3, reply(world, w3));
        lemma_one(world, w3);
        lemma_compose(world, w, 3, 1);
        if !w.resume {
            assert(w4 == turned(w));
            assert(deeds(world, w, 4) =~= duties(w.sys, w.kind, world, w.src, w.dst, 0));
            4
        } else {
            let w5 = after(w4, reply(world, w4));
            lemma_one(world, w4);
            lemma_compose(world, w, 4, 1);
            if w3.action == WalkAction::OpenTarget {
                assert(w5 == turned(w));
                assert(deeds(world, w, 5) =~= duties(w.sys, w.kind, world, w.src, w.dst, 0));
                5
            } else {
                let w6 = after(w5, reply(world, w5));
                lemma_one(world, w5);
                lemma_compose(world, w, 5, 1);
                assert(w6 == turned(w));
                assert(deeds(world, w, 6) =~= duties(w.sys, w.kind, world, w.src, w.dst, 0));
                6
            }
        }
    }
}

proof fn lemma_entries(
    world: World,
    w: WalkView,
    src: Seq<u8>,
    dst: Seq<u8>,
    entries: Seq<Seq<u8>>,
    d: nat,
) -> (n: nat)
    requires
        forall|i: int|
            0 <= i < entries.len() && entry_name(w.sys, w.kind, #[trigger] entries[i]) is Some ==> shallow(
                w.sys, w.kind,
                world,
                paths::joined(w.sys, src, entry_name(w.sys, w.kind, entries[i])->Some_0),
                d,
            ),
    ensures
        walked(
            world,
            turned(WalkView { tasks: w.tasks + visits(w.sys, w.kind, src, dst, entries), ..w }),
            n,
        ) == turned(w),
        deeds(
            world,
            turned(WalkView { tasks: w.tasks + visits(w.sys, w.kind, src, dst, entries), ..w }),
            n,
        ) == duties_within(w.sys, w.kind, world, src, dst, entries, d),
    decreases d, entries.len() + 1,
{
    let all = WalkView { tasks: w.tasks + visits(w.sys, w.kind, src, dst, entries), ..w };
    if entries.len() == 0 {
        assert(all.tasks =~= w.tasks);
        0
    } else {
        let rest = entries.drop_first();
        let others = WalkView { tasks: w.tasks + visits(w.sys, w.kind, src, dst, rest), ..w };
        assert forall|i: int|
            0 <= i < rest.len() && entry_name(w.sys, w.kind, #[trigger] rest[i]) is Some implies shallow(
            w.sys, w.kind,
            world,
            paths::joined(w.sys, src, entry_name(w.sys, w.kind, rest[i])->Some_0),
            d,
        ) by {
            assert(rest[i] == entries[i + 1]);
        }
        let b = lemma_entries(world, w, src, dst, rest, d);
        match entry_name(w.sys, w.kind, entries[0]) {
            Some(name) => {
                let v = turned(all);
                assert(all.tasks.drop_last() =~= others.tasks);
                assert(all.tasks.last() == visits(w.sys, w.kind, src, dst, entries).last());
                assert(v.action == WalkAction::Stat && v.src == paths::joined(w.sys, src, name));
                let a = lemma_tree(world, v, d);
                assert(turned(v) == turned(others));
                lemma_compose(world, v, a, b);
                a + b
            },
            None => {
                assert(all.tasks =~= others.tasks);
                b
            },
        }
    }
}

proof fn lemma_tree(world: World, w: WalkView, d: nat) -> (n: nat)
    requires
        w.action == WalkAction::Stat,
        shallow(w.sys, w.kind, world, w.src, d),
    ensures
        walked(world, w, n) == turned(w),
        deeds(world, w, n) == duties(w.sys, w.kind, world, w.src, w.dst, d),
    decreases d, 0nat,
{
    match (world.dir)(w.src) {
        None => lemma_file(world, w),
        Some(es) => {
            let w1 = after(w, reply(world, w));
            lemma_one(world, w);
            let below = (d - 1) as nat;
            if w.kind == WalkKind::Delete {
                let left = WalkView { tasks: w.tasks.push(Task::RemoveDir(w.src)), ..w1 };
                let listed = after(w1, reply(world, w1));
                lemma_one(world, w1);
                lemma_compose(world, w, 1, 1);
                assert(w.tasks + leftovers(w.kind, w.src, None) =~= left.tasks);
                let k = lemma_entries(world, left, w.src, w.dst, es, below);
                lemma_compose(world, w, 2, k);
                let last = turned(left);
                assert(left.tasks.drop_last() =~= w.tasks);
                lemma_one(world, last);
                lemma_compose(world, w, 2 + k, 1);
                assert(after(last, reply(world, last)) == turned(w));
                assert(deeds(world, w, 2 + k + 1) =~= duties(w.sys, w.kind, world, w.src, w.dst, d));
                2 + k + 1
            } else {
                let w2 = after(w1, reply(world, w1));
                lemma_one(world, w1);
                lemma_compose(world, w, 1, 1);
                lemma_one(world, w2);
                lemma_compose(world, w, 2, 1);
                assert(w.tasks + leftovers(w.kind, w.src, None) =~= w.tasks);
                let k = lemma_entries(world, w2, w.src, w.dst, es, below);
                lemma_compose(world, w, 3, k);
                assert(turned(w2) == turned(w));
                assert(deeds(world, w, 3 + k) =~= duties(w.sys, w.kind, world, w.src, w.dst, d));
                3 + k
            }
        },
    }
}

/// A walk covers its tree: where nothing fails it ends without an error, having
/// done just what is to be done, in order. Every file of the tree is copied or
/// deleted once, a directory is made before its entries are copied, and it is
/// removed after its entries are deleted.
pub proof fn law_a_walk_covers_the_tree(
    sys: System,
    kind: WalkKind,
    world: World,
    src: Seq<u8>,
    dst: Seq<u8>,
    resume: bool,
    d: nat,
)
    requires
        shallow(sys, kind, world, src, d),
    ensures
        exists|n: nat|
            {
                let end = #[trigger] walked(world, begun(sys, kind, src, dst, resume), n);
                &&& end.action == WalkAction::Finish
                &&& end.error is None
                &&& deeds(world, begun(sys, kind, src, dst, resume), n) == duties(
                    sys,
                    kind,
                    world,
                    src,
                    dst,
                    d,
                )
            },
{
    let n = lemma_tree(world, begun(sys, kind, src, dst, resume), d);
    let end = walked(world, begun(sys, kind, src, dst, resume), n);
    assert(end.action == WalkAction::Finish);
}

/// The state of a walk after a number of events.
pub open spec fn run(w: WalkView, events: Seq<WalkEventView>) -> WalkView
    decreases events.len(),
{
    if events.len() == 0 {
        w
    } else {
        after(run(w, events.drop_last()), events.last())
    }
}

/// A walk that is over stays as it is: nothing is done after an error.
pub proof fn law_a_finished_walk_stays(w: WalkView, events: Seq<WalkEventView>)
    requires
        w.action == WalkAction::Finish,
    ensures
        run(w, events) == w,
    decreases events.len(),
{
    if events.len() > 0 {
        law_a_finished_walk_stays(w, events.drop_last());
    }
}

/// A download or a deletion goes on under just the name of each entry that the
/// server lists, whatever stands before it in the entry's path: there are as
/// many tasks as such entries, each with that name below the source and below
/// the target, and the first entry comes first.
pub proof fn law_every_remote_entry_is_visited(
    sys: System,
    kind: WalkKind,
    src: Seq<u8>,
    dst: Seq<u8>,
    stems: Seq<Seq<u8>>,
    names: Seq<Seq<char>>,
    i: int,
)
    requires
        kind != WalkKind::Upload,
        stems.len() == names.len(),
        0 <= i < names.len(),
        forall|j: int|
            0 <= j < names.len() ==> paths::is_plain(sys, text::utf8(#[trigger] names[j])),
        forall|j: int|
            0 <= j < names.len() ==> paths::leads_to(
                sys,
                stems[j],
                text::utf8(#[trigger] names[j]),
            ),
    ensures
        ({
            let entries = Seq::new(names.len(), |j: int| stems[j] + text::utf8(names[j]));
            let tasks = visits(sys, kind, src, dst, entries);
            &&& tasks.len() == names.len()
            &&& tasks[names.len() - 1 - i] == (TaskView::Visit {
                src: paths::joined(sys, src, text::utf8(names[i])),
                dst: paths::joined(sys, dst, text::utf8(names[i])),
            })
        }),
    decreases names.len(),
{
    let entries = Seq::new(names.len(), |j: int| stems[j] + text::utf8(names[j]));
    let (ns, ss) = (names.drop_first(), stems.drop_first());
    let rest = Seq::new(ns.len(), |j: int| ss[j] + text::utf8(ns[j]));
    assert(entries.drop_first() =~= rest);
    assert forall|j: int| 0 <= j < ns.len() implies paths::is_plain(
        sys,
        text::utf8(#[trigger] ns[j]),
    ) && paths::leads_to(sys, ss[j], text::utf8(ns[j])) by {
        assert(ns[j] == names[j + 1]);
    }
    let name = text::utf8(names[0]);
    paths::law_what_follows_the_separator_is_the_name(sys, stems[0], name);
    paths::law_a_text_path_shows_as_it_is(sys, names[0]);
    assert(entries[0] == stems[0] + name);
    if ns.len() > 0 {
        law_every_remote_entry_is_visited(sys, kind, src, dst, ss, ns, if i > 0 {
            i - 1
        } else {
            0
        });
    } else {
        assert(visits(sys, kind, src, dst, rest).len() == 0);
    }
}

/// Whatever an entry's path is, its name decides: an entry with one is visited
/// under that name, as it shows, below the source and below the target, before
/// the entries behind it; and one without is passed over.
pub proof fn law_an_entry_is_visited_under_its_name(
    sys: System,
    kind: WalkKind,
    src: Seq<u8>,
    dst: Seq<u8>,
    entry: Seq<u8>,
    rest: Seq<Seq<u8>>,
)
    requires
        kind != WalkKind::Upload,
    ensures
        ({
            let tasks = visits(sys, kind, src, dst, seq![entry] + rest);
            let others = visits(sys, kind, src, dst, rest);
            match paths::name_of(sys, entry) {
                Some(n) => tasks == others.push(
                    TaskView::Visit {
                        src: paths::joined(sys, src, text::utf8(paths::shown(sys, n))),
                        dst: paths::joined(sys, dst, text::utf8(paths::shown(sys, n))),
                    },
                ),
                None => tasks == others,
            }
        }),
{
    assert((seq![entry] + rest).drop_first() =~= rest);
}

/// An entry without a name, such as the directory above, is passed over in a
/// download or a deletion.
pub proof fn law_the_directory_above_is_passed_over(
    kind: WalkKind,
    src: Seq<u8>,
    dst: Seq<u8>,
    dir: Seq<u8>,
    rest: Seq<Seq<u8>>,
)
    requires
        kind != WalkKind::Upload,
    ensures
        visits(System::Unix, kind, src, dst, seq![dir.push(0x2f) + paths::dot_dot()] + rest)
            == visits(System::Unix, kind, src, dst, rest),
{
    paths::law_some_paths_have_no_name(dir);
    let all = seq![dir.push(0x2f) + paths::dot_dot()] + rest;
    assert(all.drop_first() =~= rest);
}

/// A walk begins by looking at what it was given, with nothing else to do.
pub proof fn law_a_walk_begins_at_the_top(
    sys: System,
    kind: WalkKind,
    src: Seq<u8>,
    dst: Seq<u8>,
    resume: bool,
)
    ensures
        ({
            let w = begun(sys, kind, src, dst, resume);
            &&& w.action == WalkAction::Stat
            &&& w.kind == kind
            &&& w.sys == sys
            &&& w.resume == resume
            &&& w.src == src
            &&& w.dst == dst
            &&& w.tasks.len() == 0
            &&& w.error is None
        }),
{
}

/// What was found decides: a directory is made on the other side before it is
/// listed, a file is opened to be copied; in a deletion a directory is listed
/// and a file removed at once. A size that is not known counts as none.
pub proof fn law_directories_and_files_part_ways(w: WalkView, size: Option<u64>)
    requires
        w.action == WalkAction::Stat,
    ensures
        ({
            let total = match size {
                Some(n) => n,
                None => 0,
            };
            let dir = after(w, WalkEventView::Found { is_dir: true, size });
            let file = after(w, WalkEventView::Found { is_dir: false, size });
            &&& w.kind == WalkKind::Delete ==> dir == (WalkView {
                action: WalkAction::List,
                total,
                ..w
            })
            &&& w.kind == WalkKind::Delete ==> file == (WalkView {
                action: WalkAction::Unlink,
                total,
                ..w
            })
            &&& w.kind != WalkKind::Delete ==> dir == (WalkView {
                action: WalkAction::MakeDir,
                total,
                ..w
            })
            &&& w.kind != WalkKind::Delete ==> file == (WalkView {
                action: WalkAction::OpenSource,
                total,
                ..w
            })
        }),
{
}

/// A directory that was made is listed. An upload goes on where it could not
/// be made, since it may be there already; a download ends with the error.
pub proof fn law_an_upload_goes_on_into_a_directory(w: WalkView, error: Seq<char>)
    requires
        w.action == WalkAction::MakeDir,
    ensures
        after(w, WalkEventView::Done) == (WalkView { action: WalkAction::List, ..w }),
        w.kind == WalkKind::Upload ==> after(w, WalkEventView::Failed(error)) == (WalkView {
            action: WalkAction::List,
            ..w
        }),
        w.kind != WalkKind::Upload ==> after(w, WalkEventView::Failed(error)) == (WalkView {
            action: WalkAction::Finish,
            error: Some(error),
            ..w
        }),
{
}

/// A file is copied from its beginning unless it is to be continued. Then the
/// target is measured: where it holds a part, and no more than that, the copy
/// goes on behind it, and else it starts anew.
pub proof fn law_a_copy_goes_on_where_it_stopped(w: WalkView, have: Option<u64>)
    ensures
        w.action == WalkAction::OpenSource && w.resume ==> after(w, WalkEventView::Done) == (
        WalkView { action: WalkAction::Measure, ..w }),
        w.action == WalkAction::OpenSource && !w.resume ==> after(w, WalkEventView::Done) == (
        WalkView { action: WalkAction::OpenTarget, ..w }),
        w.action == WalkAction::Measure && have is Some && 0 < have->Some_0 < w.total ==> after(
            w,
            WalkEventView::Measured(have),
        ) == (WalkView { action: WalkAction::Seek, offset: have->Some_0, ..w }),
        w.action == WalkAction::Measure && (have is None || have->Some_0 == 0 || have->Some_0
            >= w.total) ==> after(w, WalkEventView::Measured(have)) == (WalkView {
            action: WalkAction::OpenTarget,
            offset: 0,
            ..w
        }),
        w.action == WalkAction::Seek ==> after(w, WalkEventView::Done) == (WalkView {
            action: WalkAction::OpenTarget,
            ..w
        }),
        w.action == WalkAction::OpenTarget ==> after(w, WalkEventView::Done) == (WalkView {
            action: WalkAction::Copy,
            ..w
        }),
{
}

/// With one thing done, the task that came last is next: a path is looked at,
/// an emptied directory removed, an error reported; and a walk with nothing
/// left has ended well.
pub proof fn law_the_last_task_is_next(w: WalkView)
    requires
        w.action == WalkAction::Copy || w.action == WalkAction::Unlink || w.action
            == WalkAction::RemoveDir,
    ensures
        ({
            let n = after(w, WalkEventView::Done);
            &&& n.kind == w.kind && n.sys == w.sys && n.resume == w.resume
            &&& n.total == 0 && n.offset == 0
            &&& w.tasks.len() == 0 ==> n.action == WalkAction::Finish && n.error == w.error
                && n.tasks == w.tasks
            &&& w.tasks.len() > 0 ==> n.tasks == w.tasks.drop_last() && match w.tasks.last() {
                Task::Visit { src, dst } => n.action == WalkAction::Stat && n.src == src && n.dst
                    == dst && n.error == w.error,
                Task::RemoveDir(p) => n.action == WalkAction::RemoveDir && n.src == p && n.error
                    == w.error,
                Task::Fail(e) => n.action == WalkAction::Finish && n.error == Some(e),
            }
        }),
{
}

/// Where a directory holds nothing to visit, a deletion removes it at once, any
/// other walk goes on with its next task, and an error of the listing ends the
/// walk.
pub proof fn law_an_empty_directory_is_done(w: WalkView, error: Seq<char>)
    requires
        w.action == WalkAction::List,
    ensures
        ({
            let none = Seq::<Seq<u8>>::empty();
            let n = after(w, WalkEventView::Listed { entries: none, error: None });
            let f = after(w, WalkEventView::Listed { entries: none, error: Some(error) });
            &&& f.action == WalkAction::Finish && f.error == Some(error)
            &&& w.kind == WalkKind::Delete ==> n.action == WalkAction::RemoveDir && n.src == w.src
                && n.tasks == w.tasks
            &&& w.kind != WalkKind::Delete && w.tasks.len() == 0 ==> n.action == WalkAction::Finish
                && n.error == w.error
            &&& w.kind != WalkKind::Delete && w.tasks.len() > 0 ==> n.tasks == w.tasks.drop_last()
                && match w.tasks.last() {
                Task::Visit { src, dst } => n.action == WalkAction::Stat && n.src == src && n.dst
                    == dst,
                Task::RemoveDir(p) => n.action == WalkAction::RemoveDir && n.src == p,
                Task::Fail(e) => n.action == WalkAction::Finish && n.error == Some(e),
            }
        }),
{
    let none = Seq::<Seq<u8>>::empty();
    let v = visits(w.sys, w.kind, w.src, w.dst, none);
    assert(v =~= Seq::empty());
    let own = leftovers(w.kind, w.src, None);
    let bad = leftovers(w.kind, w.src, Some(error));
    assert(w.tasks + own + v =~= w.tasks + own);
    assert((w.tasks + bad + v).last() == TaskView::Fail(error));
    if w.kind == WalkKind::Delete {
        assert((w.tasks + own).drop_last() =~= w.tasks);
        assert((w.tasks + own).last() == TaskView::RemoveDir(w.src));
    } else {
        assert(w.tasks + own =~= w.tasks);
    }
}

/// What a directory holds comes before everything that was still to do: the
/// first of its tasks is next, and the others follow it. Only when they are
/// done, an error of the listing ends the walk, or a directory that is deleted
/// is removed.
pub proof fn law_a_directory_is_walked_before_the_rest(
    w: WalkView,
    entries: Seq<Seq<u8>>,
    error: Option<Seq<char>>,
)
    requires
        w.action == WalkAction::List,
        visits(w.sys, w.kind, w.src, w.dst, entries).len() > 0,
    ensures
        ({
            let v = visits(w.sys, w.kind, w.src, w.dst, entries);
            let n = after(w, WalkEventView::Listed { entries, error });
            let own = if w.kind == WalkKind::Delete {
                w.tasks.push(TaskView::RemoveDir(w.src))
            } else {
                w.tasks
            };
            let older = match error {
                Some(e) => own.push(TaskView::Fail(e)),
                None => own,
            };
            &&& n.tasks == older + v.drop_last()
            &&& v.last() is Visit
            &&& n.action == WalkAction::Stat
            &&& n.src == v.last()->src
            &&& n.dst == v.last()->dst
            &&& n.total == 0 && n.offset == 0
            &&& n.error == w.error
        }),
{
    let v = visits(w.sys, w.kind, w.src, w.dst, entries);
    lemma_only_visits(w.sys, w.kind, w.src, w.dst, entries);
    let own = if w.kind == WalkKind::Delete {
        w.tasks.push(TaskView::RemoveDir(w.src))
    } else {
        w.tasks
    };
    let older = match error {
        Some(e) => own.push(TaskView::Fail(e)),
        None => own,
    };
    let all = w.tasks + leftovers(w.kind, w.src, error) + v;
    assert(w.tasks + leftovers(w.kind, w.src, error) =~= older);
    assert(all.drop_last() =~= older + v.drop_last());
}

proof fn lemma_only_visits(
    sys: System,
    kind: WalkKind,
    src: Seq<u8>,
    dst: Seq<u8>,
    entries: Seq<Seq<u8>>,
)
    ensures
        visits(sys, kind, src, dst, entries).len() > 0 ==> visits(
            sys,
            kind,
            src,
            dst,
            entries,
        ).last() is Visit,
    decreases entries.len(),
{
    if entries.len() > 0 {
        lemma_only_visits(sys, kind, src, dst, entries.drop_first());
    }
}

/// A step that fails ends the walk, and the error says what could not be done
/// with which path.
pub proof fn law_a_failed_step_ends_the_walk(w: WalkView, error: Seq<char>)
    requires
        w.action != WalkAction::Finish,
        w.action != WalkAction::MakeDir,
        w.action != WalkAction::Measure,
    ensures
        ({
            let n = after(w, WalkEventView::Failed(error));
            let src = paths::shown(w.sys, w.src);
            let dst = paths::shown(w.sys, w.dst);
            let up = w.kind == WalkKind::Upload;
            let e = n.error->Some_0;
            &&& n == (WalkView { action: WalkAction::Finish, error: Some(e), ..w })
            &&& up && w.action == WalkAction::Stat ==> e == src + ": "@ + error
            &&& up && w.action == WalkAction::OpenTarget && w.offset == 0 ==> e
                == "cannot create "@ + dst + ": "@ + error
            &&& up && w.action == WalkAction::OpenTarget && w.offset > 0 ==> e
                == "cannot resume "@ + dst + ": "@ + error
            &&& up && w.action != WalkAction::Stat && w.action != WalkAction::OpenTarget ==> e
                == error
            &&& !up && w.action == WalkAction::Stat ==> e == "cannot stat "@ + src + ": "@ + error
            &&& !up && w.action == WalkAction::List ==> e == "cannot list "@ + src + ": "@ + error
            &&& !up && w.action == WalkAction::OpenSource ==> e == "cannot open "@ + src + ": "@
                + error
            &&& !up && w.action == WalkAction::Unlink ==> e == "cannot delete "@ + src + ": "@
                + error
            &&& !up && w.action == WalkAction::RemoveDir ==> e == "cannot remove dir "@ + src
                + ": "@ + error
            &&& !up && (w.action == WalkAction::Seek || w.action == WalkAction::OpenTarget
                || w.action == WalkAction::Copy) ==> e == error
        }),
{
}

/// Whether an event can come of an action.
pub open spec fn comes_of(a: WalkAction, e: WalkEventView) -> bool {
    match e {
        WalkEventView::Found { .. } => a == WalkAction::Stat,
        WalkEventView::Listed { .. } => a == WalkAction::List,
        WalkEventView::Measured(_) => a == WalkAction::Measure,
        WalkEventView::Failed(_) => a != WalkAction::Measure && a != WalkAction::Finish,
        WalkEventView::Done => a != WalkAction::Stat && a != WalkAction::List && a
            != WalkAction::Measure && a != WalkAction::Finish,
    }
}

/// An event that cannot come of the action at hand changes nothing, and no
/// event changes what a walk is for.
pub proof fn law_a_walk_keeps_its_purpose(w: WalkView, e: WalkEventView)
    ensures
        !comes_of(w.action, e) ==> after(w, e) == w,
        after(w, e).kind == w.kind,
        after(w, e).sys == w.sys,
        after(w, e).resume == w.resume,
{
}

/// An event stands for what it says, and a task for its paths.
pub proof fn law_an_event_stands_for_what_it_says(e: WalkEvent, t: Task<Vec<u8>, String>)
    ensures
        match e {
            WalkEvent::Found { is_dir, size } => e@ == (WalkEventView::Found { is_dir, size }),
            WalkEvent::Done => e@ == WalkEventView::Done,
            WalkEvent::Failed(x) => e@ == WalkEventView::Failed(x@),
            WalkEvent::Listed { entries, error } => e@ == (WalkEventView::Listed {
                entries: text::runs(entries@),
                error: text::opt_text(error),
            }),
            WalkEvent::Measured(n) => e@ == WalkEventView::Measured(n),
        },
        match t {
            Task::Visit { src, dst } => t@ == (TaskView::Visit { src: src@, dst: dst@ }),
            Task::RemoveDir(p) => t@ == TaskView::RemoveDir(p@),
            Task::Fail(x) => t@ == TaskView::Fail(x@),
        },
{
}

} // verus!
