//! Copying a file while telling how far it has come.

use vstd::prelude::*;
use crate::text;
use crate::waits;

verus! {

/// What to do next.
#[derive(Debug, Clone, Copy, PartialEq, Eq, Structural)]
pub enum CopyAction {
    /// Read a chunk.
    Read,
    /// Write the chunk that was read.
    Write,
    /// Say how many milliseconds have passed since the last report.
    CheckClock,
    /// Report, and count the time from now on.
    Report,
    /// Report for the last time.
    LastReport,
    Finish,
}

/// What came of an action.
#[derive(Debug)]
pub enum CopyEvent {
    /// So many bytes were read; none at the end of the file.
    Read(usize),
    Done,
    Elapsed(u64),
    Failed(String),
}

/// What a `CopyEvent` holds.
pub enum CopyEventView {
    Read(nat),
    Done,
    Elapsed(u64),
    Failed(Seq<char>),
}

impl View for CopyEvent {
    type V = CopyEventView;

    open spec fn view(&self) -> CopyEventView {
        match *self {
            CopyEvent::Read(n) => CopyEventView::Read(n as nat),
            CopyEvent::Done => CopyEventView::Done,
            CopyEvent::Elapsed(ms) => CopyEventView::Elapsed(ms),
            CopyEvent::Failed(e) => CopyEventView::Failed(e@),
        }
    }
}

/// How far a transfer has come.
#[derive(Debug)]
pub struct Progress {
    pub id: String,
    pub file: String,
    pub done: u64,
    pub total: u64,
}

/// A copy under way.
pub struct Copying {
    action: CopyAction,
    done: u64,
    chunk: usize,
    error: Option<String>,
}

/// What a `Copying` holds.
pub struct CopyView {
    pub action: CopyAction,
    /// How many bytes of the file are at the target.
    pub done: u64,
    /// The size of the chunk that was read last.
    pub chunk: nat,
    pub error: Option<Seq<char>>,
}

/// The count after `n` more bytes. Like every count of bytes here it starts
/// again from zero behind the largest one.
pub open spec fn counted(done: u64, n: nat) -> u64 {
    if done + n <= u64::MAX {
        (done + n) as u64
    } else {
        (done + n - u64::MAX - 1) as u64
    }
}

/// A copy that begins at an offset.
pub open spec fn copy_from(offset: u64) -> CopyView {
    CopyView { action: CopyAction::Read, done: offset, chunk: 0, error: None }
}

/// A copy after one more event. An event that does not answer the action at
/// hand changes nothing.
pub open spec fn after(c: CopyView, e: CopyEventView) -> CopyView {
    match (c.action, e) {
        (CopyAction::Read, CopyEventView::Read(n)) => if n == 0 {
            CopyView { action: CopyAction::LastReport, ..c }
        } else {
            CopyView { action: CopyAction::Write, chunk: n, ..c }
        },
        (CopyAction::Read, CopyEventView::Failed(x)) => CopyView {
            action: CopyAction::Finish,
            error: Some(x),
            ..c
        },
        (CopyAction::Write, CopyEventView::Done) => CopyView {
            action: CopyAction::CheckClock,
            done: counted(c.done, c.chunk),
            ..c
        },
        (CopyAction::Write, CopyEventView::Failed(x)) => CopyView {
            action: CopyAction::Finish,
            error: Some(x),
            ..c
        },
        (CopyAction::CheckClock, CopyEventView::Elapsed(ms)) => CopyView {
            action: if ms >= waits::REPORT_MILLIS {
                CopyAction::Report
            } else {
                CopyAction::Read
            },
            ..c
        },
        (CopyAction::Report, CopyEventView::Done) => CopyView { action: CopyAction::Read, ..c },
        (CopyAction::LastReport, CopyEventView::Done) => CopyView {
            action: CopyAction::Finish,
            ..c
        },
        _ => c,
    }
}

fn count(done: u64, n: usize) -> (r: u64)
    ensures
        r == counted(done, n as nat),
{
    let n: u64 = n as u64;
    if n <= u64::MAX - done {
        done + n
    } else {
        n - (u64::MAX - done) - 1
    }
}

impl Copying {
    /// What the copy holds.
    pub closed spec fn view(&self) -> CopyView {
        CopyView {
            action: self.action,
            done: self.done,
            chunk: self.chunk as nat,
            error: text::opt_text(self.error),
        }
    }

    /// What to do next.
    pub fn next(&self) -> (r: CopyAction)
        ensures
            r == self@.action,
    {
        self.action
    }

    /// What to report of the copy.
    pub fn progress(&self, op: &str, file: &str, total: u64) -> (r: Progress)
        ensures
            r.id@ == op@,
            r.file@ == file@,
            r.done == self@.done,
            r.total == total,
    {
        Progress { id: op.to_owned(), file: file.to_owned(), done: self.done, total }
    }

    /// What a copy that is over came to.
    pub fn result(&self) -> (r: Result<(), String>)
        ensures
            text::result_text(r) == match self@.error {
                Some(e) => Err(e),
                None => Ok(()),
            },
    {
        match &self.error {
            Some(e) => Err(e.clone()),
            None => Ok(()),
        }
    }

    /// Takes in what came of the action at hand.
    pub fn step(&mut self, e: CopyEvent)
        ensures
            final(self)@ == after(old(self)@, e@),
    {
        match (self.action, e) {
            (CopyAction::Read, CopyEvent::Read(n)) => if n == 0 {
                self.action = CopyAction::LastReport;
            } else {
                self.chunk = n;
                self.action = CopyAction::Write;
            },
            (CopyAction::Read, CopyEvent::Failed(x)) => {
                self.error = Some(x);
                self.action = CopyAction::Finish;
            },
            (CopyAction::Write, CopyEvent::Done) => {
                self.done = count(self.done, self.chunk);
                self.action = CopyAction::CheckClock;
            },
            (CopyAction::Write, CopyEvent::Failed(x)) => {
                self.error = Some(x);
                self.action = CopyAction::Finish;
            },
            (CopyAction::CheckClock, CopyEvent::Elapsed(ms)) => {
                self.action = if ms >= waits::REPORT_MILLIS {
                    CopyAction::Report
                } else {
                    CopyAction::Read
                };
            },
            (CopyAction::Report, CopyEvent::Done) => self.action = CopyAction::Read,
            (CopyAction::LastReport, CopyEvent::Done) => self.action = CopyAction::Finish,
            _ => {},
        }
    }
}

/// Begins a copy at an offset.
pub fn copy_progress(offset: u64) -> (r: Copying)
    ensures
        r@ == copy_from(offset),
{
    Copying { action: CopyAction::Read, done: offset, chunk: 0, error: None }
}

/// The event that carries the progress of a session's transfers.
pub fn progress_event(session: &str) -> (r: String)
    ensures
        r@ == "sftp-progress-"@ + session@,
{
    let mut out: String = "sftp-progress-".to_owned();
    out.append(session);
    out
}

// ---------- laws ----------

/// The state of a copy after a number of events.
pub open spec fn run(c: CopyView, events: Seq<CopyEventView>) -> CopyView
    decreases events.len(),
{
    if events.len() == 0 {
        c
    } else {
        after(run(c, events.drop_last()), events.last())
    }
}

/// How many bytes were written.
pub open spec fn written(c: CopyView, events: Seq<CopyEventView>) -> nat
    decreases events.len(),
{
    if events.len() == 0 {
        0
    } else {
        let before = run(c, events.drop_last());
        written(c, events.drop_last()) + if before.action == CopyAction::Write && events.last() is Done {
            before.chunk
        } else {
            0
        }
    }
}

/// A report tells what is at the target: what was there, and every byte that
/// was written since.
pub proof fn law_progress_counts_what_was_written(offset: u64, events: Seq<CopyEventView>)
    requires
        offset + written(copy_from(offset), events) <= u64::MAX,
    ensures
        run(copy_from(offset), events).done == offset + written(copy_from(offset), events),
    decreases events.len(),
{
    if events.len() > 0 {
        law_progress_counts_what_was_written(offset, events.drop_last());
    }
}

/// A copy ends well only after the end of the file was read, and then its last
/// report was made.
pub proof fn law_a_copy_ends_with_a_report(c: CopyView, e: CopyEventView)
    requires
        c.action != CopyAction::Finish,
        c.error is None,
        after(c, e).action == CopyAction::Finish,
        after(c, e).error is None,
    ensures
        c.action == CopyAction::LastReport,
{
}

/// A copy begins with a read, from the offset that it goes on at.
pub proof fn law_a_copy_begins_at_its_offset(offset: u64)
    ensures
        copy_from(offset).action == CopyAction::Read,
        copy_from(offset).done == offset,
        copy_from(offset).error is None,
{
}

/// What is read is written before anything else is read; a read that brings
/// nothing is the end, which is reported.
pub proof fn law_what_is_read_is_written(c: CopyView, n: nat)
    requires
        c.action == CopyAction::Read,
    ensures
        n == 0 ==> after(c, CopyEventView::Read(n)) == (CopyView {
            action: CopyAction::LastReport,
            ..c
        }),
        n > 0 ==> after(c, CopyEventView::Read(n)) == (CopyView {
            action: CopyAction::Write,
            chunk: n,
            ..c
        }),
{
}

/// What was written is counted, and the copy goes on; it reports once 150
/// milliseconds have passed since the last report, not before.
pub proof fn law_reports_keep_their_distance(c: CopyView, millis: u64)
    ensures
        c.action == CopyAction::Write && c.done + c.chunk <= u64::MAX ==> after(
            c,
            CopyEventView::Done,
        ) == (CopyView {
            action: CopyAction::CheckClock,
            done: (c.done + c.chunk) as u64,
            ..c
        }),
        c.action == CopyAction::Write && c.done + c.chunk > u64::MAX && c.chunk <= u64::MAX
            ==> after(c, CopyEventView::Done) == (CopyView {
            action: CopyAction::CheckClock,
            done: (c.done + c.chunk - u64::MAX - 1) as u64,
            ..c
        }),
        c.action == CopyAction::CheckClock && millis >= 150 ==> after(
            c,
            CopyEventView::Elapsed(millis),
        ) == (CopyView { action: CopyAction::Report, ..c }),
        c.action == CopyAction::CheckClock && millis < 150 ==> after(
            c,
            CopyEventView::Elapsed(millis),
        ) == (CopyView { action: CopyAction::Read, ..c }),
        c.action == CopyAction::Report ==> after(c, CopyEventView::Done) == (CopyView {
            action: CopyAction::Read,
            ..c
        }),
        c.action == CopyAction::LastReport ==> after(c, CopyEventView::Done) == (CopyView {
            action: CopyAction::Finish,
            ..c
        }),
{
}

/// A read or a write that fails ends the copy with its error.
pub proof fn law_a_failure_ends_the_copy(c: CopyView, error: Seq<char>)
    requires
        c.action == CopyAction::Read || c.action == CopyAction::Write,
    ensures
        after(c, CopyEventView::Failed(error)) == (CopyView {
            action: CopyAction::Finish,
            error: Some(error),
            ..c
        }),
{
}

/// Whether an event can come of an action.
pub open spec fn comes_of(a: CopyAction, e: CopyEventView) -> bool {
    match e {
        CopyEventView::Read(_) => a == CopyAction::Read,
        CopyEventView::Done => a == CopyAction::Write || a == CopyAction::Report || a
            == CopyAction::LastReport,
        CopyEventView::Elapsed(_) => a == CopyAction::CheckClock,
        CopyEventView::Failed(_) => a == CopyAction::Read || a == CopyAction::Write,
    }
}

/// An event that cannot come of the action at hand changes nothing; so a copy
/// that has finished stays as it is.
pub proof fn law_other_events_change_nothing(c: CopyView, e: CopyEventView)
    requires
        !comes_of(c.action, e),
    ensures
        after(c, e) == c,
{
}

/// An event stands for what it says.
pub proof fn law_an_event_stands_for_what_it_says(e: CopyEvent)
    ensures
        match e {
            CopyEvent::Read(n) => e@ == CopyEventView::Read(n as nat),
            CopyEvent::Done => e@ == CopyEventView::Done,
            CopyEvent::Elapsed(n) => e@ == CopyEventView::Elapsed(n),
            CopyEvent::Failed(x) => e@ == CopyEventView::Failed(x@),
        },
{
}

} // verus!
