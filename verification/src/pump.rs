//! The loop that keeps a terminal session going: it takes commands, writes
//! input, passes output on and keeps the connection alive.
//!
//! A `Pump` decides; its user performs what `next` says and reports what came
//! of it to `step`.

use vstd::prelude::*;
use crate::splice;
use crate::ssh::{LogSpec, SshCommand};
use crate::text;
use crate::waits;

verus! {

/// What to do next, and where in a round the loop stands.
#[derive(Debug, Clone, Copy, PartialEq, Eq, Structural)]
pub enum PumpAction {
    /// Say how many milliseconds have passed since the last keepalive.
    CheckClock,
    /// Send a keepalive, and count the time from now on.
    Keepalive,
    /// Take the next command.
    TakeCommand,
    /// Tell the server the new size of the terminal.
    Resize,
    /// Start the recording that was asked for.
    OpenLog,
    /// Close the channel and wait until it is closed.
    Close,
    /// Write what `pending` holds.
    Write,
    /// Read from the channel.
    ReadOutput,
    /// Record what `fresh` holds where `logging` says so, and pass it on.
    DeliverOutput,
    /// Read from the channel's error stream.
    ReadErrors,
    /// As `DeliverOutput`, for errors.
    DeliverErrors,
    /// Say whether the channel is at its end.
    CheckEnd,
    /// Wait a moment: nothing came in this round.
    Sleep,
    Stop,
}

/// What came of an action.
#[derive(Debug)]
pub enum PumpEvent {
    Elapsed(u64),
    /// It was done.
    Done,
    /// Nothing could be written right now.
    WouldBlock,
    Failed,
    Command(SshCommand),
    NoCommand,
    /// Whether the recording could be started.
    LogOpened(bool),
    Wrote(usize),
    /// What was read; empty where nothing was.
    Read(Vec<u8>),
    /// Whether the channel is at its end.
    AtEnd(bool),
}

/// What a `LogSpec` holds.
pub struct LogView {
    pub path: Seq<u8>,
    pub cast: bool,
    pub cols: u32,
    pub rows: u32,
}

impl View for LogSpec {
    type V = LogView;

    open spec fn view(&self) -> LogView {
        LogView { path: self.path@, cast: self.cast, cols: self.cols, rows: self.rows }
    }
}

/// What a `PumpEvent` holds.
pub enum PumpEventView {
    Elapsed(u64),
    Done,
    WouldBlock,
    Failed,
    Data(Seq<u8>),
    Resize { cols: u32, rows: u32 },
    SetLog(Option<LogView>),
    Disconnect,
    NoCommand,
    LogOpened(bool),
    Wrote(nat),
    Read(Seq<u8>),
    AtEnd(bool),
}

impl View for PumpEvent {
    type V = PumpEventView;

    open spec fn view(&self) -> PumpEventView {
        match *self {
            PumpEvent::Elapsed(n) => PumpEventView::Elapsed(n),
            PumpEvent::Done => PumpEventView::Done,
            PumpEvent::WouldBlock => PumpEventView::WouldBlock,
            PumpEvent::Failed => PumpEventView::Failed,
            PumpEvent::Command(c) => match c {
                SshCommand::Data(d) => PumpEventView::Data(d@),
                SshCommand::Resize { cols, rows } => PumpEventView::Resize { cols, rows },
                SshCommand::SetLog(s) => PumpEventView::SetLog(
                    match s {
                        Some(x) => Some(x@),
                        None => None,
                    },
                ),
                SshCommand::Disconnect => PumpEventView::Disconnect,
            },
            PumpEvent::NoCommand => PumpEventView::NoCommand,
            PumpEvent::LogOpened(b) => PumpEventView::LogOpened(b),
            PumpEvent::Wrote(n) => PumpEventView::Wrote(n as nat),
            PumpEvent::Read(d) => PumpEventView::Read(d@),
            PumpEvent::AtEnd(b) => PumpEventView::AtEnd(b),
        }
    }
}

/// The loop of a terminal session.
pub struct Pump {
    action: PumpAction,
    pending: Vec<u8>,
    fresh: Vec<u8>,
    logging: bool,
    disconnect: bool,
    got: bool,
    cols: u32,
    rows: u32,
    spec: Option<LogSpec>,
}

/// What a `Pump` holds.
pub struct PumpView {
    pub action: PumpAction,
    /// Input on its way to the channel.
    pub pending: Seq<u8>,
    /// Output that was just read.
    pub fresh: Seq<u8>,
    /// Whether output is recorded.
    pub logging: bool,
    /// Whether the session was told to end.
    pub disconnect: bool,
    /// Whether anything came in this round.
    pub got: bool,
    /// The last size of the terminal that was asked for.
    pub cols: u32,
    pub rows: u32,
    /// The recording that was asked for.
    pub spec: Option<LogView>,
}

/// A loop before its first round.
pub open spec fn fresh_pump() -> PumpView {
    PumpView {
        action: PumpAction::CheckClock,
        pending: Seq::empty(),
        fresh: Seq::empty(),
        logging: false,
        disconnect: false,
        got: false,
        cols: 0,
        rows: 0,
        spec: None,
    }
}

/// At the writes: write what is there to write, else read.
pub open spec fn to_write(p: PumpView) -> PumpView {
    if p.pending.len() > 0 {
        PumpView { action: PumpAction::Write, ..p }
    } else {
        PumpView { action: PumpAction::ReadOutput, got: false, ..p }
    }
}

/// At the end of a round: rest unless something came.
pub open spec fn round_over(p: PumpView) -> PumpView {
    PumpView {
        action: if p.got {
            PumpAction::CheckClock
        } else {
            PumpAction::Sleep
        },
        ..p
    }
}

/// A loop after one more event. An event that does not answer the action at
/// hand changes nothing.
pub open spec fn after(p: PumpView, e: PumpEventView) -> PumpView {
    match (p.action, e) {
        (PumpAction::CheckClock, PumpEventView::Elapsed(ms)) => if ms >= waits::KEEPALIVE_MILLIS {
            PumpView { action: PumpAction::Keepalive, ..p }
        } else {
            PumpView { action: PumpAction::TakeCommand, ..p }
        },
        (PumpAction::Keepalive, PumpEventView::Done) => PumpView {
            action: PumpAction::TakeCommand,
            ..p
        },
        (PumpAction::Keepalive, PumpEventView::WouldBlock) => PumpView {
            action: PumpAction::TakeCommand,
            ..p
        },
        (PumpAction::Keepalive, PumpEventView::Failed) => PumpView {
            action: PumpAction::Stop,
            ..p
        },
        (PumpAction::TakeCommand, PumpEventView::Data(d)) => PumpView {
            pending: p.pending + d,
            ..p
        },
        (PumpAction::TakeCommand, PumpEventView::Resize { cols, rows }) => PumpView {
            action: PumpAction::Resize,
            cols,
            rows,
            ..p
        },
        (PumpAction::TakeCommand, PumpEventView::SetLog(spec)) => match spec {
            Some(_) => PumpView { action: PumpAction::OpenLog, logging: false, spec, ..p },
            None => PumpView { logging: false, spec, ..p },
        },
        (PumpAction::TakeCommand, PumpEventView::Disconnect) => PumpView { disconnect: true, ..p },
        (PumpAction::TakeCommand, PumpEventView::NoCommand) => if p.disconnect {
            PumpView { action: PumpAction::Close, ..p }
        } else {
            to_write(p)
        },
        (PumpAction::Resize, PumpEventView::Done) => PumpView {
            action: PumpAction::TakeCommand,
            ..p
        },
        (PumpAction::OpenLog, PumpEventView::LogOpened(yes)) => PumpView {
            action: PumpAction::TakeCommand,
            logging: yes,
            ..p
        },
        (PumpAction::Close, PumpEventView::Done) => PumpView { action: PumpAction::Stop, ..p },
        (PumpAction::Write, PumpEventView::Wrote(n)) => if n == 0 {
            PumpView { action: PumpAction::ReadOutput, got: false, ..p }
        } else {
            to_write(PumpView { pending: splice::unwritten(p.pending, n), ..p })
        },
        (PumpAction::Write, PumpEventView::WouldBlock) => PumpView {
            action: PumpAction::ReadOutput,
            got: false,
            ..p
        },
        (PumpAction::Write, PumpEventView::Failed) => PumpView { action: PumpAction::Stop, ..p },
        (PumpAction::ReadOutput, PumpEventView::Read(d)) => if d.len() > 0 {
            PumpView { action: PumpAction::DeliverOutput, fresh: d, got: true, ..p }
        } else {
            PumpView { action: PumpAction::ReadErrors, ..p }
        },
        (PumpAction::DeliverOutput, PumpEventView::Done) => PumpView {
            action: PumpAction::ReadErrors,
            fresh: Seq::empty(),
            ..p
        },
        (PumpAction::ReadErrors, PumpEventView::Read(d)) => if d.len() > 0 {
            PumpView { action: PumpAction::DeliverErrors, fresh: d, got: true, ..p }
        } else {
            PumpView { action: PumpAction::CheckEnd, ..p }
        },
        (PumpAction::DeliverErrors, PumpEventView::Done) => PumpView {
            action: PumpAction::CheckEnd,
            fresh: Seq::empty(),
            ..p
        },
        (PumpAction::CheckEnd, PumpEventView::AtEnd(yes)) => if yes {
            PumpView { action: PumpAction::Stop, ..p }
        } else {
            round_over(p)
        },
        (PumpAction::Sleep, PumpEventView::Done) => PumpView {
            action: PumpAction::CheckClock,
            ..p
        },
        _ => p,
    }
}

impl Pump {
    /// What the loop holds.
    pub closed spec fn view(&self) -> PumpView {
        PumpView {
            action: self.action,
            pending: self.pending@,
            fresh: self.fresh@,
            logging: self.logging,
            disconnect: self.disconnect,
            got: self.got,
            cols: self.cols,
            rows: self.rows,
            spec: match self.spec {
                Some(s) => Some(s@),
                None => None,
            },
        }
    }

    /// A loop before its first round.
    pub fn new() -> (r: Self)
        ensures
            r@ == fresh_pump(),
    {
        let r = Pump {
            action: PumpAction::CheckClock,
            pending: Vec::new(),
            fresh: Vec::new(),
            logging: false,
            disconnect: false,
            got: false,
            cols: 0,
            rows: 0,
            spec: None,
        };
        assert(r.pending@ =~= Seq::<u8>::empty() && r.fresh@ =~= Seq::<u8>::empty());
        r
    }

    /// What to do next.
    pub fn next(&self) -> (r: PumpAction)
        ensures
            r == self@.action,
    {
        self.action
    }

    /// Input on its way to the channel.
    pub fn pending(&self) -> (r: &[u8])
        ensures
            r@ == self@.pending,
    {
        self.pending.as_slice()
    }

    /// Output that was just read.
    pub fn fresh(&self) -> (r: &[u8])
        ensures
            r@ == self@.fresh,
    {
        self.fresh.as_slice()
    }

    /// Whether output is recorded.
    pub fn logging(&self) -> (r: bool)
        ensures
            r == self@.logging,
    {
        self.logging
    }

    /// The last size of the terminal that was asked for: columns and rows.
    pub fn size(&self) -> (r: (u32, u32))
        ensures
            r == (self@.cols, self@.rows),
    {
        (self.cols, self.rows)
    }

    /// The recording that was asked for.
    pub fn log_spec(&self) -> (r: Option<&LogSpec>)
        ensures
            match r {
                Some(s) => self@.spec == Some(s@),
                None => self@.spec is None,
            },
    {
        match &self.spec {
            Some(s) => Some(s),
            None => None,
        }
    }

    fn to_write(&mut self)
        ensures
            final(self)@ == to_write(old(self)@),
    {
        if self.pending.len() > 0 {
            self.action = PumpAction::Write;
        } else {
            self.to_read();
        }
    }

    fn to_read(&mut self)
        ensures
            final(self)@ == (PumpView { action: PumpAction::ReadOutput, got: false, ..old(self)@ }),
    {
        self.action = PumpAction::ReadOutput;
        self.got = false;
    }

    fn take_command(&mut self, c: SshCommand)
        requires
            old(self)@.action == PumpAction::TakeCommand,
        ensures
            final(self)@ == after(old(self)@, PumpEvent::Command(c)@),
    {
        match c {
            SshCommand::Data(d) => text::push_bytes(&mut self.pending, d.as_slice()),
            SshCommand::Resize { cols, rows } => {
                self.cols = cols;
                self.rows = rows;
                self.action = PumpAction::Resize;
            },
            SshCommand::SetLog(spec) => {
                self.logging = false;
                if spec.is_some() {
                    self.action = PumpAction::OpenLog;
                }
                self.spec = spec;
            },
            SshCommand::Disconnect => self.disconnect = true,
        }
    }

    /// Takes in what came of the action at hand.
    pub fn step(&mut self, e: PumpEvent)
        ensures
            final(self)@ == after(old(self)@, e@),
    {
        match (self.action, e) {
            (PumpAction::CheckClock, PumpEvent::Elapsed(ms)) => {
                self.action = if ms >= waits::KEEPALIVE_MILLIS {
                    PumpAction::Keepalive
                } else {
                    PumpAction::TakeCommand
                };
            },
            (PumpAction::Keepalive, PumpEvent::Done) => self.action = PumpAction::TakeCommand,
            (PumpAction::Keepalive, PumpEvent::WouldBlock) => self.action =
            PumpAction::TakeCommand,
            (PumpAction::Keepalive, PumpEvent::Failed) => self.action = PumpAction::Stop,
            (PumpAction::TakeCommand, PumpEvent::Command(c)) => self.take_command(c),
            (PumpAction::TakeCommand, PumpEvent::NoCommand) => if self.disconnect {
                self.action = PumpAction::Close;
            } else {
                self.to_write();
            },
            (PumpAction::Resize, PumpEvent::Done) => self.action = PumpAction::TakeCommand,
            (PumpAction::OpenLog, PumpEvent::LogOpened(yes)) => {
                self.logging = yes;
                self.action = PumpAction::TakeCommand;
            },
            (PumpAction::Close, PumpEvent::Done) => self.action = PumpAction::Stop,
            (PumpAction::Write, PumpEvent::Wrote(n)) => if n == 0 {
                self.to_read();
            } else {
                splice::drop_front(&mut self.pending, n);
                self.to_write();
            },
            (PumpAction::Write, PumpEvent::WouldBlock) => self.to_read(),
            (PumpAction::Write, PumpEvent::Failed) => self.action = PumpAction::Stop,
            (PumpAction::ReadOutput, PumpEvent::Read(d)) => if d.len() > 0 {
                self.fresh = d;
                self.got = true;
                self.action = PumpAction::DeliverOutput;
            } else {
                self.action = PumpAction::ReadErrors;
            },
            (PumpAction::DeliverOutput, PumpEvent::Done) => {
                self.fresh.clear();
                self.action = PumpAction::ReadErrors;
            },
            (PumpAction::ReadErrors, PumpEvent::Read(d)) => if d.len() > 0 {
                self.fresh = d;
                self.got = true;
                self.action = PumpAction::DeliverErrors;
            } else {
                self.action = PumpAction::CheckEnd;
            },
            (PumpAction::DeliverErrors, PumpEvent::Done) => {
                self.fresh.clear();
                self.action = PumpAction::CheckEnd;
            },
            (PumpAction::CheckEnd, PumpEvent::AtEnd(yes)) => {
                self.action = if yes {
                    PumpAction::Stop
                } else if self.got {
                    PumpAction::CheckClock
                } else {
                    PumpAction::Sleep
                };
            },
            (PumpAction::Sleep, PumpEvent::Done) => self.action = PumpAction::CheckClock,
            _ => {},
        }
    }
}

// ---------- laws ----------

/// The state of a loop after a number of events.
pub open spec fn run(p: PumpView, events: Seq<PumpEventView>) -> PumpView
    decreases events.len(),
{
    if events.len() == 0 {
        p
    } else {
        after(run(p, events.drop_last()), events.last())
    }
}

/// The input that one event brings.
pub open spec fn input_of(p: PumpView, e: PumpEventView) -> Seq<u8> {
    match (p.action, e) {
        (PumpAction::TakeCommand, PumpEventView::Data(d)) => d,
        _ => Seq::empty(),
    }
}

/// The input that goes out to the channel with one event.
pub open spec fn sent_of(p: PumpView, e: PumpEventView) -> Seq<u8> {
    match (p.action, e) {
        (PumpAction::Write, PumpEventView::Wrote(n)) => splice::written(p.pending, n),
        _ => Seq::empty(),
    }
}

/// All the input that came.
pub open spec fn input(p: PumpView, events: Seq<PumpEventView>) -> Seq<u8>
    decreases events.len(),
{
    if events.len() == 0 {
        Seq::empty()
    } else {
        input(p, events.drop_last()) + input_of(run(p, events.drop_last()), events.last())
    }
}

/// All the input that went out to the channel.
pub open spec fn sent(p: PumpView, events: Seq<PumpEventView>) -> Seq<u8>
    decreases events.len(),
{
    if events.len() == 0 {
        Seq::empty()
    } else {
        sent(p, events.drop_last()) + sent_of(run(p, events.drop_last()), events.last())
    }
}

proof fn lemma_input_step(p: PumpView, e: PumpEventView)
    ensures
        sent_of(p, e) + after(p, e).pending == p.pending + input_of(p, e),
{
    let q = after(p, e);
    match (p.action, e) {
        (PumpAction::Write, PumpEventView::Wrote(n)) => {
            if n <= p.pending.len() {
                assert(p.pending.take(n as int) + p.pending.skip(n as int) =~= p.pending);
            }
            assert(sent_of(p, e) + q.pending =~= p.pending + input_of(p, e));
        },
        _ => {
            assert(sent_of(p, e) + q.pending =~= p.pending + input_of(p, e));
        },
    }
}

/// Input goes out to the channel as it came: nothing is lost, doubled or put
/// in another order. What did not go out yet still waits.
pub proof fn law_input_arrives_in_order(events: Seq<PumpEventView>)
    ensures
        sent(fresh_pump(), events) + run(fresh_pump(), events).pending == input(
            fresh_pump(),
            events,
        ),
    decreases events.len(),
{
    let p = fresh_pump();
    if events.len() > 0 {
        let before = events.drop_last();
        law_input_arrives_in_order(before);
        let q = run(p, before);
        let e = events.last();
        lemma_input_step(q, e);
        assert(sent(p, events) + run(p, events).pending =~= sent(p, before) + (sent_of(q, e)
            + after(q, e).pending));
        assert(input(p, events) =~= (sent(p, before) + q.pending) + input_of(q, e));
        assert(sent(p, before) + (q.pending + input_of(q, e)) =~= input(p, events));
    } else {
        assert(sent(p, events) + run(p, events).pending =~= input(p, events));
    }
}

/// The output that one event brings.
pub open spec fn read_of(p: PumpView, e: PumpEventView) -> Seq<u8> {
    match (p.action, e) {
        (PumpAction::ReadOutput, PumpEventView::Read(d)) => d,
        (PumpAction::ReadErrors, PumpEventView::Read(d)) => d,
        _ => Seq::empty(),
    }
}

/// The output that is passed on with one event.
pub open spec fn delivered_of(p: PumpView, e: PumpEventView) -> Seq<u8> {
    match (p.action, e) {
        (PumpAction::DeliverOutput, PumpEventView::Done) => p.fresh,
        (PumpAction::DeliverErrors, PumpEventView::Done) => p.fresh,
        _ => Seq::empty(),
    }
}

/// All the output that was read.
pub open spec fn output(p: PumpView, events: Seq<PumpEventView>) -> Seq<u8>
    decreases events.len(),
{
    if events.len() == 0 {
        Seq::empty()
    } else {
        output(p, events.drop_last()) + read_of(run(p, events.drop_last()), events.last())
    }
}

/// All the output that was passed on.
pub open spec fn delivered(p: PumpView, events: Seq<PumpEventView>) -> Seq<u8>
    decreases events.len(),
{
    if events.len() == 0 {
        Seq::empty()
    } else {
        delivered(p, events.drop_last()) + delivered_of(run(p, events.drop_last()), events.last())
    }
}

/// Output that was read and not passed on yet is held only until it is.
pub open spec fn holds_fresh_only_to_deliver(p: PumpView) -> bool {
    p.action == PumpAction::DeliverOutput || p.action == PumpAction::DeliverErrors || p.fresh.len()
        == 0
}

proof fn lemma_output_step(p: PumpView, e: PumpEventView)
    requires
        holds_fresh_only_to_deliver(p),
    ensures
        holds_fresh_only_to_deliver(after(p, e)),
        delivered_of(p, e) + after(p, e).fresh == p.fresh + read_of(p, e),
{
    assert(delivered_of(p, e) + after(p, e).fresh =~= p.fresh + read_of(p, e));
}

/// Output is passed on as it was read: nothing is lost, doubled or put in
/// another order.
pub proof fn law_output_arrives_in_order(events: Seq<PumpEventView>)
    ensures
        holds_fresh_only_to_deliver(run(fresh_pump(), events)),
        delivered(fresh_pump(), events) + run(fresh_pump(), events).fresh == output(
            fresh_pump(),
            events,
        ),
    decreases events.len(),
{
    let p = fresh_pump();
    if events.len() > 0 {
        let before = events.drop_last();
        law_output_arrives_in_order(before);
        let q = run(p, before);
        let e = events.last();
        lemma_output_step(q, e);
        assert(delivered(p, events) + run(p, events).fresh =~= delivered(p, before) + (delivered_of(
            q,
            e,
        ) + after(q, e).fresh));
        assert(output(p, events) =~= (delivered(p, before) + q.fresh) + read_of(q, e));
        assert(delivered(p, before) + (q.fresh + read_of(q, e)) =~= output(p, events));
    } else {
        assert(delivered(p, events) + run(p, events).fresh =~= output(p, events));
    }
}

/// The output that goes to the recording with one event.
pub open spec fn recorded_of(p: PumpView, e: PumpEventView) -> Seq<u8> {
    if p.logging {
        delivered_of(p, e)
    } else {
        Seq::empty()
    }
}

/// All the output that goes to the recording.
pub open spec fn recorded(p: PumpView, events: Seq<PumpEventView>) -> Seq<u8>
    decreases events.len(),
{
    if events.len() == 0 {
        Seq::empty()
    } else {
        recorded(p, events.drop_last()) + recorded_of(run(p, events.drop_last()), events.last())
    }
}

/// A recording receives all output, as it was read, from when it was started
/// until another is asked for or it is to stop: nothing is lost, doubled or put
/// in another order.
pub proof fn law_a_recording_receives_the_output(p: PumpView, events: Seq<PumpEventView>)
    requires
        p.logging,
        p.action != PumpAction::OpenLog,
        holds_fresh_only_to_deliver(p),
        forall|i: int| 0 <= i < events.len() ==> !(#[trigger] events[i] is SetLog),
    ensures
        run(p, events).logging,
        run(p, events).action != PumpAction::OpenLog,
        holds_fresh_only_to_deliver(run(p, events)),
        recorded(p, events) + run(p, events).fresh == p.fresh + output(p, events),
    decreases events.len(),
{
    if events.len() > 0 {
        let before = events.drop_last();
        assert forall|i: int| 0 <= i < before.len() implies !(#[trigger] before[i] is SetLog) by {
            assert(before[i] == events[i]);
        }
        law_a_recording_receives_the_output(p, before);
        let q = run(p, before);
        let e = events.last();
        assert(!(events[events.len() - 1] is SetLog));
        lemma_output_step(q, e);
        assert(recorded(p, events) + run(p, events).fresh =~= recorded(p, before) + (delivered_of(
            q,
            e,
        ) + after(q, e).fresh));
        assert(recorded(p, before) + (q.fresh + read_of(q, e)) =~= (recorded(p, before) + q.fresh)
            + read_of(q, e));
        assert(p.fresh + output(p, events) =~= (p.fresh + output(p, before)) + read_of(q, e));
    } else {
        assert(recorded(p, events) + p.fresh =~= p.fresh + output(p, events));
    }
}

/// Nothing is recorded before a recording was started.
pub proof fn law_nothing_is_recorded_unasked(p: PumpView, events: Seq<PumpEventView>)
    requires
        !p.logging,
        forall|i: int|
            0 <= i < events.len() ==> #[trigger] events[i] != PumpEventView::LogOpened(true),
    ensures
        !run(p, events).logging,
        recorded(p, events) == Seq::<u8>::empty(),
    decreases events.len(),
{
    if events.len() > 0 {
        let before = events.drop_last();
        assert forall|i: int| 0 <= i < before.len() implies #[trigger] before[i]
            != PumpEventView::LogOpened(true) by {
            assert(before[i] == events[i]);
        }
        law_nothing_is_recorded_unasked(p, before);
        assert(events[events.len() - 1] != PumpEventView::LogOpened(true));
        assert(recorded(p, events) =~= Seq::<u8>::empty());
    }
}

/// Whether a loop is on its way out: it takes what commands are left, closes
/// the channel and stops.
pub open spec fn leaving(p: PumpView) -> bool {
    ||| p.action == PumpAction::Stop
    ||| p.disconnect && (p.action == PumpAction::TakeCommand || p.action == PumpAction::Resize
        || p.action == PumpAction::OpenLog || p.action == PumpAction::Close)
}

/// A session that was told to end writes and reads no more, whatever happens.
pub proof fn law_disconnecting_ends_the_session(p: PumpView, events: Seq<PumpEventView>)
    requires
        p.action == PumpAction::TakeCommand,
    ensures
        leaving(run(after(p, PumpEventView::Disconnect), events)),
    decreases events.len(),
{
    if events.len() > 0 {
        law_disconnecting_ends_the_session(p, events.drop_last());
    }
}

/// A loop stops for a reason: the connection is dead, a write failed, the
/// channel was closed as asked, or it is at its end.
pub proof fn law_a_session_stops_for_a_reason(p: PumpView, e: PumpEventView)
    requires
        p.action != PumpAction::Stop,
        after(p, e).action == PumpAction::Stop,
    ensures
        ({
            ||| p.action == PumpAction::Keepalive && e is Failed
            ||| p.action == PumpAction::Write && e is Failed
            ||| p.action == PumpAction::Close && e is Done
            ||| p.action == PumpAction::CheckEnd && e == PumpEventView::AtEnd(true)
        }),
{
}

/// A loop that asked whether the channel is at its end and hears that it is,
/// stops; one that hears that it is not goes on with the next round, and waits
/// first exactly if nothing was read in this one.
pub proof fn law_the_end_of_the_channel_stops_the_session(p: PumpView)
    requires
        p.action == PumpAction::CheckEnd,
    ensures
        after(p, PumpEventView::AtEnd(true)) == (PumpView { action: PumpAction::Stop, ..p }),
        p.got ==> after(p, PumpEventView::AtEnd(false)) == (PumpView {
            action: PumpAction::CheckClock,
            ..p
        }),
        !p.got ==> after(p, PumpEventView::AtEnd(false)) == (PumpView {
            action: PumpAction::Sleep,
            ..p
        }),
{
}

/// A keepalive or a write that fails stops the session.
pub proof fn law_a_failure_stops_the_session(p: PumpView)
    requires
        p.action == PumpAction::Keepalive || p.action == PumpAction::Write,
    ensures
        after(p, PumpEventView::Failed) == (PumpView { action: PumpAction::Stop, ..p }),
{
}

/// A call that would block stops nothing and loses nothing: a keepalive is
/// left for the next round, and so is what could not be written.
pub proof fn law_a_blocked_call_stops_nothing(p: PumpView)
    ensures
        p.action == PumpAction::Keepalive ==> after(p, PumpEventView::WouldBlock) == (PumpView {
            action: PumpAction::TakeCommand,
            ..p
        }),
        p.action == PumpAction::Write ==> after(p, PumpEventView::WouldBlock) == (PumpView {
            action: PumpAction::ReadOutput,
            got: false,
            ..p
        }),
        p.action == PumpAction::Write ==> after(p, PumpEventView::Wrote(0)) == (PumpView {
            action: PumpAction::ReadOutput,
            got: false,
            ..p
        }),
{
}

/// Every round begins with the clock, and a keepalive is sent once fifteen
/// seconds have passed since the last one, not before; either way the commands
/// come next.
pub proof fn law_the_clock_decides_on_a_keepalive(p: PumpView, millis: u64)
    requires
        p.action == PumpAction::CheckClock,
    ensures
        millis >= 15000 ==> after(p, PumpEventView::Elapsed(millis)) == (PumpView {
            action: PumpAction::Keepalive,
            ..p
        }),
        millis >= 15000 ==> after(
            after(p, PumpEventView::Elapsed(millis)),
            PumpEventView::Done,
        ) == (PumpView { action: PumpAction::TakeCommand, ..p }),
        millis < 15000 ==> after(p, PumpEventView::Elapsed(millis)) == (PumpView {
            action: PumpAction::TakeCommand,
            ..p
        }),
{
}

/// What is typed goes behind what is still to be sent, byte for byte, and the
/// next command is looked for.
pub proof fn law_typed_bytes_are_queued(p: PumpView, d: Seq<u8>)
    requires
        p.action == PumpAction::TakeCommand,
    ensures
        after(p, PumpEventView::Data(d)) == (PumpView { pending: p.pending + d, ..p }),
{
}

/// A resize asks for the size that was given, columns and rows each in its
/// place, and changes nothing else.
pub proof fn law_a_resize_asks_for_its_size(p: PumpView, cols: u32, rows: u32)
    requires
        p.action == PumpAction::TakeCommand,
    ensures
        ({
            let q = after(p, PumpEventView::Resize { cols, rows });
            &&& q.action == PumpAction::Resize
            &&& q.cols == cols
            &&& q.rows == rows
            &&& after(q, PumpEventView::Done) == (PumpView { cols, rows, ..p })
        }),
{
}

/// A recording that is asked for is opened as it was asked for, and output is
/// recorded from then on if that worked, and only then. One that ran before
/// has ended.
pub proof fn law_a_recording_is_opened_on_request(p: PumpView, spec: LogView, opened: bool)
    requires
        p.action == PumpAction::TakeCommand,
    ensures
        ({
            let q = after(p, PumpEventView::SetLog(Some(spec)));
            &&& q == (PumpView {
                action: PumpAction::OpenLog,
                logging: false,
                spec: Some(spec),
                ..p
            })
            &&& after(q, PumpEventView::LogOpened(opened)) == (PumpView {
                logging: opened,
                spec: Some(spec),
                ..p
            })
        }),
{
}

/// A recording that is no longer wanted ends at once, and nothing else changes.
pub proof fn law_a_recording_ends_on_request(p: PumpView)
    requires
        p.action == PumpAction::TakeCommand,
    ensures
        after(p, PumpEventView::SetLog(None)) == (PumpView { logging: false, spec: None, ..p }),
{
}

/// A session that is told to disconnect takes the commands that are there,
/// closes the channel and stops, without another read or write.
pub proof fn law_disconnecting_closes_the_channel(p: PumpView)
    requires
        p.action == PumpAction::TakeCommand,
    ensures
        ({
            let told = after(p, PumpEventView::Disconnect);
            let closing = after(told, PumpEventView::NoCommand);
            &&& told == (PumpView { disconnect: true, ..p })
            &&& closing == (PumpView { action: PumpAction::Close, ..told })
            &&& after(closing, PumpEventView::Done) == (PumpView { action: PumpAction::Stop, ..told })
        }),
{
}

/// Once no command is left, what is to be sent is written, and what was written
/// is not written again; with nothing to send the output is read.
pub proof fn law_input_is_written_before_output_is_read(p: PumpView, n: nat)
    requires
        p.action == PumpAction::TakeCommand,
        !p.disconnect,
    ensures
        ({
            let q = after(p, PumpEventView::NoCommand);
            let r = after(q, PumpEventView::Wrote(n));
            &&& p.pending.len() == 0 ==> q == (PumpView {
                action: PumpAction::ReadOutput,
                got: false,
                ..p
            })
            &&& p.pending.len() > 0 ==> q == (PumpView { action: PumpAction::Write, ..p })
            &&& 0 < n < p.pending.len() ==> r == (PumpView {
                action: PumpAction::Write,
                pending: p.pending.skip(n as int),
                ..p
            })
            &&& p.pending.len() > 0 && n >= p.pending.len() ==> r == (PumpView {
                action: PumpAction::ReadOutput,
                pending: Seq::empty(),
                got: false,
                ..p
            })
        }),
{
    if n == p.pending.len() {
        assert(p.pending.skip(n as int) =~= Seq::empty());
    }
}

/// Whatever is read is delivered as it came, the output first and then the
/// errors, and a read that brought nothing is passed over.
pub proof fn law_what_is_read_is_delivered(p: PumpView, d: Seq<u8>)
    requires
        p.action == PumpAction::ReadOutput || p.action == PumpAction::ReadErrors,
    ensures
        ({
            let q = after(p, PumpEventView::Read(d));
            let output = p.action == PumpAction::ReadOutput;
            let next = if output {
                PumpAction::ReadErrors
            } else {
                PumpAction::CheckEnd
            };
            &&& d.len() == 0 ==> q == (PumpView { action: next, ..p })
            &&& d.len() > 0 ==> q == (PumpView {
                action: if output {
                    PumpAction::DeliverOutput
                } else {
                    PumpAction::DeliverErrors
                },
                fresh: d,
                got: true,
                ..p
            })
            &&& d.len() > 0 ==> after(q, PumpEventView::Done) == (PumpView {
                action: next,
                fresh: Seq::empty(),
                got: true,
                ..p
            })
        }),
{
}

/// A session begins with the clock, with nothing to send or to deliver and
/// without a recording; a wait ends with the clock again.
pub proof fn law_a_session_begins_idle(p: PumpView)
    ensures
        fresh_pump().action == PumpAction::CheckClock,
        fresh_pump().pending.len() == 0,
        fresh_pump().fresh.len() == 0,
        !fresh_pump().logging,
        !fresh_pump().disconnect,
        fresh_pump().spec is None,
        p.action == PumpAction::Sleep ==> after(p, PumpEventView::Done) == (PumpView {
            action: PumpAction::CheckClock,
            ..p
        }),
{
}

/// Whether an event can come of an action.
pub open spec fn comes_of(a: PumpAction, e: PumpEventView) -> bool {
    match e {
        PumpEventView::Elapsed(_) => a == PumpAction::CheckClock,
        PumpEventView::Done => a == PumpAction::Keepalive || a == PumpAction::Resize || a
            == PumpAction::Close || a == PumpAction::DeliverOutput || a
            == PumpAction::DeliverErrors || a == PumpAction::Sleep,
        PumpEventView::WouldBlock => a == PumpAction::Keepalive || a == PumpAction::Write,
        PumpEventView::Failed => a == PumpAction::Keepalive || a == PumpAction::Write,
        PumpEventView::Data(_) => a == PumpAction::TakeCommand,
        PumpEventView::Resize { .. } => a == PumpAction::TakeCommand,
        PumpEventView::SetLog(_) => a == PumpAction::TakeCommand,
        PumpEventView::Disconnect => a == PumpAction::TakeCommand,
        PumpEventView::NoCommand => a == PumpAction::TakeCommand,
        PumpEventView::LogOpened(_) => a == PumpAction::OpenLog,
        PumpEventView::Wrote(_) => a == PumpAction::Write,
        PumpEventView::Read(_) => a == PumpAction::ReadOutput || a == PumpAction::ReadErrors,
        PumpEventView::AtEnd(_) => a == PumpAction::CheckEnd,
    }
}

/// An event that cannot come of the action at hand changes nothing; so a
/// session that has stopped stays as it is.
pub proof fn law_other_events_change_nothing(p: PumpView, e: PumpEventView)
    requires
        !comes_of(p.action, e),
    ensures
        after(p, e) == p,
{
}

/// An event stands for what it says: bytes, sizes, recordings and answers are
/// taken as they are.
pub proof fn law_an_event_stands_for_what_it_says(e: PumpEvent, s: LogSpec)
    ensures
        s@ == (LogView { path: s.path@, cast: s.cast, cols: s.cols, rows: s.rows }),
        match e {
            PumpEvent::Elapsed(n) => e@ == PumpEventView::Elapsed(n),
            PumpEvent::Done => e@ == PumpEventView::Done,
            PumpEvent::WouldBlock => e@ == PumpEventView::WouldBlock,
            PumpEvent::Failed => e@ == PumpEventView::Failed,
            PumpEvent::Command(SshCommand::Data(d)) => e@ == PumpEventView::Data(d@),
            PumpEvent::Command(SshCommand::Resize { cols, rows }) => e@ == (
            PumpEventView::Resize { cols, rows }),
            PumpEvent::Command(SshCommand::SetLog(Some(x))) => e@ == PumpEventView::SetLog(
                Some(x@),
            ),
            PumpEvent::Command(SshCommand::SetLog(None)) => e@ == PumpEventView::SetLog(None),
            PumpEvent::Command(SshCommand::Disconnect) => e@ == PumpEventView::Disconnect,
            PumpEvent::NoCommand => e@ == PumpEventView::NoCommand,
            PumpEvent::LogOpened(yes) => e@ == PumpEventView::LogOpened(yes),
            PumpEvent::Wrote(n) => e@ == PumpEventView::Wrote(n as nat),
            PumpEvent::Read(d) => e@ == PumpEventView::Read(d@),
            PumpEvent::AtEnd(yes) => e@ == PumpEventView::AtEnd(yes),
        },
{
}

} // verus!
