//! Passing bytes both ways between an SSH channel and a local stream.
//!
//! `Splice` decides; its user performs. `next` says what to do, and `step`
//! takes in what came of it. The same loop serves port forwards, jump hosts
//! and X11 connections; for the last the first packet from the channel is
//! rewritten on its way.

use vstd::prelude::*;
use crate::text;
use crate::x11;

verus! {

/// What to do next.
#[derive(Debug, Clone, Copy, PartialEq, Eq, Structural)]
pub enum Action {
    /// Say whether the session that owns the connection is still alive.
    CheckAlive,
    /// Say whether the channel is at its end.
    CheckChannelEnd,
    ReadChannel,
    ReadStream,
    /// Write what `to_stream` holds.
    WriteStream,
    /// Write what `to_channel` holds.
    WriteChannel,
    /// Wait a moment: nothing moved in this round.
    Sleep,
    Stop,
}

/// Where in a round the loop stands.
#[derive(Debug, Clone, Copy, PartialEq, Eq, Structural)]
pub enum Phase {
    Start,
    ChannelEnd,
    ReadChannel,
    ReadStream,
    WriteStream,
    WriteChannel,
    RoundEnd,
    Idle,
    Stopped,
}

/// What came of an action.
#[derive(Debug)]
pub enum Event {
    /// The answer to a question.
    Answer(bool),
    /// Bytes were read; none of them at the end of the input.
    Read(Vec<u8>),
    /// So many bytes were written.
    Wrote(usize),
    /// Nothing could be read or written right now.
    WouldBlock,
    /// Reading or writing failed for good.
    Failed,
    Slept,
}

/// What an `Event` holds.
pub enum EventView {
    Answer(bool),
    Read(Seq<u8>),
    Wrote(nat),
    WouldBlock,
    Failed,
    Slept,
}

impl View for Event {
    type V = EventView;

    open spec fn view(&self) -> EventView {
        match *self {
            Event::Answer(b) => EventView::Answer(b),
            Event::Read(d) => EventView::Read(d@),
            Event::Wrote(n) => EventView::Wrote(n as nat),
            Event::WouldBlock => EventView::WouldBlock,
            Event::Failed => EventView::Failed,
            Event::Slept => EventView::Slept,
        }
    }
}

/// A connection between a channel and a stream.
pub struct Splice {
    phase: Phase,
    to_stream: Vec<u8>,
    to_channel: Vec<u8>,
    stream_end: bool,
    active: bool,
    cookie: Option<Vec<u8>>,
    setup: Vec<u8>,
    setup_done: bool,
    both: bool,
}

/// What a `Splice` holds.
pub struct SpliceView {
    pub phase: Phase,
    /// Bytes on their way to the stream.
    pub to_stream: Seq<u8>,
    /// Bytes on their way to the channel.
    pub to_channel: Seq<u8>,
    /// Whether the stream is at its end.
    pub stream_end: bool,
    /// Whether anything moved in this round.
    pub active: bool,
    /// The cookie to put into the first packet from the channel.
    pub cookie: Option<Seq<u8>>,
    /// What has arrived of that packet.
    pub setup: Seq<u8>,
    /// Whether that packet is through.
    pub setup_done: bool,
    /// Whether the connection lasts until both sides are at their end, and
    /// not only until either is.
    pub both: bool,
}

/// A connection before its first round.
pub open spec fn fresh(cookie: Option<Seq<u8>>, both: bool) -> SpliceView {
    SpliceView {
        phase: Phase::Start,
        to_stream: Seq::empty(),
        to_channel: Seq::empty(),
        stream_end: false,
        active: false,
        cookie,
        setup: Seq::empty(),
        setup_done: cookie is None,
        both,
    }
}

/// Whether a connection is over, `end` being whether the channel is at its
/// end: nothing waits to be written, and either side, or both where both have
/// to be, is at its end.
pub open spec fn is_over(s: SpliceView, end: bool) -> bool {
    &&& s.to_stream.len() == 0
    &&& s.to_channel.len() == 0
    &&& if s.both {
        end && s.stream_end
    } else {
        end || s.stream_end
    }
}

/// What to do in a phase.
pub open spec fn action_of(p: Phase) -> Action {
    match p {
        Phase::Start => Action::CheckAlive,
        Phase::ChannelEnd => Action::CheckChannelEnd,
        Phase::ReadChannel => Action::ReadChannel,
        Phase::ReadStream => Action::ReadStream,
        Phase::WriteStream => Action::WriteStream,
        Phase::WriteChannel => Action::WriteChannel,
        Phase::RoundEnd => Action::CheckChannelEnd,
        Phase::Idle => Action::Sleep,
        Phase::Stopped => Action::Stop,
    }
}

/// After the reads: write what is there to write.
pub open spec fn to_writes(s: SpliceView) -> SpliceView {
    if s.to_stream.len() > 0 {
        SpliceView { phase: Phase::WriteStream, ..s }
    } else {
        past_stream_writes(s)
    }
}

/// After the writes to the stream.
pub open spec fn past_stream_writes(s: SpliceView) -> SpliceView {
    if s.to_channel.len() > 0 {
        SpliceView { phase: Phase::WriteChannel, ..s }
    } else {
        SpliceView { phase: Phase::RoundEnd, ..s }
    }
}

/// After the read from the channel.
pub open spec fn past_channel_read(s: SpliceView) -> SpliceView {
    if s.stream_end {
        to_writes(s)
    } else {
        SpliceView { phase: Phase::ReadStream, ..s }
    }
}

/// Takes bytes from the channel in: the first packet is held back until it is
/// complete, and then goes on with the local cookie in it.
pub open spec fn with_channel_bytes(s: SpliceView, d: Seq<u8>) -> SpliceView {
    if s.setup_done {
        SpliceView { to_stream: s.to_stream + d, ..s }
    } else {
        let all = s.setup + d;
        let cookie = match s.cookie {
            Some(c) => c,
            None => Seq::empty(),
        };
        if x11::setup_complete(all) {
            SpliceView {
                to_stream: s.to_stream + x11::rewritten(all, cookie),
                setup: Seq::empty(),
                setup_done: true,
                ..s
            }
        } else {
            SpliceView { setup: all, ..s }
        }
    }
}

/// The bytes that remain after `n` of them were written.
pub open spec fn unwritten(b: Seq<u8>, n: nat) -> Seq<u8> {
    if n <= b.len() {
        b.skip(n as int)
    } else {
        Seq::empty()
    }
}

/// The bytes that a write of `n` took.
pub open spec fn written(b: Seq<u8>, n: nat) -> Seq<u8> {
    if n <= b.len() {
        b.take(n as int)
    } else {
        b
    }
}

/// A connection after one more event. An event that does not answer the
/// action at hand changes nothing.
pub open spec fn after(s: SpliceView, e: EventView) -> SpliceView {
    match (s.phase, e) {
        (Phase::Start, EventView::Answer(alive)) => if alive {
            SpliceView { phase: Phase::ChannelEnd, active: false, ..s }
        } else {
            SpliceView { phase: Phase::Stopped, ..s }
        },
        (Phase::ChannelEnd, EventView::Answer(end)) => if end {
            past_channel_read(s)
        } else {
            SpliceView { phase: Phase::ReadChannel, ..s }
        },
        (Phase::ReadChannel, EventView::Read(d)) => if d.len() > 0 {
            past_channel_read(with_channel_bytes(SpliceView { active: true, ..s }, d))
        } else {
            past_channel_read(s)
        },
        (Phase::ReadChannel, EventView::WouldBlock) => past_channel_read(s),
        (Phase::ReadStream, EventView::Read(d)) => if d.len() > 0 {
            to_writes(SpliceView { active: true, to_channel: s.to_channel + d, ..s })
        } else {
            to_writes(SpliceView { stream_end: true, ..s })
        },
        (Phase::ReadStream, EventView::WouldBlock) => to_writes(s),
        (Phase::WriteStream, EventView::Wrote(n)) => if n == 0 {
            past_stream_writes(s)
        } else {
            to_writes(
                SpliceView { active: true, to_stream: unwritten(s.to_stream, n), ..s },
            )
        },
        (Phase::WriteStream, EventView::WouldBlock) => past_stream_writes(s),
        (Phase::WriteChannel, EventView::Wrote(n)) => if n == 0 {
            SpliceView { phase: Phase::RoundEnd, ..s }
        } else {
            past_stream_writes(
                SpliceView { active: true, to_channel: unwritten(s.to_channel, n), ..s },
            )
        },
        (Phase::WriteChannel, EventView::WouldBlock) => SpliceView { phase: Phase::RoundEnd, ..s },
        (Phase::RoundEnd, EventView::Answer(end)) => if is_over(s, end) {
            SpliceView { phase: Phase::Stopped, ..s }
        } else if s.active {
            SpliceView { phase: Phase::Start, ..s }
        } else {
            SpliceView { phase: Phase::Idle, ..s }
        },
        (Phase::Idle, EventView::Slept) => SpliceView { phase: Phase::Start, ..s },
        (Phase::ReadChannel, EventView::Failed) => SpliceView { phase: Phase::Stopped, ..s },
        (Phase::ReadStream, EventView::Failed) => SpliceView { phase: Phase::Stopped, ..s },
        (Phase::WriteStream, EventView::Failed) => SpliceView { phase: Phase::Stopped, ..s },
        (Phase::WriteChannel, EventView::Failed) => SpliceView { phase: Phase::Stopped, ..s },
        _ => s,
    }
}

/// Drops the first `n` bytes, or all of them.
pub(crate) fn drop_front(b: &mut Vec<u8>, n: usize)
    ensures
        final(b)@ == unwritten(old(b)@, n as nat),
{
    if n >= b.len() {
        b.clear();
        assert(b@ =~= unwritten(old(b)@, n as nat));
    } else {
        let rest = b.split_off(n);
        *b = rest;
        assert(b@ =~= unwritten(old(b)@, n as nat));
    }
}

impl Splice {
    /// What the connection holds.
    pub closed spec fn view(&self) -> SpliceView {
        SpliceView {
            phase: self.phase,
            to_stream: self.to_stream@,
            to_channel: self.to_channel@,
            stream_end: self.stream_end,
            active: self.active,
            cookie: text::opt_bytes(self.cookie),
            setup: self.setup@,
            setup_done: self.setup_done,
            both: self.both,
        }
    }

    /// A connection that passes everything on as it is until either side is
    /// at its end.
    pub fn new() -> (r: Self)
        ensures
            r@ == fresh(None, false),
    {
        Self::start(None, false)
    }

    /// A connection to an X11 display, which lasts until both sides are at
    /// their end. The cookie goes into the first packet from the channel;
    /// without one everything is passed on as it is.
    pub fn with_cookie(cookie: Option<Vec<u8>>) -> (r: Self)
        ensures
            r@ == fresh(text::opt_bytes(cookie), true),
    {
        Self::start(cookie, true)
    }

    fn start(cookie: Option<Vec<u8>>, both: bool) -> (r: Self)
        ensures
            r@ == fresh(text::opt_bytes(cookie), both),
    {
        let setup_done = cookie.is_none();
        let r = Splice {
            phase: Phase::Start,
            to_stream: Vec::new(),
            to_channel: Vec::new(),
            stream_end: false,
            active: false,
            cookie,
            setup: Vec::new(),
            setup_done,
            both,
        };
        assert(r.to_stream@ =~= Seq::<u8>::empty());
        r
    }

    /// What to do next.
    pub fn next(&self) -> (r: Action)
        ensures
            r == action_of(self@.phase),
    {
        match self.phase {
            Phase::Start => Action::CheckAlive,
            Phase::ChannelEnd => Action::CheckChannelEnd,
            Phase::ReadChannel => Action::ReadChannel,
            Phase::ReadStream => Action::ReadStream,
            Phase::WriteStream => Action::WriteStream,
            Phase::WriteChannel => Action::WriteChannel,
            Phase::RoundEnd => Action::CheckChannelEnd,
            Phase::Idle => Action::Sleep,
            Phase::Stopped => Action::Stop,
        }
    }

    /// The bytes on their way to the stream.
    pub fn to_stream(&self) -> (r: &Vec<u8>)
        ensures
            r@ == self@.to_stream,
    {
        &self.to_stream
    }

    /// The bytes on their way to the channel.
    pub fn to_channel(&self) -> (r: &Vec<u8>)
        ensures
            r@ == self@.to_channel,
    {
        &self.to_channel
    }

    fn go_past_stream_writes(&mut self)
        ensures
            final(self)@ == past_stream_writes(old(self)@),
    {
        self.phase = if self.to_channel.len() > 0 {
            Phase::WriteChannel
        } else {
            Phase::RoundEnd
        };
    }

    fn go_to_writes(&mut self)
        ensures
            final(self)@ == to_writes(old(self)@),
    {
        if self.to_stream.len() > 0 {
            self.phase = Phase::WriteStream;
        } else {
            self.go_past_stream_writes();
        }
    }

    fn go_past_channel_read(&mut self)
        ensures
            final(self)@ == past_channel_read(old(self)@),
    {
        if self.stream_end {
            self.go_to_writes();
        } else {
            self.phase = Phase::ReadStream;
        }
    }

    fn take_channel_bytes(&mut self, d: Vec<u8>)
        ensures
            final(self)@ == with_channel_bytes(old(self)@, d@),
    {
        if self.setup_done {
            text::push_bytes(&mut self.to_stream, d.as_slice());
        } else {
            text::push_bytes(&mut self.setup, d.as_slice());
            let empty: Vec<u8> = Vec::new();
            assert(empty@ =~= Seq::<u8>::empty());
            let packet = match &self.cookie {
                Some(c) => x11::rewrite_setup(self.setup.as_slice(), c.as_slice()),
                None => x11::rewrite_setup(self.setup.as_slice(), empty.as_slice()),
            };
            if let Some(p) = packet {
                text::push_bytes(&mut self.to_stream, p.as_slice());
                self.setup_done = true;
                self.setup.clear();
                assert(self.setup@ =~= Seq::<u8>::empty());
            }
        }
    }

    /// Takes in what came of an action.
    pub fn step(&mut self, e: Event)
        ensures
            final(self)@ == after(old(self)@, e@),
    {
        match (self.phase, e) {
            (Phase::Start, Event::Answer(alive)) => {
                if alive {
                    self.phase = Phase::ChannelEnd;
                    self.active = false;
                } else {
                    self.phase = Phase::Stopped;
                }
            },
            (Phase::ChannelEnd, Event::Answer(end)) => {
                if end {
                    self.go_past_channel_read();
                } else {
                    self.phase = Phase::ReadChannel;
                }
            },
            (Phase::ReadChannel, Event::Read(d)) => {
                if d.len() > 0 {
                    self.active = true;
                    self.take_channel_bytes(d);
                }
                self.go_past_channel_read();
            },
            (Phase::ReadChannel, Event::WouldBlock) => {
                self.go_past_channel_read();
            },
            (Phase::ReadStream, Event::Read(d)) => {
                if d.len() > 0 {
                    self.active = true;
                    text::push_bytes(&mut self.to_channel, d.as_slice());
                } else {
                    self.stream_end = true;
                }
                self.go_to_writes();
            },
            (Phase::ReadStream, Event::WouldBlock) => {
                self.go_to_writes();
            },
            (Phase::WriteStream, Event::Wrote(n)) => {
                if n == 0 {
                    self.go_past_stream_writes();
                } else {
                    self.active = true;
                    drop_front(&mut self.to_stream, n);
                    self.go_to_writes();
                }
            },
            (Phase::WriteStream, Event::WouldBlock) => {
                self.go_past_stream_writes();
            },
            (Phase::WriteChannel, Event::Wrote(n)) => {
                if n == 0 {
                    self.phase = Phase::RoundEnd;
                } else {
                    self.active = true;
                    drop_front(&mut self.to_channel, n);
                    self.go_past_stream_writes();
                }
            },
            (Phase::WriteChannel, Event::WouldBlock) => {
                self.phase = Phase::RoundEnd;
            },
            (Phase::RoundEnd, Event::Answer(end)) => {
                let ended = if self.both {
                    end && self.stream_end
                } else {
                    end || self.stream_end
                };
                if ended && self.to_stream.len() == 0 && self.to_channel.len() == 0 {
                    self.phase = Phase::Stopped;
                } else if self.active {
                    self.phase = Phase::Start;
                } else {
                    self.phase = Phase::Idle;
                }
            },
            (Phase::Idle, Event::Slept) => {
                self.phase = Phase::Start;
            },
            (Phase::ReadChannel, Event::Failed) => {
                self.phase = Phase::Stopped;
            },
            (Phase::ReadStream, Event::Failed) => {
                self.phase = Phase::Stopped;
            },
            (Phase::WriteStream, Event::Failed) => {
                self.phase = Phase::Stopped;
            },
            (Phase::WriteChannel, Event::Failed) => {
                self.phase = Phase::Stopped;
            },
            _ => {},
        }
    }
}

// ---------- what a whole connection does ----------

/// A connection after a run of events.
pub open spec fn run(s: SpliceView, es: Seq<EventView>) -> SpliceView
    decreases es.len(),
{
    if es.len() == 0 {
        s
    } else {
        after(run(s, es.drop_last()), es.last())
    }
}

/// The bytes that a step reads from the channel.
pub open spec fn read_from_channel(s: SpliceView, e: EventView) -> Seq<u8> {
    match (s.phase, e) {
        (Phase::ReadChannel, EventView::Read(d)) => d,
        _ => Seq::empty(),
    }
}

/// The bytes that a step reads from the stream.
pub open spec fn read_from_stream(s: SpliceView, e: EventView) -> Seq<u8> {
    match (s.phase, e) {
        (Phase::ReadStream, EventView::Read(d)) => d,
        _ => Seq::empty(),
    }
}

/// The bytes that a step writes to the stream.
pub open spec fn written_to_stream(s: SpliceView, e: EventView) -> Seq<u8> {
    match (s.phase, e) {
        (Phase::WriteStream, EventView::Wrote(n)) => written(s.to_stream, n),
        _ => Seq::empty(),
    }
}

/// The bytes that a step writes to the channel.
pub open spec fn written_to_channel(s: SpliceView, e: EventView) -> Seq<u8> {
    match (s.phase, e) {
        (Phase::WriteChannel, EventView::Wrote(n)) => written(s.to_channel, n),
        _ => Seq::empty(),
    }
}

/// All bytes read from the channel.
pub open spec fn from_channel(s: SpliceView, es: Seq<EventView>) -> Seq<u8>
    decreases es.len(),
{
    if es.len() == 0 {
        Seq::empty()
    } else {
        let init = es.drop_last();
        from_channel(s, init) + read_from_channel(run(s, init), es.last())
    }
}

/// All bytes read from the stream.
pub open spec fn from_stream(s: SpliceView, es: Seq<EventView>) -> Seq<u8>
    decreases es.len(),
{
    if es.len() == 0 {
        Seq::empty()
    } else {
        let init = es.drop_last();
        from_stream(s, init) + read_from_stream(run(s, init), es.last())
    }
}

/// All bytes written to the stream.
pub open spec fn into_stream(s: SpliceView, es: Seq<EventView>) -> Seq<u8>
    decreases es.len(),
{
    if es.len() == 0 {
        Seq::empty()
    } else {
        let init = es.drop_last();
        into_stream(s, init) + written_to_stream(run(s, init), es.last())
    }
}

/// All bytes written to the channel.
pub open spec fn into_channel(s: SpliceView, es: Seq<EventView>) -> Seq<u8>
    decreases es.len(),
{
    if es.len() == 0 {
        Seq::empty()
    } else {
        let init = es.drop_last();
        into_channel(s, init) + written_to_channel(run(s, init), es.last())
    }
}

/// What the stream is to get of what the channel gave.
pub open spec fn forwarded(cookie: Option<Seq<u8>>, d: Seq<u8>) -> Seq<u8> {
    match cookie {
        None => d,
        Some(c) => if x11::setup_complete(d) {
            x11::rewritten(d, c)
        } else {
            Seq::empty()
        },
    }
}

/// Whether the first packet is held back exactly until it is complete, `got`
/// being all that came from the channel.
pub open spec fn holds_setup(s: SpliceView, got: Seq<u8>) -> bool {
    &&& s.cookie is None ==> s.setup_done
    &&& !s.setup_done ==> s.setup == got && !x11::setup_complete(got)
    &&& s.cookie is Some && s.setup_done ==> x11::setup_complete(got)
}

proof fn lemma_channel_step(s: SpliceView, e: EventView)
    ensures
        written_to_channel(s, e) + after(s, e).to_channel == s.to_channel + read_from_stream(s, e),
{
    match (s.phase, e) {
        (Phase::ReadStream, EventView::Read(d)) => {
            assert(after(s, e).to_channel =~= s.to_channel + d);
        },
        (Phase::WriteChannel, EventView::Wrote(n)) => {
            assert(written(s.to_channel, n) + unwritten(s.to_channel, n) =~= s.to_channel);
            if n == 0 {
                assert(written(s.to_channel, n) =~= Seq::<u8>::empty());
            }
        },
        _ => {
            assert(after(s, e).to_channel == s.to_channel);
        },
    }
    assert(written_to_channel(s, e) + after(s, e).to_channel =~= s.to_channel + read_from_stream(
        s,
        e,
    ));
}

proof fn lemma_setup_step(s: SpliceView, e: EventView, got: Seq<u8>)
    requires
        holds_setup(s, got),
    ensures
        holds_setup(after(s, e), got + read_from_channel(s, e)),
        after(s, e).cookie == s.cookie,
{
    match (s.phase, e) {
        (Phase::ReadChannel, EventView::Read(d)) => {
            if d.len() == 0 {
                assert(got + d =~= got);
            } else if s.cookie is Some && s.setup_done {
                x11::law_later_bytes_follow_the_setup(got, d, s.cookie->Some_0);
            }
        },
        _ => {
            assert(got + read_from_channel(s, e) =~= got);
        },
    }
}

/// What a step adds to what is to be written to the stream.
pub open spec fn passed_on(s: SpliceView, e: EventView) -> Seq<u8> {
    let d = read_from_channel(s, e);
    if s.setup_done {
        d
    } else if d.len() > 0 && x11::setup_complete(s.setup + d) {
        x11::rewritten(
            s.setup + d,
            match s.cookie {
                Some(c) => c,
                None => Seq::empty(),
            },
        )
    } else {
        Seq::empty()
    }
}

proof fn lemma_stream_step(s: SpliceView, e: EventView)
    ensures
        written_to_stream(s, e) + after(s, e).to_stream == s.to_stream + passed_on(s, e),
{
    match (s.phase, e) {
        (Phase::ReadChannel, EventView::Read(d)) => {
            assert(after(s, e).to_stream =~= s.to_stream + passed_on(s, e));
        },
        (Phase::WriteStream, EventView::Wrote(n)) => {
            assert(written(s.to_stream, n) + unwritten(s.to_stream, n) =~= s.to_stream);
            if n == 0 {
                assert(written(s.to_stream, n) =~= Seq::<u8>::empty());
            }
            assert(passed_on(s, e) =~= Seq::<u8>::empty());
        },
        _ => {
            assert(after(s, e).to_stream == s.to_stream);
            assert(passed_on(s, e) =~= Seq::<u8>::empty());
        },
    }
    assert(written_to_stream(s, e) + after(s, e).to_stream =~= s.to_stream + passed_on(s, e));
}

proof fn lemma_passed_on(s: SpliceView, e: EventView, got: Seq<u8>)
    requires
        holds_setup(s, got),
    ensures
        forwarded(s.cookie, got) + passed_on(s, e) == forwarded(
            s.cookie,
            got + read_from_channel(s, e),
        ),
{
    let d = read_from_channel(s, e);
    if d.len() == 0 {
        assert(got + d =~= got);
        assert(passed_on(s, e) =~= Seq::<u8>::empty());
        assert(forwarded(s.cookie, got) + passed_on(s, e) =~= forwarded(s.cookie, got));
    } else if s.cookie is Some {
        if s.setup_done {
            x11::law_later_bytes_follow_the_setup(got, d, s.cookie->Some_0);
        } else {
            assert(forwarded(s.cookie, got) =~= Seq::<u8>::empty());
            assert(forwarded(s.cookie, got) + passed_on(s, e) =~= passed_on(s, e));
        }
    }
}

proof fn lemma_moved(done: Seq<u8>, moved: Seq<u8>, left: Seq<u8>, held: Seq<u8>, more: Seq<u8>)
    requires
        moved + left == held + more,
    ensures
        (done + moved) + left == (done + held) + more,
{
    assert((done + moved) + left =~= done + (moved + left));
    assert((done + held) + more =~= done + (held + more));
}

/// Every byte from the stream reaches the channel once and in order: what was
/// written and what waits to be written is exactly what was read.
pub proof fn law_nothing_is_lost_to_the_channel(
    cookie: Option<Seq<u8>>,
    both: bool,
    es: Seq<EventView>,
)
    ensures
        into_channel(fresh(cookie, both), es) + run(fresh(cookie, both), es).to_channel == from_stream(
            fresh(cookie, both),
            es,
        ),
    decreases es.len(),
{
    let s = fresh(cookie, both);
    if es.len() > 0 {
        let init = es.drop_last();
        law_nothing_is_lost_to_the_channel(cookie, both, init);
        let mid = run(s, init);
        let e = es.last();
        lemma_channel_step(mid, e);
        lemma_moved(
            into_channel(s, init),
            written_to_channel(mid, e),
            after(mid, e).to_channel,
            mid.to_channel,
            read_from_stream(mid, e),
        );
    } else {
        assert(into_channel(s, es) + run(s, es).to_channel =~= from_stream(s, es));
    }
}

proof fn lemma_setup_held_back(
    cookie: Option<Seq<u8>>,
    both: bool,
    es: Seq<EventView>,
)
    ensures
        holds_setup(run(fresh(cookie, both), es), from_channel(fresh(cookie, both), es)),
        run(fresh(cookie, both), es).cookie == cookie,
    decreases es.len(),
{
    if es.len() > 0 {
        let init = es.drop_last();
        lemma_setup_held_back(cookie, both, init);
        lemma_setup_step(
            run(fresh(cookie, both), init),
            es.last(),
            from_channel(fresh(cookie, both), init),
        );
    }
}

/// Every byte from the channel reaches the stream once and in order, with the
/// local cookie in the first packet of an X11 connection: what was written
/// and what waits to be written is exactly what is to be passed on.
pub proof fn law_nothing_is_lost_to_the_stream(
    cookie: Option<Seq<u8>>,
    both: bool,
    es: Seq<EventView>,
)
    ensures
        into_stream(fresh(cookie, both), es) + run(fresh(cookie, both), es).to_stream == forwarded(
            cookie,
            from_channel(fresh(cookie, both), es),
        ),
    decreases es.len(),
{
    let s = fresh(cookie, both);
    if es.len() > 0 {
        let init = es.drop_last();
        law_nothing_is_lost_to_the_stream(cookie, both, init);
        lemma_setup_held_back(cookie, both, init);
        let mid = run(s, init);
        let e = es.last();
        lemma_stream_step(mid, e);
        lemma_passed_on(mid, e, from_channel(s, init));
        lemma_moved(
            into_stream(s, init),
            written_to_stream(mid, e),
            after(mid, e).to_stream,
            mid.to_stream,
            passed_on(mid, e),
        );
    } else {
        assert(into_stream(s, es) + run(s, es).to_stream =~= Seq::<u8>::empty());
        assert(forwarded(cookie, Seq::empty()) =~= Seq::<u8>::empty());
    }
}

/// A connection ends of itself exactly when nothing waits to be written and
/// either side is at its end, or, to a display, both sides are; otherwise only
/// a failure or the end of the session stops it.
pub proof fn law_a_connection_ends_for_a_reason(s: SpliceView, e: EventView)
    requires
        s.phase != Phase::Stopped,
    ensures
        after(s, e).phase == Phase::Stopped <==> ({
            ||| e is Failed && (s.phase == Phase::ReadChannel || s.phase == Phase::ReadStream
                || s.phase == Phase::WriteStream || s.phase == Phase::WriteChannel)
            ||| s.phase == Phase::Start && e == EventView::Answer(false)
            ||| s.phase == Phase::RoundEnd && (e matches EventView::Answer(end) && is_over(s, end))
        }),
{
}

/// What a connection lasts for is settled from the start: a bridge and a
/// tunnel end with either side, a display with both.
pub proof fn law_an_end_is_settled(cookie: Option<Seq<u8>>, both: bool, es: Seq<EventView>)
    ensures
        run(fresh(cookie, both), es).both == both,
    decreases es.len(),
{
    if es.len() > 0 {
        law_an_end_is_settled(cookie, both, es.drop_last());
    }
}

/// Where everything is delivered and one side is at its end, the next round
/// ends a connection that is not to a display, though the other side is open
/// and silent.
pub proof fn law_a_closed_side_ends_a_quiet_connection(s: SpliceView, end: bool)
    requires
        s.phase == Phase::Start,
        !s.both,
        end || s.stream_end,
        s.to_stream.len() == 0,
        s.to_channel.len() == 0,
    ensures
        ({
            let asked = after(after(s, EventView::Answer(true)), EventView::Answer(end));
            let read = after(asked, EventView::WouldBlock);
            after(read, EventView::Answer(end)).phase == Phase::Stopped
        }),
{
}

/// A stopped connection stays as it is.
pub proof fn law_stopped_is_stopped(s: SpliceView, e: EventView)
    requires
        s.phase == Phase::Stopped,
    ensures
        after(s, e) == s,
{
}

// ---------- what each step does ----------

/// A connection begins with nothing on its way; the first bytes are held back
/// for the cookie exactly if there is one to put in.
pub proof fn law_a_connection_begins_empty(cookie: Option<Seq<u8>>, both: bool)
    ensures
        ({
            let s = fresh(cookie, both);
            &&& s.phase == Phase::Start
            &&& s.to_stream.len() == 0
            &&& s.to_channel.len() == 0
            &&& s.setup.len() == 0
            &&& !s.stream_end
            &&& s.setup_done <==> cookie is None
            &&& s.cookie == cookie
            &&& s.both == both
        }),
{
}

/// Every round asks first whether the session is alive, and the connection
/// stops if it is not; then it asks for the channel's end, and reads from the
/// channel unless it has ended.
pub proof fn law_a_round_begins_with_a_look(s: SpliceView)
    ensures
        s.phase == Phase::Start ==> after(s, EventView::Answer(false)) == (SpliceView {
            phase: Phase::Stopped,
            ..s
        }),
        s.phase == Phase::Start ==> after(s, EventView::Answer(true)) == (SpliceView {
            phase: Phase::ChannelEnd,
            active: false,
            ..s
        }),
        s.phase == Phase::ChannelEnd ==> after(s, EventView::Answer(false)) == (SpliceView {
            phase: Phase::ReadChannel,
            ..s
        }),
        s.phase == Phase::ChannelEnd ==> after(s, EventView::Answer(true)) == (SpliceView {
            phase: after(s, EventView::Answer(true)).phase,
            ..s
        }),
        s.phase == Phase::Idle ==> after(s, EventView::Slept) == (SpliceView {
            phase: Phase::Start,
            ..s
        }),
{
}

/// Whether a phase is the next thing to do once the channel was read.
pub open spec fn is_due_after_reading(s: SpliceView) -> bool {
    if !s.stream_end {
        s.phase == Phase::ReadStream
    } else {
        is_due_before_writing(s)
    }
}

/// Whether a phase is the next thing to do once both sides were read.
pub open spec fn is_due_before_writing(s: SpliceView) -> bool {
    if s.to_stream.len() > 0 {
        s.phase == Phase::WriteStream
    } else if s.to_channel.len() > 0 {
        s.phase == Phase::WriteChannel
    } else {
        s.phase == Phase::RoundEnd
    }
}

/// After the channel the stream is read, unless it has ended; then what is
/// there is written, to the stream first and to the channel next.
pub proof fn law_reads_come_before_writes(s: SpliceView, d: Seq<u8>)
    ensures
        s.phase == Phase::ChannelEnd ==> is_due_after_reading(after(s, EventView::Answer(true))),
        s.phase == Phase::ReadChannel ==> is_due_after_reading(after(s, EventView::Read(d))),
        s.phase == Phase::ReadChannel ==> is_due_after_reading(after(s, EventView::WouldBlock)),
        s.phase == Phase::ReadStream ==> is_due_before_writing(after(s, EventView::Read(d))),
        s.phase == Phase::ReadStream ==> is_due_before_writing(after(s, EventView::WouldBlock)),
{
}

/// What is read on one side waits to be written on the other, and makes the
/// round an active one. A read that brings nothing changes nothing, but for
/// the stream: there it is the end.
pub proof fn law_what_is_read_goes_to_the_other_side(s: SpliceView, d: Seq<u8>)
    ensures
        s.phase == Phase::ReadStream && d.len() > 0 ==> {
            let q = after(s, EventView::Read(d));
            q == (SpliceView { phase: q.phase, to_channel: s.to_channel + d, active: true, ..s })
        },
        s.phase == Phase::ReadStream && d.len() == 0 ==> {
            let q = after(s, EventView::Read(d));
            q == (SpliceView { phase: q.phase, stream_end: true, ..s })
        },
        s.phase == Phase::ReadStream ==> {
            let q = after(s, EventView::WouldBlock);
            q == (SpliceView { phase: q.phase, ..s })
        },
        s.phase == Phase::ReadChannel && d.len() > 0 && s.setup_done ==> {
            let q = after(s, EventView::Read(d));
            q == (SpliceView { phase: q.phase, to_stream: s.to_stream + d, active: true, ..s })
        },
        s.phase == Phase::ReadChannel && d.len() == 0 ==> {
            let q = after(s, EventView::Read(d));
            q == (SpliceView { phase: q.phase, ..s })
        },
        s.phase == Phase::ReadChannel ==> {
            let q = after(s, EventView::WouldBlock);
            q == (SpliceView { phase: q.phase, ..s })
        },
{
}

/// While the first bytes are held back nothing reaches the stream; once they
/// are complete they go there with the cookie in them, and what follows passes
/// unchanged.
pub proof fn law_the_first_bytes_are_held_back(s: SpliceView, d: Seq<u8>, cookie: Seq<u8>)
    requires
        s.phase == Phase::ReadChannel,
        !s.setup_done,
        s.cookie == Some(cookie),
        d.len() > 0,
    ensures
        ({
            let q = after(s, EventView::Read(d));
            let whole = x11::setup_complete(s.setup + d);
            &&& q.active
            &&& q.to_channel == s.to_channel
            &&& q.stream_end == s.stream_end
            &&& q.setup_done <==> whole
            &&& whole ==> q.to_stream == s.to_stream + x11::rewritten(s.setup + d, cookie)
                && q.setup.len() == 0
            &&& !whole ==> q.to_stream == s.to_stream && q.setup == s.setup + d
        }),
{
}

/// What was written is not written again, and the rest follows while the side
/// takes bytes; a side that takes none, or would block, waits for the next
/// round with its bytes.
pub proof fn law_writes_go_on_until_a_side_is_full(s: SpliceView, n: nat)
    ensures
        s.phase == Phase::WriteStream && 0 < n < s.to_stream.len() ==> after(
            s,
            EventView::Wrote(n),
        ) == (SpliceView { to_stream: s.to_stream.skip(n as int), active: true, ..s }),
        s.phase == Phase::WriteStream && 0 < n && n >= s.to_stream.len() ==> {
            let q = after(s, EventView::Wrote(n));
            &&& q == (SpliceView { phase: q.phase, to_stream: Seq::empty(), active: true, ..s })
            &&& is_due_before_writing(q)
        },
        s.phase == Phase::WriteStream ==> {
            let full = if s.to_channel.len() > 0 {
                SpliceView { phase: Phase::WriteChannel, ..s }
            } else {
                SpliceView { phase: Phase::RoundEnd, ..s }
            };
            after(s, EventView::Wrote(0)) == full && after(s, EventView::WouldBlock) == full
        },
        s.phase == Phase::WriteChannel && 0 < n < s.to_channel.len() ==> after(
            s,
            EventView::Wrote(n),
        ) == (SpliceView { to_channel: s.to_channel.skip(n as int), active: true, ..s }),
        s.phase == Phase::WriteChannel && 0 < n && n >= s.to_channel.len() ==> after(
            s,
            EventView::Wrote(n),
        ) == (SpliceView {
            phase: Phase::RoundEnd,
            to_channel: Seq::empty(),
            active: true,
            ..s
        }),
        s.phase == Phase::WriteChannel ==> {
            let full = SpliceView { phase: Phase::RoundEnd, ..s };
            after(s, EventView::Wrote(0)) == full && after(s, EventView::WouldBlock) == full
        },
{
    if n == s.to_stream.len() {
        assert(s.to_stream.skip(n as int) =~= Seq::empty());
    }
    if n == s.to_channel.len() {
        assert(s.to_channel.skip(n as int) =~= Seq::empty());
    }
}

/// A read or a write that fails ends the connection.
pub proof fn law_a_failure_ends_the_connection(s: SpliceView)
    requires
        s.phase == Phase::ReadChannel || s.phase == Phase::ReadStream || s.phase
            == Phase::WriteStream || s.phase == Phase::WriteChannel,
    ensures
        after(s, EventView::Failed) == (SpliceView { phase: Phase::Stopped, ..s }),
{
}

/// At the end of a round a connection with bytes on their way goes on; one
/// without stops when a side has ended, or only when both have where that was
/// asked for. One that goes on waits first exactly if nothing moved.
pub proof fn law_a_round_ends_in_a_decision(s: SpliceView, end: bool)
    requires
        s.phase == Phase::RoundEnd,
    ensures
        ({
            let q = after(s, EventView::Answer(end));
            let quiet = s.to_stream.len() == 0 && s.to_channel.len() == 0;
            let over = quiet && if s.both {
                end && s.stream_end
            } else {
                end || s.stream_end
            };
            &&& over ==> q == (SpliceView { phase: Phase::Stopped, ..s })
            &&& !over && s.active ==> q == (SpliceView { phase: Phase::Start, ..s })
            &&& !over && !s.active ==> q == (SpliceView { phase: Phase::Idle, ..s })
        }),
{
}

/// Each phase has its own action; the channel's end is asked for twice in a
/// round.
pub proof fn law_each_phase_has_its_action(p: Phase)
    ensures
        action_of(p) == Action::CheckAlive <==> p == Phase::Start,
        action_of(p) == Action::CheckChannelEnd <==> p == Phase::ChannelEnd || p == Phase::RoundEnd,
        action_of(p) == Action::ReadChannel <==> p == Phase::ReadChannel,
        action_of(p) == Action::ReadStream <==> p == Phase::ReadStream,
        action_of(p) == Action::WriteStream <==> p == Phase::WriteStream,
        action_of(p) == Action::WriteChannel <==> p == Phase::WriteChannel,
        action_of(p) == Action::Sleep <==> p == Phase::Idle,
        action_of(p) == Action::Stop <==> p == Phase::Stopped,
{
}

/// Whether an event can come of a phase.
pub open spec fn comes_of(p: Phase, e: EventView) -> bool {
    let reads = p == Phase::ReadChannel || p == Phase::ReadStream;
    let writes = p == Phase::WriteStream || p == Phase::WriteChannel;
    match e {
        EventView::Answer(_) => p == Phase::Start || p == Phase::ChannelEnd || p
            == Phase::RoundEnd,
        EventView::Read(_) => reads,
        EventView::Wrote(_) => writes,
        EventView::WouldBlock => reads || writes,
        EventView::Failed => reads || writes,
        EventView::Slept => p == Phase::Idle,
    }
}

/// An event that cannot come of the phase at hand changes nothing, and no event
/// changes what a connection is for.
pub proof fn law_a_connection_keeps_its_purpose(s: SpliceView, e: EventView)
    ensures
        !comes_of(s.phase, e) ==> after(s, e) == s,
        after(s, e).cookie == s.cookie,
        after(s, e).both == s.both,
        s.setup_done ==> after(s, e).setup_done,
        s.stream_end ==> after(s, e).stream_end,
{
}

/// An event stands for what it says.
pub proof fn law_an_event_stands_for_what_it_says(e: Event)
    ensures
        match e {
            Event::Answer(yes) => e@ == EventView::Answer(yes),
            Event::Read(d) => e@ == EventView::Read(d@),
            Event::Wrote(n) => e@ == EventView::Wrote(n as nat),
            Event::WouldBlock => e@ == EventView::WouldBlock,
            Event::Failed => e@ == EventView::Failed,
            Event::Slept => e@ == EventView::Slept,
        },
{
}

} // verus!
