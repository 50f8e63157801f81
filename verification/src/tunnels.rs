//! Port forwards of a host: local, remote, and a SOCKS5 proxy.

use vstd::prelude::*;
use crate::connect;
use crate::hosts;
use crate::hosts::{Tunnel, TunnelKind};
use crate::text;
use crate::waits;

verus! {

/// A line about tunnels, as it is shown in the terminal.
pub fn notice(msg: &str) -> (r: String)
    ensures
        r@ == "\r\n\x1b[36m[tunnel] "@ + msg@ + "\x1b[0m\r\n"@,
{
    let mut out: String = "\r\n\x1b[36m[tunnel] ".to_owned();
    out.append(msg);
    out.append("\x1b[0m\r\n");
    out
}

/// What a tunnel is called. `bound` is the port that its listener got.
pub open spec fn description(t: hosts::TunnelView, bound: u16) -> Seq<char> {
    match t.kind {
        TunnelKind::Local => "local "@ + connect::address_of(t.bind, t.listen_port) + " → "@
            + connect::address_of(t.target_host, t.target_port),
        TunnelKind::Remote => "remote "@ + connect::address_of(t.bind, bound) + " → "@
            + connect::address_of(t.target_host, t.target_port),
        TunnelKind::Dynamic => "socks5 "@ + connect::address_of(t.bind, t.listen_port),
    }
}

/// Says what a tunnel is called.
pub fn describe(t: &Tunnel, bound: u16) -> (r: String)
    ensures
        r@ == description(t@, bound),
{
    match t.kind {
        TunnelKind::Local => {
            let mut out: String = "local ".to_owned();
            out.append(connect::address(t.bind.as_str(), t.listen_port).as_str());
            out.append(" → ");
            out.append(connect::address(t.target_host.as_str(), t.target_port).as_str());
            out
        },
        TunnelKind::Remote => {
            let mut out: String = "remote ".to_owned();
            out.append(connect::address(t.bind.as_str(), bound).as_str());
            out.append(" → ");
            out.append(connect::address(t.target_host.as_str(), t.target_port).as_str());
            out
        },
        TunnelKind::Dynamic => {
            let mut out: String = "socks5 ".to_owned();
            out.append(connect::address(t.bind.as_str(), t.listen_port).as_str());
            out
        },
    }
}

/// Says that a tunnel listens.
pub fn listening(desc: &str) -> (r: String)
    ensures
        r@ == "listening "@ + desc@,
{
    let mut out: String = "listening ".to_owned();
    out.append(desc);
    out
}

/// What a tunnel that could not listen failed with.
pub open spec fn listen_error_text(t: hosts::TunnelView, error: Seq<char>) -> Seq<char> {
    match t.kind {
        TunnelKind::Remote => "remote listen "@ + connect::address_of(t.bind, t.listen_port)
            + " refused: "@ + error,
        _ => "cannot listen on "@ + connect::address_of(t.bind, t.listen_port) + ": "@ + error,
    }
}

/// Says what a tunnel that could not listen failed with.
pub fn listen_error(t: &Tunnel, error: &str) -> (r: String)
    ensures
        r@ == listen_error_text(t@, error@),
{
    let at = connect::address(t.bind.as_str(), t.listen_port);
    match t.kind {
        TunnelKind::Remote => {
            let mut out: String = "remote listen ".to_owned();
            out.append(at.as_str());
            out.append(" refused: ");
            out.append(error);
            out
        },
        _ => {
            let mut out: String = "cannot listen on ".to_owned();
            out.append(at.as_str());
            out.append(": ");
            out.append(error);
            out
        },
    }
}

/// Says that the target of a remote tunnel could not be reached.
pub fn target_error(host: &str, port: u16, error: &str) -> (r: String)
    ensures
        r@ == "remote tunnel connect to "@ + connect::address_of(host@, port) + " failed: "@
            + error@,
{
    let mut out: String = "remote tunnel connect to ".to_owned();
    out.append(connect::address(host, port).as_str());
    out.append(" failed: ");
    out.append(error);
    out
}

/// Says that the server refused a channel to a target.
pub fn channel_error(host: &str, port: u16, error: &str) -> (r: String)
    ensures
        r@ == "channel to "@ + connect::address_of(host@, port) + " refused: "@ + error@,
{
    let mut out: String = "channel to ".to_owned();
    out.append(connect::address(host, port).as_str());
    out.append(" refused: ");
    out.append(error);
    out
}

/// Says that a SOCKS5 handshake failed.
pub fn handshake_error(error: &str) -> (r: String)
    ensures
        r@ == "socks5 handshake failed: "@ + error@,
{
    let mut out: String = "socks5 handshake failed: ".to_owned();
    out.append(error);
    out
}

/// What is told of a tunnel that is over.
pub open spec fn over_text(r: Result<Seq<char>, Seq<char>>) -> Seq<char> {
    match r {
        Ok(desc) => desc + " closed"@,
        Err(e) => "unavailable: "@ + e,
    }
}

/// Tells of a tunnel that is over: what it is called, or what it failed with.
pub fn over(r: Result<String, String>) -> (msg: String)
    ensures
        msg@ == over_text(
            match r {
                Ok(d) => Ok(d@),
                Err(e) => Err(e@),
            },
        ),
{
    match r {
        Ok(desc) => {
            let mut out: String = desc;
            out.append(" closed");
            out
        },
        Err(e) => {
            let mut out: String = "unavailable: ".to_owned();
            out.append(e.as_str());
            out
        },
    }
}

// ---------- listeners ----------

/// What a listener is for.
#[derive(Debug, Clone, Copy, PartialEq, Eq, Structural)]
pub enum ListenKind {
    Local,
    Remote,
    Dynamic,
    /// The listener of a forwarded X display.
    Display,
}

/// The listener that a tunnel needs.
pub fn listener_of(kind: TunnelKind) -> (r: ListenKind)
    ensures
        r == match kind {
            TunnelKind::Local => ListenKind::Local,
            TunnelKind::Remote => ListenKind::Remote,
            TunnelKind::Dynamic => ListenKind::Dynamic,
        },
{
    match kind {
        TunnelKind::Local => ListenKind::Local,
        TunnelKind::Remote => ListenKind::Remote,
        TunnelKind::Dynamic => ListenKind::Dynamic,
    }
}

/// Whether a listener is on the other side of an SSH connection, which is to
/// be kept alive.
pub open spec fn is_far(kind: ListenKind) -> bool {
    kind == ListenKind::Remote || kind == ListenKind::Display
}

/// What to do next.
#[derive(Debug, Clone, Copy, PartialEq, Eq, Structural)]
pub enum ListenAction {
    /// Say whether the session that owns the listener is still alive.
    CheckAlive,
    /// Say how many milliseconds have passed since the last keepalive.
    CheckClock,
    /// Send a keepalive, and count the time from now on.
    Keepalive,
    Accept,
    /// Serve the accepted connection, on its own.
    Serve,
    /// Wait a moment.
    Sleep,
    Finish,
}

/// What came of an action.
#[derive(Debug)]
pub enum ListenEvent {
    Alive(bool),
    Elapsed(u64),
    Done,
    WouldBlock,
    Failed(String),
}

/// What a `ListenEvent` holds.
pub enum ListenEventView {
    Alive(bool),
    Elapsed(u64),
    Done,
    WouldBlock,
    Failed(Seq<char>),
}

impl View for ListenEvent {
    type V = ListenEventView;

    open spec fn view(&self) -> ListenEventView {
        match *self {
            ListenEvent::Alive(b) => ListenEventView::Alive(b),
            ListenEvent::Elapsed(ms) => ListenEventView::Elapsed(ms),
            ListenEvent::Done => ListenEventView::Done,
            ListenEvent::WouldBlock => ListenEventView::WouldBlock,
            ListenEvent::Failed(e) => ListenEventView::Failed(e@),
        }
    }
}

/// A listener at work.
pub struct Listener {
    kind: ListenKind,
    action: ListenAction,
    error: Option<String>,
}

/// What a `Listener` holds.
pub struct ListenerView {
    pub kind: ListenKind,
    pub action: ListenAction,
    /// What it failed with.
    pub error: Option<Seq<char>>,
}

/// A listener before its first round.
pub open spec fn fresh_listener(kind: ListenKind) -> ListenerView {
    ListenerView { kind, action: ListenAction::CheckAlive, error: None }
}

/// What a listener failed with, in words.
pub open spec fn accept_error(kind: ListenKind, error: Seq<char>) -> Seq<char> {
    match kind {
        ListenKind::Local => "local listener failed: "@ + error,
        ListenKind::Remote => "remote listener failed: "@ + error,
        ListenKind::Dynamic => "socks5 listener failed: "@ + error,
        ListenKind::Display => "forward listener failed: "@ + error,
    }
}

/// A listener after one more event. An event that does not answer the action
/// at hand changes nothing.
pub open spec fn after(l: ListenerView, e: ListenEventView) -> ListenerView {
    match (l.action, e) {
        (ListenAction::CheckAlive, ListenEventView::Alive(yes)) => ListenerView {
            action: if !yes {
                ListenAction::Finish
            } else if is_far(l.kind) {
                ListenAction::CheckClock
            } else {
                ListenAction::Accept
            },
            ..l
        },
        (ListenAction::CheckClock, ListenEventView::Elapsed(ms)) => ListenerView {
            action: if ms >= waits::KEEPALIVE_MILLIS {
                ListenAction::Keepalive
            } else {
                ListenAction::Accept
            },
            ..l
        },
        (ListenAction::Keepalive, ListenEventView::Done) => ListenerView {
            action: ListenAction::Accept,
            ..l
        },
        (ListenAction::Keepalive, ListenEventView::WouldBlock) => ListenerView {
            action: ListenAction::Accept,
            ..l
        },
        (ListenAction::Keepalive, ListenEventView::Failed(_)) => ListenerView {
            action: ListenAction::Finish,
            ..l
        },
        (ListenAction::Accept, ListenEventView::Done) => ListenerView {
            action: ListenAction::Serve,
            ..l
        },
        (ListenAction::Accept, ListenEventView::WouldBlock) => ListenerView {
            action: ListenAction::Sleep,
            ..l
        },
        (ListenAction::Accept, ListenEventView::Failed(x)) => ListenerView {
            action: ListenAction::Finish,
            error: Some(accept_error(l.kind, x)),
            ..l
        },
        (ListenAction::Serve, ListenEventView::Done) => ListenerView {
            action: ListenAction::CheckAlive,
            ..l
        },
        (ListenAction::Sleep, ListenEventView::Done) => ListenerView {
            action: ListenAction::CheckAlive,
            ..l
        },
        _ => l,
    }
}

impl Listener {
    /// What the listener holds.
    pub closed spec fn view(&self) -> ListenerView {
        ListenerView {
            kind: self.kind,
            action: self.action,
            error: text::opt_text(self.error),
        }
    }

    /// A listener before its first round.
    pub fn new(kind: ListenKind) -> (r: Self)
        ensures
            r@ == fresh_listener(kind),
    {
        Listener { kind, action: ListenAction::CheckAlive, error: None }
    }

    /// What to do next.
    pub fn next(&self) -> (r: ListenAction)
        ensures
            r == self@.action,
    {
        self.action
    }

    /// What a listener that is over came to.
    pub fn result(&self) -> (r: Result<(), String>)
        ensures
            text::result_text(r) == match self@.error {
                Some(e) => Err(e),
                None => Ok(()),
            },
    {
        match &self.error {
            Some(e) => Err(e.clone()),
            None => Ok(()),
        }
    }

    /// Takes in what came of the action at hand.
    pub fn step(&mut self, e: ListenEvent)
        ensures
            final(self)@ == after(old(self)@, e@),
    {
        match (self.action, e) {
            (ListenAction::CheckAlive, ListenEvent::Alive(yes)) => {
                self.action = if !yes {
                    ListenAction::Finish
                } else if self.kind == ListenKind::Remote || self.kind == ListenKind::Display {
                    ListenAction::CheckClock
                } else {
                    ListenAction::Accept
                };
            },
            (ListenAction::CheckClock, ListenEvent::Elapsed(ms)) => {
                self.action = if ms >= waits::KEEPALIVE_MILLIS {
                    ListenAction::Keepalive
                } else {
                    ListenAction::Accept
                };
            },
            (ListenAction::Keepalive, ListenEvent::Done) => self.action = ListenAction::Accept,
            (ListenAction::Keepalive, ListenEvent::WouldBlock) => self.action =
            ListenAction::Accept,
            (ListenAction::Keepalive, ListenEvent::Failed(_)) => self.action =
            ListenAction::Finish,
            (ListenAction::Accept, ListenEvent::Done) => self.action = ListenAction::Serve,
            (ListenAction::Accept, ListenEvent::WouldBlock) => self.action = ListenAction::Sleep,
            (ListenAction::Accept, ListenEvent::Failed(x)) => {
                let mut out: String = match self.kind {
                    ListenKind::Local => "local listener failed: ".to_owned(),
                    ListenKind::Remote => "remote listener failed: ".to_owned(),
                    ListenKind::Dynamic => "socks5 listener failed: ".to_owned(),
                    ListenKind::Display => "forward listener failed: ".to_owned(),
                };
                out.append(x.as_str());
                self.error = Some(out);
                self.action = ListenAction::Finish;
            },
            (ListenAction::Serve, ListenEvent::Done) => self.action = ListenAction::CheckAlive,
            (ListenAction::Sleep, ListenEvent::Done) => self.action = ListenAction::CheckAlive,
            _ => {},
        }
    }
}

// ---------- laws ----------

/// A listener ends for a reason: its session has ended, its connection is
/// dead, or it cannot accept any more, and only the last is an error.
pub proof fn law_a_listener_ends_for_a_reason(l: ListenerView, e: ListenEventView)
    requires
        l.action != ListenAction::Finish,
        l.error is None,
        after(l, e).action == ListenAction::Finish,
    ensures
        ({
            ||| l.action == ListenAction::CheckAlive && e == ListenEventView::Alive(false)
                && after(l, e).error is None
            ||| l.action == ListenAction::Keepalive && e is Failed && after(l, e).error is None
            ||| l.action == ListenAction::Accept && e is Failed && after(l, e).error is Some
        }),
{
}

/// A connection is served only after it was looked whether the session is
/// still alive: between any two connections there is such a look.
pub proof fn law_no_connection_without_a_look(l: ListenerView, e: ListenEventView)
    requires
        l.action == ListenAction::Serve,
        after(l, e) != l,
    ensures
        after(l, e).action == ListenAction::CheckAlive,
{
}

/// A tunnel is described by its kind, the address it listens on and, unless
/// the client names the target, the address it leads to. A remote tunnel
/// listens on the port that the server gave it.
pub proof fn law_a_tunnel_is_described_by_its_ends(t: hosts::TunnelView, bound: u16)
    ensures
        ({
            let here = t.bind + ":"@ + text::dec(t.listen_port as nat);
            let there = t.bind + ":"@ + text::dec(bound as nat);
            let target = t.target_host + ":"@ + text::dec(t.target_port as nat);
            &&& t.kind == TunnelKind::Local ==> description(t, bound) == "local "@ + here + " → "@
                + target
            &&& t.kind == TunnelKind::Remote ==> description(t, bound) == "remote "@ + there
                + " → "@ + target
            &&& t.kind == TunnelKind::Dynamic ==> description(t, bound) == "socks5 "@ + here
        }),
{
}

/// A tunnel that cannot listen says where it tried to, and who refused.
pub proof fn law_a_refused_tunnel_names_its_address(t: hosts::TunnelView, error: Seq<char>)
    ensures
        ({
            let here = t.bind + ":"@ + text::dec(t.listen_port as nat);
            &&& t.kind == TunnelKind::Remote ==> listen_error_text(t, error) == "remote listen "@
                + here + " refused: "@ + error
            &&& t.kind != TunnelKind::Remote ==> listen_error_text(t, error)
                == "cannot listen on "@ + here + ": "@ + error
        }),
{
}

/// A tunnel that is over was closed, or could not be had at all.
pub proof fn law_the_end_of_a_tunnel_is_told(desc: Seq<char>, error: Seq<char>)
    ensures
        over_text(Ok(desc)) == desc + " closed"@,
        over_text(Err(error)) == "unavailable: "@ + error,
{
}

/// A listener begins with a look at the session, whatever its kind.
pub proof fn law_a_listener_begins_with_a_look(kind: ListenKind)
    ensures
        fresh_listener(kind).action == ListenAction::CheckAlive,
        fresh_listener(kind).kind == kind,
        fresh_listener(kind).error is None,
{
}

/// While its session lives a listener goes on, and one at the far end looks
/// after the connection first; with the session it ends, without an error.
pub proof fn law_a_listener_lives_with_its_session(l: ListenerView)
    requires
        l.action == ListenAction::CheckAlive,
    ensures
        ({
            let far = l.kind == ListenKind::Remote || l.kind == ListenKind::Display;
            &&& after(l, ListenEventView::Alive(false)) == (ListenerView {
                action: ListenAction::Finish,
                ..l
            })
            &&& far ==> after(l, ListenEventView::Alive(true)) == (ListenerView {
                action: ListenAction::CheckClock,
                ..l
            })
            &&& !far ==> after(l, ListenEventView::Alive(true)) == (ListenerView {
                action: ListenAction::Accept,
                ..l
            })
        }),
{
}

/// A keepalive is sent once fifteen seconds have passed, not before, and then
/// connections are accepted again; only one that fails ends the listener.
pub proof fn law_a_far_listener_keeps_its_connection(
    l: ListenerView,
    millis: u64,
    error: Seq<char>,
)
    ensures
        l.action == ListenAction::CheckClock && millis >= 15000 ==> after(
            l,
            ListenEventView::Elapsed(millis),
        ) == (ListenerView { action: ListenAction::Keepalive, ..l }),
        l.action == ListenAction::CheckClock && millis < 15000 ==> after(
            l,
            ListenEventView::Elapsed(millis),
        ) == (ListenerView { action: ListenAction::Accept, ..l }),
        l.action == ListenAction::Keepalive ==> after(l, ListenEventView::Done) == (ListenerView {
            action: ListenAction::Accept,
            ..l
        }),
        l.action == ListenAction::Keepalive ==> after(l, ListenEventView::WouldBlock) == (
        ListenerView { action: ListenAction::Accept, ..l }),
        l.action == ListenAction::Keepalive ==> after(l, ListenEventView::Failed(error)) == (
        ListenerView { action: ListenAction::Finish, ..l }),
{
}

/// A connection that comes is served, and the next one is waited for; where
/// none is there the listener pauses. An error ends it, and says whose it was.
pub proof fn law_connections_are_served_one_by_one(l: ListenerView, error: Seq<char>)
    ensures
        l.action == ListenAction::Accept ==> {
            let failed = after(l, ListenEventView::Failed(error));
            let who = match l.kind {
                ListenKind::Local => "local listener failed: "@,
                ListenKind::Remote => "remote listener failed: "@,
                ListenKind::Dynamic => "socks5 listener failed: "@,
                ListenKind::Display => "forward listener failed: "@,
            };
            &&& after(l, ListenEventView::Done) == (ListenerView {
                action: ListenAction::Serve,
                ..l
            })
            &&& after(l, ListenEventView::WouldBlock) == (ListenerView {
                action: ListenAction::Sleep,
                ..l
            })
            &&& failed == (ListenerView {
                action: ListenAction::Finish,
                error: Some(who + error),
                ..l
            })
        },
        l.action == ListenAction::Serve || l.action == ListenAction::Sleep ==> after(
            l,
            ListenEventView::Done,
        ) == (ListenerView { action: ListenAction::CheckAlive, ..l }),
{
}

/// Whether an event can come of an action.
pub open spec fn comes_of(a: ListenAction, e: ListenEventView) -> bool {
    match e {
        ListenEventView::Alive(_) => a == ListenAction::CheckAlive,
        ListenEventView::Elapsed(_) => a == ListenAction::CheckClock,
        ListenEventView::Done => a == ListenAction::Keepalive || a == ListenAction::Accept || a
            == ListenAction::Serve || a == ListenAction::Sleep,
        ListenEventView::WouldBlock => a == ListenAction::Keepalive || a == ListenAction::Accept,
        ListenEventView::Failed(_) => a == ListenAction::Keepalive || a == ListenAction::Accept,
    }
}

/// An event that cannot come of the action at hand changes nothing; so a
/// listener that has finished stays as it is.
pub proof fn law_other_events_change_nothing(l: ListenerView, e: ListenEventView)
    requires
        !comes_of(l.action, e),
    ensures
        after(l, e) == l,
{
}

/// An event stands for what it says.
pub proof fn law_an_event_stands_for_what_it_says(e: ListenEvent)
    ensures
        match e {
            ListenEvent::Alive(yes) => e@ == ListenEventView::Alive(yes),
            ListenEvent::Elapsed(n) => e@ == ListenEventView::Elapsed(n),
            ListenEvent::Done => e@ == ListenEventView::Done,
            ListenEvent::WouldBlock => e@ == ListenEventView::WouldBlock,
            ListenEvent::Failed(x) => e@ == ListenEventView::Failed(x@),
        },
{
}

} // verus!
