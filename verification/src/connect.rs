//! Setting a connection up: the way to the host, the handshake, the host key,
//! the login and, for a terminal, the shell.
//!
//! A `Connection` knows the order and the words for what went wrong; its user
//! performs the stage at hand and reports to `step`.

use vstd::prelude::*;
use crate::hosts;
use crate::hosts::Host;
use crate::text;

verus! {

/// Where a connection stands, and so what to do next.
#[derive(Debug, Clone, Copy, PartialEq, Eq, Structural)]
pub enum Stage {
    /// Set a session to the jump host up.
    Jump,
    /// Open a local listener for the bridge through the jump host.
    BridgeListen,
    /// Find the listener's port.
    BridgePort,
    /// Connect to the bridge.
    BridgeConnect,
    /// Resolve the address.
    Resolve,
    /// Connect to the resolved address.
    Connect,
    /// Create an SSH session.
    Open,
    Handshake,
    /// Check the host key.
    HostKey,
    /// Log in.
    Login,
    /// Say whether the session is logged in.
    CheckLogin,
    /// Open a channel.
    Channel,
    /// Request a terminal.
    Pty,
    /// Request a shell.
    Shell,
    Ready,
    Failed,
}

/// What came of a stage. Texts are of the type `S`.
#[derive(Debug)]
pub enum StageEvent<S> {
    Done,
    Failed(S),
    /// The name resolved to no address.
    NoAddress,
    /// The host key is fine; a new one comes with a notice.
    Keyed(Option<S>),
    /// Whether the session is logged in.
    LoggedIn(bool),
}

/// A connection being set up. Texts are of the type `S`.
#[derive(Debug)]
pub struct Connection<S> {
    pub stage: Stage,
    /// The address of the host.
    pub address: S,
    /// The jump host; empty where there is none.
    pub jump: S,
    /// Whether a shell is wanted.
    pub shell: bool,
    /// What to tell the user about the host key.
    pub notice: Option<S>,
    /// What went wrong.
    pub error: S,
}

impl View for StageEvent<String> {
    type V = StageEvent<Seq<char>>;

    open spec fn view(&self) -> StageEvent<Seq<char>> {
        match *self {
            StageEvent::Done => StageEvent::Done,
            StageEvent::Failed(e) => StageEvent::Failed(e@),
            StageEvent::NoAddress => StageEvent::NoAddress,
            StageEvent::Keyed(n) => StageEvent::Keyed(text::opt_text(n)),
            StageEvent::LoggedIn(b) => StageEvent::LoggedIn(b),
        }
    }
}

impl View for Connection<String> {
    type V = Connection<Seq<char>>;

    open spec fn view(&self) -> Connection<Seq<char>> {
        Connection {
            stage: self.stage,
            address: self.address@,
            jump: self.jump@,
            shell: self.shell,
            notice: text::opt_text(self.notice),
            error: self.error@,
        }
    }
}

/// The address of a host: its name and its port.
pub open spec fn address_of(host: Seq<char>, port: u16) -> Seq<char> {
    host + ":"@ + text::dec(port as nat)
}

/// The address of a host: its name and its port.
pub fn address(host: &str, port: u16) -> (r: String)
    ensures
        r@ == address_of(host@, port),
{
    let mut out: String = host.to_owned();
    out.append(":");
    out.append(text::decimal(port as u64).as_str());
    out
}

/// A connection at its start. A jump host that itself wants a jump host is
/// refused.
pub open spec fn begun(
    host: hosts::HostView,
    jump: Option<hosts::HostView>,
    shell: bool,
) -> Connection<Seq<char>> {
    let c = Connection {
        stage: Stage::Resolve,
        address: address_of(host.host, host.port),
        jump: Seq::empty(),
        shell,
        notice: None,
        error: Seq::empty(),
    };
    match jump {
        None => c,
        Some(j) => if j.jump is Some {
            Connection {
                stage: Stage::Failed,
                jump: j.host,
                error: "nested jump hosts are not supported"@,
                ..c
            }
        } else {
            Connection { stage: Stage::Jump, jump: j.host, ..c }
        },
    }
}

/// The stage that follows a stage that went well.
pub open spec fn following(stage: Stage, shell: bool) -> Stage {
    match stage {
        Stage::Jump => Stage::BridgeListen,
        Stage::BridgeListen => Stage::BridgePort,
        Stage::BridgePort => Stage::BridgeConnect,
        Stage::BridgeConnect => Stage::Open,
        Stage::Resolve => Stage::Connect,
        Stage::Connect => Stage::Open,
        Stage::Open => Stage::Handshake,
        Stage::Handshake => Stage::HostKey,
        Stage::HostKey => Stage::Login,
        Stage::Login => Stage::CheckLogin,
        Stage::CheckLogin => if shell {
            Stage::Channel
        } else {
            Stage::Ready
        },
        Stage::Channel => Stage::Pty,
        Stage::Pty => Stage::Shell,
        Stage::Shell => Stage::Ready,
        Stage::Ready => Stage::Ready,
        Stage::Failed => Stage::Failed,
    }
}

/// What a stage failed with, in words.
pub open spec fn failure_of(c: Connection<Seq<char>>, error: Seq<char>) -> Seq<char> {
    match c.stage {
        Stage::Jump => "jump host "@ + c.jump + ": "@ + error,
        Stage::BridgeListen => "jump bridge listen failed: "@ + error,
        Stage::BridgeConnect => "jump bridge connect failed: "@ + error,
        Stage::Resolve => "cannot resolve "@ + c.address + ": "@ + error,
        Stage::Connect => "cannot connect to "@ + c.address + ": "@ + error,
        Stage::Handshake => "SSH handshake failed: "@ + error,
        Stage::Channel => "cannot open channel: "@ + error,
        Stage::Pty => "pty request failed: "@ + error,
        Stage::Shell => "shell request failed: "@ + error,
        _ => error,
    }
}

/// A connection that failed.
pub open spec fn failed(c: Connection<Seq<char>>, error: Seq<char>) -> Connection<Seq<char>> {
    Connection { stage: Stage::Failed, error, ..c }
}

/// A connection after one more event. An event that does not answer the stage
/// at hand changes nothing.
pub open spec fn after(c: Connection<Seq<char>>, e: StageEvent<Seq<char>>) -> Connection<Seq<char>> {
    if c.stage == Stage::Ready || c.stage == Stage::Failed {
        c
    } else {
        match e {
            StageEvent::Failed(x) => failed(c, failure_of(c, x)),
            StageEvent::NoAddress => if c.stage == Stage::Resolve {
                failed(c, "cannot resolve "@ + c.address)
            } else {
                c
            },
            StageEvent::Keyed(notice) => if c.stage == Stage::HostKey {
                Connection { stage: Stage::Login, notice, ..c }
            } else {
                c
            },
            StageEvent::LoggedIn(yes) => if c.stage != Stage::CheckLogin {
                c
            } else if yes {
                Connection { stage: following(c.stage, c.shell), ..c }
            } else {
                failed(c, "authentication failed"@)
            },
            StageEvent::Done => if c.stage == Stage::HostKey || c.stage == Stage::CheckLogin {
                c
            } else {
                Connection { stage: following(c.stage, c.shell), ..c }
            },
        }
    }
}

/// The stage that follows a stage that went well.
fn next_stage(stage: Stage, shell: bool) -> (r: Stage)
    ensures
        r == following(stage, shell),
{
    match stage {
        Stage::Jump => Stage::BridgeListen,
        Stage::BridgeListen => Stage::BridgePort,
        Stage::BridgePort => Stage::BridgeConnect,
        Stage::BridgeConnect => Stage::Open,
        Stage::Resolve => Stage::Connect,
        Stage::Connect => Stage::Open,
        Stage::Open => Stage::Handshake,
        Stage::Handshake => Stage::HostKey,
        Stage::HostKey => Stage::Login,
        Stage::Login => Stage::CheckLogin,
        Stage::CheckLogin => if shell {
            Stage::Channel
        } else {
            Stage::Ready
        },
        Stage::Channel => Stage::Pty,
        Stage::Pty => Stage::Shell,
        Stage::Shell => Stage::Ready,
        Stage::Ready => Stage::Ready,
        Stage::Failed => Stage::Failed,
    }
}

/// Begins a connection to a host, through a jump host where there is one, for
/// a shell or without.
pub fn establish(host: &Host, jump: Option<&Host>, shell: bool) -> (r: Connection<String>)
    ensures
        r@ == begun(
            host@,
            match jump {
                Some(j) => Some(j@),
                None => None,
            },
            shell,
        ),
{
    let mut c = Connection {
        stage: Stage::Resolve,
        address: address(host.host.as_str(), host.port),
        jump: String::new(),
        shell,
        notice: None,
        error: String::new(),
    };
    assert(c.error@ =~= Seq::<char>::empty());
    if let Some(j) = jump {
        c.jump = j.host.clone();
        if j.jump.is_some() {
            c.stage = Stage::Failed;
            c.error = "nested jump hosts are not supported".to_owned();
        } else {
            c.stage = Stage::Jump;
        }
    }
    c
}

impl Connection<String> {
    fn failure(&self, error: String) -> (r: String)
        ensures
            r@ == failure_of(self@, error@),
    {
        let mut out: String = match self.stage {
            Stage::Jump => {
                let mut out: String = "jump host ".to_owned();
                out.append(self.jump.as_str());
                out.append(": ");
                out
            },
            Stage::BridgeListen => "jump bridge listen failed: ".to_owned(),
            Stage::BridgeConnect => "jump bridge connect failed: ".to_owned(),
            Stage::Resolve => {
                let mut out: String = "cannot resolve ".to_owned();
                out.append(self.address.as_str());
                out.append(": ");
                out
            },
            Stage::Connect => {
                let mut out: String = "cannot connect to ".to_owned();
                out.append(self.address.as_str());
                out.append(": ");
                out
            },
            Stage::Handshake => "SSH handshake failed: ".to_owned(),
            Stage::Channel => "cannot open channel: ".to_owned(),
            Stage::Pty => "pty request failed: ".to_owned(),
            Stage::Shell => "shell request failed: ".to_owned(),
            _ => return error,
        };
        out.append(error.as_str());
        out
    }

    /// What to do next.
    pub fn next(&self) -> (r: Stage)
        ensures
            r == self.stage,
    {
        self.stage
    }

    /// Takes in what came of the stage at hand.
    pub fn step(&mut self, e: StageEvent<String>)
        ensures
            final(self)@ == after(old(self)@, e@),
    {
        if self.stage == Stage::Ready || self.stage == Stage::Failed {
            return;
        }
        match e {
            StageEvent::Failed(x) => {
                self.error = self.failure(x);
                self.stage = Stage::Failed;
            },
            StageEvent::NoAddress => if self.stage == Stage::Resolve {
                let mut x: String = "cannot resolve ".to_owned();
                x.append(self.address.as_str());
                self.error = x;
                self.stage = Stage::Failed;
            },
            StageEvent::Keyed(notice) => if self.stage == Stage::HostKey {
                self.notice = notice;
                self.stage = Stage::Login;
            },
            StageEvent::LoggedIn(yes) => if self.stage == Stage::CheckLogin {
                if yes {
                    self.stage = next_stage(self.stage, self.shell);
                } else {
                    self.error = "authentication failed".to_owned();
                    self.stage = Stage::Failed;
                }
            },
            StageEvent::Done => if self.stage != Stage::HostKey && self.stage
                != Stage::CheckLogin {
                self.stage = next_stage(self.stage, self.shell);
            },
        }
    }
}

// ---------- laws ----------

/// The state of a connection after a number of events.
pub open spec fn run(c: Connection<Seq<char>>, events: Seq<StageEvent<Seq<char>>>) -> Connection<
    Seq<char>,
>
    decreases events.len(),
{
    if events.len() == 0 {
        c
    } else {
        after(run(c, events.drop_last()), events.last())
    }
}

/// Whether the host key was found to be fine.
pub open spec fn was_keyed(events: Seq<StageEvent<Seq<char>>>) -> bool {
    exists|i: int| 0 <= i < events.len() && (#[trigger] events[i]) is Keyed
}

/// Whether the session was found to be logged in.
pub open spec fn was_logged_in(events: Seq<StageEvent<Seq<char>>>) -> bool {
    exists|i: int|
        0 <= i < events.len() && #[trigger] events[i] == StageEvent::<Seq<char>>::LoggedIn(true)
}

/// Whether a stage lies behind the check of the host key.
pub open spec fn past_key(stage: Stage) -> bool {
    stage == Stage::Login || stage == Stage::CheckLogin || past_login(stage)
}

/// Whether a stage lies behind the login.
pub open spec fn past_login(stage: Stage) -> bool {
    stage == Stage::Channel || stage == Stage::Pty || stage == Stage::Shell || stage
        == Stage::Ready
}

/// A connection comes to its login only after the host key was found to be
/// fine, and to a channel only once the session was found to be logged in.
pub proof fn law_the_key_comes_before_the_login(
    host: hosts::HostView,
    jump: Option<hosts::HostView>,
    shell: bool,
    events: Seq<StageEvent<Seq<char>>>,
)
    ensures
        past_key(run(begun(host, jump, shell), events).stage) ==> was_keyed(events),
        past_login(run(begun(host, jump, shell), events).stage) ==> was_logged_in(events),
    decreases events.len(),
{
    if events.len() > 0 {
        let before = events.drop_last();
        law_the_key_comes_before_the_login(host, jump, shell, before);
        let c = run(begun(host, jump, shell), before);
        if was_keyed(before) {
            let i = choose|i: int| 0 <= i < before.len() && (#[trigger] before[i]) is Keyed;
            assert(events[i] is Keyed);
        }
        if was_logged_in(before) {
            let i = choose|i: int|
                0 <= i < before.len() && #[trigger] before[i] == StageEvent::<
                    Seq<char>,
                >::LoggedIn(true);
            assert(events[i] == StageEvent::<Seq<char>>::LoggedIn(true));
        }
        assert(events[events.len() - 1] == events.last());
    }
}

/// A connection that has failed stays failed, with its first error.
pub proof fn law_the_first_error_stands(
    c: Connection<Seq<char>>,
    events: Seq<StageEvent<Seq<char>>>,
)
    requires
        c.stage == Stage::Failed,
    ensures
        run(c, events) == c,
    decreases events.len(),
{
    if events.len() > 0 {
        law_the_first_error_stands(c, events.drop_last());
    }
}

/// Jump hosts are not nested: a jump host with a jump host of its own is
/// refused before anything is tried.
pub proof fn law_jump_hosts_are_not_nested(
    host: hosts::HostView,
    jump: hosts::HostView,
    shell: bool,
)
    ensures
        jump.jump is Some <==> begun(host, Some(jump), shell).stage == Stage::Failed,
{
}

/// An address is the host, a colon and the port in decimal digits.
pub proof fn law_an_address_names_host_and_port(host: Seq<char>, port: u16)
    ensures
        address_of(host, port) == host + ":"@ + text::dec(port as nat),
{
}

/// A connection begins with the host's address, without a notice or an error:
/// by resolving it, or with the jump host where there is one.
pub proof fn law_a_connection_begins_at_the_jump_host(
    host: hosts::HostView,
    jump: hosts::HostView,
    shell: bool,
)
    ensures
        ({
            let direct = begun(host, None, shell);
            let over = begun(host, Some(jump), shell);
            &&& direct.stage == Stage::Resolve
            &&& direct.address == host.host + ":"@ + text::dec(host.port as nat)
            &&& direct.notice is None
            &&& direct.shell == shell
            &&& over.address == direct.address
            &&& over.jump == jump.host
            &&& over.notice is None
            &&& over.shell == shell
            &&& jump.jump is None ==> over.stage == Stage::Jump
            &&& jump.jump is Some ==> over.stage == Stage::Failed && over.error
                == "nested jump hosts are not supported"@
        }),
{
}

/// A step that is done leads to the next one: a direct connection resolves and
/// connects, one over a jump host is bridged, and then both shake hands, check
/// the key and log in. Nothing but the stage changes.
pub proof fn law_the_steps_follow_each_other(c: Connection<Seq<char>>)
    ensures
        ({
            let d = after(c, StageEvent::Done);
            &&& d == (Connection { stage: d.stage, ..c })
            &&& c.stage == Stage::Jump ==> d.stage == Stage::BridgeListen
            &&& c.stage == Stage::BridgeListen ==> d.stage == Stage::BridgePort
            &&& c.stage == Stage::BridgePort ==> d.stage == Stage::BridgeConnect
            &&& c.stage == Stage::BridgeConnect ==> d.stage == Stage::Open
            &&& c.stage == Stage::Resolve ==> d.stage == Stage::Connect
            &&& c.stage == Stage::Connect ==> d.stage == Stage::Open
            &&& c.stage == Stage::Open ==> d.stage == Stage::Handshake
            &&& c.stage == Stage::Handshake ==> d.stage == Stage::HostKey
            &&& c.stage == Stage::HostKey ==> d.stage == Stage::HostKey
            &&& c.stage == Stage::Login ==> d.stage == Stage::CheckLogin
            &&& c.stage == Stage::CheckLogin ==> d.stage == Stage::CheckLogin
            &&& c.stage == Stage::Channel ==> d.stage == Stage::Pty
            &&& c.stage == Stage::Pty ==> d.stage == Stage::Shell
            &&& c.stage == Stage::Shell ==> d.stage == Stage::Ready
            &&& c.stage == Stage::Ready ==> d.stage == Stage::Ready
            &&& c.stage == Stage::Failed ==> d.stage == Stage::Failed
        }),
{
}

/// A key that was accepted leads to the login, and what is to be said of it is
/// kept.
pub proof fn law_an_accepted_key_leads_to_the_login(
    c: Connection<Seq<char>>,
    notice: Option<Seq<char>>,
)
    ensures
        c.stage == Stage::HostKey ==> after(c, StageEvent::Keyed(notice)) == (Connection {
            stage: Stage::Login,
            notice,
            ..c
        }),
        c.stage != Stage::HostKey ==> after(c, StageEvent::Keyed(notice)) == c,
{
}

/// The session says whether the login worked: if so a shell is opened where one
/// is wanted, and the connection is ready where not; and else it has failed.
pub proof fn law_the_session_confirms_the_login(c: Connection<Seq<char>>)
    requires
        c.stage == Stage::CheckLogin,
    ensures
        c.shell ==> after(c, StageEvent::LoggedIn(true)) == (Connection {
            stage: Stage::Channel,
            ..c
        }),
        !c.shell ==> after(c, StageEvent::LoggedIn(true)) == (Connection {
            stage: Stage::Ready,
            ..c
        }),
        after(c, StageEvent::LoggedIn(false)) == (Connection {
            stage: Stage::Failed,
            error: "authentication failed"@,
            ..c
        }),
{
}

/// A step that fails ends the connection, and the error says which step it was.
pub proof fn law_a_failed_step_is_named(c: Connection<Seq<char>>, error: Seq<char>)
    requires
        c.stage != Stage::Ready,
        c.stage != Stage::Failed,
    ensures
        ({
            let f = after(c, StageEvent::Failed(error));
            let e = f.error;
            &&& f == (Connection { stage: Stage::Failed, error: e, ..c })
            &&& c.stage == Stage::Jump ==> e == "jump host "@ + c.jump + ": "@ + error
            &&& c.stage == Stage::BridgeListen ==> e == "jump bridge listen failed: "@ + error
            &&& c.stage == Stage::BridgePort ==> e == error
            &&& c.stage == Stage::BridgeConnect ==> e == "jump bridge connect failed: "@ + error
            &&& c.stage == Stage::Resolve ==> e == "cannot resolve "@ + c.address + ": "@ + error
            &&& c.stage == Stage::Connect ==> e == "cannot connect to "@ + c.address + ": "@
                + error
            &&& c.stage == Stage::Open ==> e == error
            &&& c.stage == Stage::Handshake ==> e == "SSH handshake failed: "@ + error
            &&& c.stage == Stage::HostKey ==> e == error
            &&& c.stage == Stage::Login ==> e == error
            &&& c.stage == Stage::Channel ==> e == "cannot open channel: "@ + error
            &&& c.stage == Stage::Pty ==> e == "pty request failed: "@ + error
            &&& c.stage == Stage::Shell ==> e == "shell request failed: "@ + error
        }),
{
}

/// A host whose name has no address cannot be connected to.
pub proof fn law_a_host_needs_an_address(c: Connection<Seq<char>>)
    ensures
        c.stage == Stage::Resolve ==> after(c, StageEvent::NoAddress) == (Connection {
            stage: Stage::Failed,
            error: "cannot resolve "@ + c.address,
            ..c
        }),
        c.stage != Stage::Resolve ==> after(c, StageEvent::NoAddress) == c,
        c.stage != Stage::CheckLogin ==> after(c, StageEvent::LoggedIn(true)) == c && after(
            c,
            StageEvent::LoggedIn(false),
        ) == c,
{
}

/// An event stands for what it says, and a connection for all of its fields.
pub proof fn law_an_event_stands_for_what_it_says(e: StageEvent<String>, c: Connection<String>)
    ensures
        match e {
            StageEvent::Done => e@ == StageEvent::<Seq<char>>::Done,
            StageEvent::Failed(x) => e@ == StageEvent::Failed(x@),
            StageEvent::NoAddress => e@ == StageEvent::<Seq<char>>::NoAddress,
            StageEvent::Keyed(n) => e@ == StageEvent::Keyed(text::opt_text(n)),
            StageEvent::LoggedIn(yes) => e@ == StageEvent::<Seq<char>>::LoggedIn(yes),
        },
        c@.stage == c.stage,
        c@.address == c.address@,
        c@.jump == c.jump@,
        c@.shell == c.shell,
        c@.notice == text::opt_text(c.notice),
        c@.error == c.error@,
{
}

} // verus!
