//! Logging in to a host.
//!
//! A `Login` decides what to try and with which secret; its user performs
//! what `next` says and reports what came of it to `step`. A secret that had
//! to be asked for, because the keyring lost it, is stored again once it has
//! worked. Where the server offers keyboard-interactive authentication and
//! there is someone to ask, that is the last resort.

use vstd::prelude::*;
use crate::hosts;
use crate::hosts::{AuthMethod, Host};
use crate::paths;
use crate::paths::System;
use crate::secrets;
use crate::text;
use crate::vault::Keyring;

verus! {

/// What to do next. Texts are of the type `S`, paths of the type `P`.
#[derive(Debug)]
pub enum AuthAction<S, P> {
    /// Ask the user for one secret.
    Ask(S),
    TryPassword(S),
    TryKey { path: P, passphrase: Option<S> },
    /// Connect to the agent and list its identities.
    StartAgent,
    /// Try the identity with the given place in the agent's list.
    TryIdentity(usize),
    /// Store a secret that has worked.
    Remember { field: S, secret: S },
    /// Let the server ask its questions.
    Interactive,
    Finish(Result<(), S>),
}

/// What can go wrong with the agent before an identity is tried.
#[derive(Debug, Clone, Copy, PartialEq, Eq, Structural)]
pub enum AgentStep {
    Open,
    Connect,
    List,
    Identities,
}

/// What came of an action. Texts are of the type `S`.
#[derive(Debug)]
pub enum AuthEvent<S> {
    /// What the user said, if anything.
    Answered(Option<S>),
    /// An attempt ended, with an error or not; is the session logged in?
    Tried { error: Option<S>, authenticated: bool },
    /// The agent holds so many identities.
    AgentReady(usize),
    AgentFailed { step: AgentStep, why: S },
    Remembered,
    /// The questions were answered, with an error or not.
    Asked(Option<S>),
}

/// The way a host is logged in to.
#[derive(Debug, Clone, Copy, PartialEq, Eq, Structural)]
pub enum Way {
    Password,
    Key,
    Agent,
}

/// A login under way. Texts are of the type `S`, paths of the type `P`.
#[derive(Debug)]
pub struct Login<S, P> {
    pub action: AuthAction<S, P>,
    pub way: Way,
    /// How paths are written.
    pub sys: System,
    /// The key file; empty unless a key is used.
    pub key_path: P,
    /// Whether the saved secret points to the keyring and is not there.
    pub lost: bool,
    /// Whether the server's own questions are a last resort.
    pub fallback: bool,
    /// The secret that the user gave.
    pub given: Option<S>,
    /// What the last identity failed with.
    pub last_error: S,
    /// How many identities the agent holds.
    pub identities: usize,
}

/// What an action holds.
pub type ActionView = AuthAction<Seq<char>, Seq<u8>>;

/// What a login holds.
pub type LoginView = Login<Seq<char>, Seq<u8>>;

/// The text of an action.
pub open spec fn action_text(a: AuthAction<String, Vec<u8>>) -> ActionView {
    match a {
        AuthAction::Ask(p) => AuthAction::Ask(p@),
        AuthAction::TryPassword(p) => AuthAction::TryPassword(p@),
        AuthAction::TryKey { path, passphrase } => AuthAction::TryKey {
            path: path@,
            passphrase: text::opt_text(passphrase),
        },
        AuthAction::StartAgent => AuthAction::StartAgent,
        AuthAction::TryIdentity(i) => AuthAction::TryIdentity(i),
        AuthAction::Remember { field, secret } => AuthAction::Remember {
            field: field@,
            secret: secret@,
        },
        AuthAction::Interactive => AuthAction::Interactive,
        AuthAction::Finish(r) => AuthAction::Finish(text::result_text(r)),
    }
}

impl View for AuthEvent<String> {
    type V = AuthEvent<Seq<char>>;

    open spec fn view(&self) -> AuthEvent<Seq<char>> {
        match *self {
            AuthEvent::Answered(a) => AuthEvent::Answered(text::opt_text(a)),
            AuthEvent::Tried { error, authenticated } => AuthEvent::Tried {
                error: text::opt_text(error),
                authenticated,
            },
            AuthEvent::AgentReady(n) => AuthEvent::AgentReady(n),
            AuthEvent::AgentFailed { step, why } => AuthEvent::AgentFailed { step, why: why@ },
            AuthEvent::Remembered => AuthEvent::Remembered,
            AuthEvent::Asked(e) => AuthEvent::Asked(text::opt_text(e)),
        }
    }
}

impl View for Login<String, Vec<u8>> {
    type V = LoginView;

    open spec fn view(&self) -> LoginView {
        Login {
            action: action_text(self.action),
            way: self.way,
            sys: self.sys,
            key_path: self.key_path@,
            lost: self.lost,
            fallback: self.fallback,
            given: text::opt_text(self.given),
            last_error: self.last_error@,
            identities: self.identities,
        }
    }
}

/// The way that a host's settings ask for.
pub open spec fn way_of(auth: hosts::AuthView) -> Way {
    match auth {
        hosts::AuthView::Password { .. } => Way::Password,
        hosts::AuthView::Key { .. } => Way::Key,
        hosts::AuthView::Agent => Way::Agent,
    }
}

/// The name that a secret is stored under.
pub open spec fn field_of(way: Way) -> Seq<char> {
    match way {
        Way::Password => "password"@,
        _ => "passphrase"@,
    }
}

/// Whether a saved secret points to the keyring and could not be had from it.
pub open spec fn is_lost(saved: Option<Seq<char>>, resolved: Option<Seq<char>>) -> bool {
    saved is Some && secrets::is_marker(saved->Some_0) && resolved is None
}

/// What a missing password is answered with.
pub open spec fn no_password(lost: bool) -> Seq<char> {
    if lost {
        "stored password missing from the OS keyring"@
    } else {
        "no password provided"@
    }
}

/// What the user is asked for.
pub open spec fn question(sys: System, host: hosts::HostView, key_path: Seq<u8>) -> Seq<char> {
    match host.auth {
        hosts::AuthView::Password { .. } => "Password for "@ + host.username + "@"@ + host.host,
        _ => "Passphrase for "@ + paths::shown(sys, key_path),
    }
}

/// The attempt did not do: the last resort, or the end.
pub open spec fn without_luck(l: LoginView, error: Option<Seq<char>>) -> LoginView {
    Login {
        action: if l.fallback {
            AuthAction::Interactive
        } else {
            AuthAction::Finish(
                match error {
                    Some(e) => Err(e),
                    None => Ok(()),
                },
            )
        },
        ..l
    }
}

/// The secret is there, or it is known that there is none: the attempt.
pub open spec fn attempt(l: LoginView, secret: Option<Seq<char>>) -> LoginView {
    match l.way {
        Way::Password => match secret {
            Some(p) => Login { action: AuthAction::TryPassword(p), ..l },
            None => without_luck(l, Some(no_password(l.lost))),
        },
        Way::Key => Login {
            action: AuthAction::TryKey { path: l.key_path, passphrase: secret },
            ..l
        },
        Way::Agent => Login { action: AuthAction::StartAgent, ..l },
    }
}

/// What an attempt failed with, in words.
pub open spec fn attempt_error(l: LoginView, error: Seq<char>) -> Seq<char> {
    match l.way {
        Way::Password => "password authentication failed: "@ + error,
        _ => "key authentication failed ("@ + paths::shown(l.sys, l.key_path) + "): "@ + error,
    }
}

/// After an attempt with a password or a key.
pub open spec fn tried(l: LoginView, error: Option<Seq<char>>, authenticated: bool) -> LoginView {
    match error {
        Some(e) => without_luck(l, Some(attempt_error(l, e))),
        None => if authenticated {
            match l.given {
                Some(s) => Login {
                    action: AuthAction::Remember { field: field_of(l.way), secret: s },
                    ..l
                },
                None => Login { action: AuthAction::Finish(Ok(())), ..l },
            }
        } else {
            without_luck(l, None)
        },
    }
}

/// The identity with the given place, or the end of the list.
pub open spec fn identity(l: LoginView, i: int) -> LoginView {
    if i < l.identities {
        Login { action: AuthAction::TryIdentity(i as usize), ..l }
    } else {
        without_luck(l, Some("agent authentication failed: "@ + l.last_error))
    }
}

/// What the agent failed with, in words.
pub open spec fn agent_error(step: AgentStep, error: Seq<char>) -> Seq<char> {
    match step {
        AgentStep::Open => "ssh-agent unavailable: "@ + error,
        AgentStep::Connect => "cannot connect to ssh-agent: "@ + error,
        AgentStep::List => "cannot list agent identities: "@ + error,
        AgentStep::Identities => error,
    }
}

/// A login at its start: `secret` is what the user typed in, `resolved` the
/// saved secret as far as it was needed and could be had, and `methods` what
/// the server offers.
pub open spec fn started(
    sys: System,
    host: hosts::HostView,
    secret: Option<Seq<char>>,
    resolved: Option<Seq<char>>,
    key_path: Seq<u8>,
    methods: Seq<char>,
    someone: bool,
) -> LoginView {
    let lost = secret is None && is_lost(hosts::secret_of(host.auth), resolved);
    let l = Login {
        action: AuthAction::StartAgent,
        way: way_of(host.auth),
        sys,
        key_path,
        lost,
        fallback: someone && text::occurs_in("keyboard-interactive"@, methods),
        given: None,
        last_error: Seq::empty(),
        identities: 0,
    };
    let known = match secret {
        Some(s) => Some(s),
        None => resolved,
    };
    if known is None && lost && someone {
        Login { action: AuthAction::Ask(question(sys, host, key_path)), ..l }
    } else {
        attempt(l, known)
    }
}

/// A login after one more event. An event that does not answer the action at
/// hand changes nothing.
pub open spec fn after(l: LoginView, e: AuthEvent<Seq<char>>) -> LoginView {
    match (l.action, e) {
        (AuthAction::Ask(_), AuthEvent::Answered(a)) => attempt(Login { given: a, ..l }, a),
        (AuthAction::TryPassword(_), AuthEvent::Tried { error, authenticated }) => tried(
            l,
            error,
            authenticated,
        ),
        (AuthAction::TryKey { .. }, AuthEvent::Tried { error, authenticated }) => tried(
            l,
            error,
            authenticated,
        ),
        (AuthAction::StartAgent, AuthEvent::AgentReady(n)) => identity(
            Login { identities: n, ..l },
            0,
        ),
        (AuthAction::StartAgent, AuthEvent::AgentFailed { step, why }) => Login {
            action: AuthAction::Finish(Err(agent_error(step, why))),
            ..l
        },
        (AuthAction::TryIdentity(i), AuthEvent::Tried { error, authenticated }) => match error {
            Some(x) => identity(Login { last_error: x, ..l }, i + 1),
            None => if authenticated {
                Login { action: AuthAction::Finish(Ok(())), ..l }
            } else {
                identity(l, i + 1)
            },
        },
        (AuthAction::Remember { .. }, AuthEvent::Remembered) => Login {
            action: AuthAction::Finish(Ok(())),
            ..l
        },
        (AuthAction::Interactive, AuthEvent::Asked(error)) => Login {
            action: AuthAction::Finish(
                match error {
                    Some(x) => Err("interactive authentication failed: "@ + x),
                    None => Ok(()),
                },
            ),
            ..l
        },
        _ => l,
    }
}

impl Login<String, Vec<u8>> {
    /// What to do next.
    pub fn next(&self) -> (r: &AuthAction<String, Vec<u8>>)
        ensures
            *r == self.action,
    {
        &self.action
    }

    fn give_up(&mut self, error: Option<String>)
        ensures
            final(self)@ == without_luck(old(self)@, text::opt_text(error)),
    {
        self.action = if self.fallback {
            AuthAction::Interactive
        } else {
            match error {
                Some(e) => AuthAction::Finish(Err(e)),
                None => AuthAction::Finish(Ok(())),
            }
        };
    }

    fn attempt(&mut self, secret: Option<String>)
        ensures
            final(self)@ == attempt(old(self)@, text::opt_text(secret)),
    {
        match self.way {
            Way::Password => match secret {
                Some(p) => self.action = AuthAction::TryPassword(p),
                None => {
                    let e: String = if self.lost {
                        "stored password missing from the OS keyring".to_owned()
                    } else {
                        "no password provided".to_owned()
                    };
                    self.give_up(Some(e));
                },
            },
            Way::Key => {
                let path = text::copy_bytes(self.key_path.as_slice());
                self.action = AuthAction::TryKey { path, passphrase: secret };
            },
            Way::Agent => self.action = AuthAction::StartAgent,
        }
    }

    fn attempt_error(&self, error: &str) -> (r: String)
        ensures
            r@ == attempt_error(self@, error@),
    {
        match self.way {
            Way::Password => {
                let mut out: String = "password authentication failed: ".to_owned();
                out.append(error);
                out
            },
            _ => {
                let mut out: String = "key authentication failed (".to_owned();
                out.append(paths::show(self.sys, self.key_path.as_slice()).as_str());
                out.append("): ");
                out.append(error);
                out
            },
        }
    }

    fn tried(&mut self, error: Option<String>, authenticated: bool)
        ensures
            final(self)@ == tried(old(self)@, text::opt_text(error), authenticated),
    {
        match error {
            Some(e) => {
                let x = self.attempt_error(e.as_str());
                self.give_up(Some(x));
            },
            None => if authenticated {
                match text::copy_opt(&self.given) {
                    Some(secret) => {
                        let field: String = match self.way {
                            Way::Password => "password".to_owned(),
                            _ => "passphrase".to_owned(),
                        };
                        self.action = AuthAction::Remember { field, secret };
                    },
                    None => self.action = AuthAction::Finish(Ok(())),
                }
            } else {
                self.give_up(None);
            },
        }
    }

    fn identity(&mut self, i: usize)
        ensures
            final(self)@ == identity(old(self)@, i as int),
    {
        if i < self.identities {
            self.action = AuthAction::TryIdentity(i);
        } else {
            let mut e: String = "agent authentication failed: ".to_owned();
            e.append(self.last_error.as_str());
            self.give_up(Some(e));
        }
    }

    /// Takes in what came of the action at hand.
    pub fn step(&mut self, e: AuthEvent<String>)
        ensures
            final(self)@ == after(old(self)@, e@),
    {
        match (&self.action, e) {
            (AuthAction::Ask(_), AuthEvent::Answered(a)) => {
                self.given = text::copy_opt(&a);
                self.attempt(a);
            },
            (AuthAction::TryPassword(_), AuthEvent::Tried { error, authenticated }) => {
                self.tried(error, authenticated);
            },
            (AuthAction::TryKey { .. }, AuthEvent::Tried { error, authenticated }) => {
                self.tried(error, authenticated);
            },
            (AuthAction::StartAgent, AuthEvent::AgentReady(n)) => {
                self.identities = n;
                self.identity(0);
            },
            (AuthAction::StartAgent, AuthEvent::AgentFailed { step, why }) => {
                self.action = AuthAction::Finish(Err(agent_failure(step, why)));
            },
            (AuthAction::TryIdentity(i), AuthEvent::Tried { error, authenticated }) => {
                let i: usize = *i;
                match error {
                    Some(x) => {
                        self.last_error = x;
                        self.past_identity(i);
                    },
                    None => if authenticated {
                        self.action = AuthAction::Finish(Ok(()));
                    } else {
                        self.past_identity(i);
                    },
                }
            },
            (AuthAction::Remember { .. }, AuthEvent::Remembered) => {
                self.action = AuthAction::Finish(Ok(()));
            },
            (AuthAction::Interactive, AuthEvent::Asked(error)) => {
                self.action = AuthAction::Finish(
                    match error {
                        Some(x) => {
                            let mut out: String = "interactive authentication failed: ".to_owned();
                            out.append(x.as_str());
                            Err(out)
                        },
                        None => Ok(()),
                    },
                );
            },
            _ => {},
        }
    }

    fn past_identity(&mut self, i: usize)
        ensures
            final(self)@ == identity(old(self)@, i + 1),
    {
        if i < self.identities {
            self.identity(i + 1);
        } else {
            self.identity(self.identities);
        }
    }
}

fn agent_failure(step: AgentStep, error: String) -> (r: String)
    ensures
        r@ == agent_error(step, error@),
{
    let mut out: String = match step {
        AgentStep::Open => "ssh-agent unavailable: ".to_owned(),
        AgentStep::Connect => "cannot connect to ssh-agent: ".to_owned(),
        AgentStep::List => "cannot list agent identities: ".to_owned(),
        AgentStep::Identities => return error,
    };
    out.append(error.as_str());
    out
}

/// Begins a login, given how paths are written, the saved secret as far as it
/// could be had, and the key file.
pub fn start(
    sys: System,
    host: &Host,
    secret: Option<String>,
    resolved: Option<String>,
    key_path: Vec<u8>,
    methods: &str,
    someone: bool,
) -> (r: Login<String, Vec<u8>>)
    ensures
        r@ == started(
            sys,
            host@,
            text::opt_text(secret),
            text::opt_text(resolved),
            key_path@,
            methods@,
            someone,
        ),
{
    let saved = hosts::secret_field(&host.auth);
    let lost: bool = match &saved {
        Some(s) => secret.is_none() && secrets::has_marker(s.as_str()) && resolved.is_none(),
        None => false,
    };
    let offered = text::chars_of(methods);
    let fallback: bool = someone && text::contains_text(
        offered.as_slice(),
        "keyboard-interactive",
    );
    let way = match &host.auth {
        AuthMethod::Password { .. } => Way::Password,
        AuthMethod::Key { .. } => Way::Key,
        AuthMethod::Agent => Way::Agent,
    };
    let mut l = Login {
        action: AuthAction::StartAgent,
        way,
        sys,
        key_path,
        lost,
        fallback,
        given: None,
        last_error: String::new(),
        identities: 0,
    };
    assert(l.last_error@ =~= Seq::<char>::empty());
    let known = match secret {
        Some(s) => Some(s),
        None => resolved,
    };
    if known.is_none() && lost && someone {
        let q: String = match &host.auth {
            AuthMethod::Password { .. } => {
                let mut q: String = "Password for ".to_owned();
                q.append(host.username.as_str());
                q.append("@");
                q.append(host.host.as_str());
                q
            },
            _ => {
                let mut q: String = "Passphrase for ".to_owned();
                q.append(paths::show(sys, l.key_path.as_slice()).as_str());
                q
            },
        };
        l.action = AuthAction::Ask(q);
    } else {
        l.attempt(known);
    }
    l
}

/// Whether the key file of a host can be at `path`, wherever the home
/// directory is.
pub open spec fn is_key_path(sys: System, auth: hosts::AuthView, path: Seq<u8>) -> bool {
    match auth {
        hosts::AuthView::Key { path: p, .. } => exists|home: Option<Seq<u8>>|
            path == #[trigger] paths::expanded(sys, p, home),
        _ => path.len() == 0,
    }
}

/// Begins a login: looks the saved secret up, unless one was typed in, and
/// finds the key file. Where the home directory is, and how paths are written,
/// is up to the machine; `start` says what follows from them.
pub fn authenticate(
    k: &mut Keyring,
    host: &Host,
    secret: Option<String>,
    methods: &str,
    someone: bool,
) -> (r: Login<String, Vec<u8>>)
    ensures
        secret is Some ==> final(k).log() == old(k).log(),
        secret is None ==> secrets::looked_up(
            hosts::secret_of(host@.auth),
            old(k).log(),
            final(k).log(),
        ),
        is_key_path(r@.sys, host@.auth, r@.key_path),
        r@ == started(
            r@.sys,
            host@,
            text::opt_text(secret),
            match secret {
                Some(_) => None,
                None => secrets::found(hosts::secret_of(host@.auth), final(k).log()),
            },
            r@.key_path,
            methods@,
            someone,
        ),
{
    let sys = paths::system();
    let resolved = match &secret {
        Some(_) => None,
        None => secrets::resolve_opt(k, &hosts::secret_field(&host.auth)),
    };
    let key_path: Vec<u8> = match &host.auth {
        AuthMethod::Key { path, .. } => {
            let home = paths::home_dir();
            let p = paths::expand_tilde_in(sys, path.as_str(), &home);
            assert(p@ == paths::expanded(sys, host@.auth->path, text::opt_bytes(home)));
            p
        },
        _ => {
            let p: Vec<u8> = Vec::new();
            assert(p@.len() == 0);
            p
        },
    };
    start(sys, host, secret, resolved, key_path, methods, someone)
}

// ---------- laws ----------

/// A secret that was typed in is used as it is, and nobody is asked for one.
pub proof fn law_a_typed_secret_is_used(
    sys: System,
    host: hosts::HostView,
    secret: Seq<char>,
    resolved: Option<Seq<char>>,
    key_path: Seq<u8>,
    methods: Seq<char>,
    someone: bool,
)
    ensures
        ({
            let a = started(sys, host, Some(secret), resolved, key_path, methods, someone).action;
            match host.auth {
                hosts::AuthView::Password { .. } => a == ActionView::TryPassword(secret),
                hosts::AuthView::Key { .. } => a == (AuthAction::TryKey {
                    path: key_path,
                    passphrase: Some(secret),
                }),
                hosts::AuthView::Agent => a == ActionView::StartAgent,
            }
        }),
{
}

/// Where a secret was typed in, what the keyring would have given has no say in
/// how a login begins.
pub proof fn law_a_typed_secret_needs_no_keyring(
    sys: System,
    host: hosts::HostView,
    secret: Seq<char>,
    resolved: Option<Seq<char>>,
    key_path: Seq<u8>,
    methods: Seq<char>,
    someone: bool,
)
    ensures
        started(sys, host, Some(secret), resolved, key_path, methods, someone) == started(
            sys,
            host,
            Some(secret),
            None,
            key_path,
            methods,
            someone,
        ),
{
}

/// A secret that the keyring lost is asked for where there is someone to ask.
pub proof fn law_a_lost_secret_is_asked_for(
    sys: System,
    host: hosts::HostView,
    key_path: Seq<u8>,
    methods: Seq<char>,
)
    requires
        hosts::secret_of(host.auth) is Some,
        secrets::is_marker(hosts::secret_of(host.auth)->Some_0),
    ensures
        started(sys, host, None, None, key_path, methods, true).action == ActionView::Ask(
            question(sys, host, key_path),
        ),
{
}

/// The state of a login after a number of events.
pub open spec fn run(l: LoginView, events: Seq<AuthEvent<Seq<char>>>) -> LoginView
    decreases events.len(),
{
    if events.len() == 0 {
        l
    } else {
        after(run(l, events.drop_last()), events.last())
    }
}

/// Only a secret that the user was asked for, and that has worked, is ever
/// stored: storing comes right after a successful attempt, and what is stored
/// is what the user gave.
pub proof fn law_only_a_secret_that_worked_is_stored(
    l: LoginView,
    e: AuthEvent<Seq<char>>,
)
    requires
        !(l.action is Remember),
        after(l, e).action is Remember,
    ensures
        e == (AuthEvent::Tried { error: None::<Seq<char>>, authenticated: true }),
        l.given == Some(after(l, e).action->secret),
        after(l, e).action->field == field_of(l.way),
{
}

/// A login that ended well was accepted by the server, or the server answered
/// every question, or an attempt ended without an error and nothing was left to
/// try.
pub proof fn law_a_login_ends_well_for_a_reason(l: LoginView, e: AuthEvent<Seq<char>>)
    requires
        !(l.action is Finish),
        after(l, e).action == ActionView::Finish(Ok(())),
    ensures
        ({
            ||| e == (AuthEvent::Tried { error: None::<Seq<char>>, authenticated: true })
            ||| l.action is Remember
            ||| l.action is Interactive && e == AuthEvent::<Seq<char>>::Asked(None)
            ||| !l.fallback && e == (AuthEvent::Tried {
                error: None::<Seq<char>>,
                authenticated: false,
            })
        }),
{
}

/// A login that has ended stays as it is.
pub proof fn law_a_finished_login_stays(
    l: LoginView,
    events: Seq<AuthEvent<Seq<char>>>,
)
    requires
        l.action is Finish,
    ensures
        run(l, events) == l,
    decreases events.len(),
{
    if events.len() > 0 {
        law_a_finished_login_stays(l, events.drop_last());
    }
}

/// How many more steps a login can take at most.
pub open spec fn steps_left(l: LoginView) -> int {
    match l.action {
        AuthAction::Ask(_) => usize::MAX + 4,
        AuthAction::TryPassword(_) => 3,
        AuthAction::TryKey { .. } => 3,
        AuthAction::StartAgent => usize::MAX + 3,
        AuthAction::TryIdentity(i) => if i < l.identities {
            l.identities - i + 2
        } else {
            2
        },
        AuthAction::Remember { .. } => 1,
        AuthAction::Interactive => 1,
        AuthAction::Finish(_) => 0,
    }
}

/// A login comes to an end: every event that moves it brings the end nearer.
pub proof fn law_a_login_ends(l: LoginView, e: AuthEvent<Seq<char>>)
    ensures
        after(l, e) == l || steps_left(after(l, e)) < steps_left(l),
{
}

/// Where no secret was typed in and the saved one could be had, the login
/// begins with it, and nobody is asked.
pub proof fn law_a_saved_secret_is_used(
    sys: System,
    host: hosts::HostView,
    saved: Seq<char>,
    key_path: Seq<u8>,
    methods: Seq<char>,
    someone: bool,
)
    ensures
        ({
            let a = started(sys, host, None, Some(saved), key_path, methods, someone).action;
            match host.auth {
                hosts::AuthView::Password { .. } => a == ActionView::TryPassword(saved),
                hosts::AuthView::Key { .. } => a == (ActionView::TryKey {
                    path: key_path,
                    passphrase: Some(saved),
                }),
                hosts::AuthView::Agent => a == ActionView::StartAgent,
            }
        }),
{
}

/// Without any secret, and with none to be asked for, a key is tried as it is
/// and the agent is used; a password host has nothing to try, so the server
/// may ask its questions where there is someone to answer them, and else the
/// login ends with the reason.
pub proof fn law_a_login_can_begin_without_a_secret(
    sys: System,
    host: hosts::HostView,
    key_path: Seq<u8>,
    methods: Seq<char>,
    someone: bool,
)
    requires
        ({
            let saved = hosts::secret_of(host.auth);
            !someone || saved is None || !"keyring:"@.is_prefix_of(saved->Some_0)
        }),
    ensures
        ({
            let saved = hosts::secret_of(host.auth);
            let lost = saved is Some && "keyring:"@.is_prefix_of(saved->Some_0);
            let a = started(sys, host, None, None, key_path, methods, someone).action;
            match host.auth {
                hosts::AuthView::Password { .. } => if someone && text::occurs_in(
                    "keyboard-interactive"@,
                    methods,
                ) {
                    a == ActionView::Interactive
                } else if lost {
                    a == ActionView::Finish(Err("stored password missing from the OS keyring"@))
                } else {
                    a == ActionView::Finish(Err("no password provided"@))
                },
                hosts::AuthView::Key { .. } => a == (ActionView::TryKey {
                    path: key_path,
                    passphrase: None,
                }),
                hosts::AuthView::Agent => a == ActionView::StartAgent,
            }
        }),
{
}

/// The last resort is there exactly if the server offers it and there is
/// someone to answer; and a login begins without an answer of the user.
pub proof fn law_the_last_resort_needs_someone(
    sys: System,
    host: hosts::HostView,
    secret: Option<Seq<char>>,
    resolved: Option<Seq<char>>,
    key_path: Seq<u8>,
    methods: Seq<char>,
    someone: bool,
)
    ensures
        ({
            let l = started(sys, host, secret, resolved, key_path, methods, someone);
            &&& l.fallback <==> someone && text::occurs_in("keyboard-interactive"@, methods)
            &&& l.lost <==> secret is None && resolved is None && {
                let saved = hosts::secret_of(host.auth);
                saved is Some && "keyring:"@.is_prefix_of(saved->Some_0)
            }
            &&& l.given is None
            &&& l.sys == sys
            &&& l.key_path == key_path
            &&& l.identities == 0
            &&& l.last_error.len() == 0
            &&& l.way == Way::Password <==> host.auth is Password
            &&& l.way == Way::Key <==> host.auth is Key
        }),
{
}

/// The user is asked for the password by the name of the account, and for a
/// passphrase by the path of the key.
pub proof fn law_a_question_names_what_it_is_for(
    sys: System,
    host: hosts::HostView,
    key_path: Seq<u8>,
)
    ensures
        host.auth is Password ==> question(sys, host, key_path) == "Password for "@ + host.username
            + "@"@ + host.host,
        host.auth is Key ==> question(sys, host, key_path) == "Passphrase for "@ + paths::shown(
            sys,
            key_path,
        ),
{
}

/// What the user answers is tried and kept in mind. Without an answer a key is
/// tried without a passphrase, and a password host falls back on the server's
/// questions or ends.
pub proof fn law_an_answer_is_tried(l: LoginView, answer: Seq<char>)
    requires
        l.action is Ask,
    ensures
        ({
            let q = after(l, AuthEvent::Answered(Some(answer)));
            let none = after(l, AuthEvent::Answered(None));
            &&& q.given == Some(answer)
            &&& none.given is None
            &&& l.way == Way::Password ==> q.action == ActionView::TryPassword(answer)
            &&& l.way == Way::Key ==> q.action == (ActionView::TryKey {
                path: l.key_path,
                passphrase: Some(answer),
            })
            &&& l.way == Way::Key ==> none.action == (ActionView::TryKey {
                path: l.key_path,
                passphrase: None,
            })
            &&& l.way == Way::Password && l.fallback ==> none.action == ActionView::Interactive
            &&& l.way == Way::Password && !l.fallback && l.lost ==> none.action
                == ActionView::Finish(Err("stored password missing from the OS keyring"@))
            &&& l.way == Way::Password && !l.fallback && !l.lost ==> none.action
                == ActionView::Finish(Err("no password provided"@))
        }),
{
}

/// An attempt that the server accepted ends the login well; a secret that the
/// user gave is stored first, under the name of its kind.
pub proof fn law_success_ends_the_login(l: LoginView)
    requires
        l.action is TryPassword || l.action is TryKey,
        l.way == Way::Password || l.way == Way::Key,
    ensures
        ({
            let q = after(l, AuthEvent::Tried { error: None, authenticated: true });
            let field = if l.way == Way::Password {
                "password"@
            } else {
                "passphrase"@
            };
            &&& l.given is None ==> q.action == ActionView::Finish(Ok(()))
            &&& l.given is Some ==> q.action == (ActionView::Remember {
                field,
                secret: l.given->Some_0,
            })
            &&& l.given is Some ==> after(q, AuthEvent::Remembered).action == ActionView::Finish(
                Ok(()),
            )
        }),
{
}

/// An attempt that failed leads to the last resort; where there is none, the
/// login ends with what went wrong, if the attempt said so.
pub proof fn law_a_failed_attempt_falls_back(l: LoginView, error: Seq<char>)
    requires
        l.action is TryPassword || l.action is TryKey,
        l.way == Way::Password || l.way == Way::Key,
    ensures
        ({
            let wrong = after(l, AuthEvent::Tried { error: Some(error), authenticated: false });
            let open = after(l, AuthEvent::Tried { error: None, authenticated: false });
            &&& l.fallback ==> wrong.action == ActionView::Interactive && open.action
                == ActionView::Interactive
            &&& !l.fallback ==> open.action == ActionView::Finish(Ok(()))
            &&& !l.fallback && l.way == Way::Password ==> wrong.action == ActionView::Finish(
                Err("password authentication failed: "@ + error),
            )
            &&& !l.fallback && l.way == Way::Key ==> wrong.action == ActionView::Finish(
                Err(
                    "key authentication failed ("@ + paths::shown(l.sys, l.key_path) + "): "@
                        + error,
                ),
            )
            &&& after(l, AuthEvent::Tried { error: Some(error), authenticated: true }) == wrong
        }),
{
}

/// The agent's identities are tried one by one from the first, until one is
/// accepted; when none is left the last resort is taken, or the login ends
/// with the last error.
pub proof fn law_identities_are_tried_in_turn(l: LoginView, n: usize, i: usize, error: Seq<char>)
    ensures
        l.action is StartAgent && n > 0 ==> after(l, AuthEvent::AgentReady(n)) == (LoginView {
            action: ActionView::TryIdentity(0),
            identities: n,
            ..l
        }),
        l.action is StartAgent && l.fallback ==> after(l, AuthEvent::AgentReady(0)).action
            == ActionView::Interactive,
        l.action is StartAgent && !l.fallback ==> after(l, AuthEvent::AgentReady(0)).action
            == ActionView::Finish(Err("agent authentication failed: "@ + l.last_error)),
        l.action == ActionView::TryIdentity(i) ==> {
            let wrong = after(l, AuthEvent::Tried { error: Some(error), authenticated: false });
            let open = after(l, AuthEvent::Tried { error: None, authenticated: false });
            let good = after(l, AuthEvent::Tried { error: None, authenticated: true });
            &&& good.action == ActionView::Finish(Ok(()))
            &&& wrong.last_error == error
            &&& open.last_error == l.last_error
            &&& i + 1 < l.identities ==> wrong.action == ActionView::TryIdentity((i + 1) as usize)
            &&& i + 1 < l.identities ==> open.action == ActionView::TryIdentity((i + 1) as usize)
            &&& i + 1 >= l.identities && l.fallback ==> wrong.action == ActionView::Interactive
            &&& i + 1 >= l.identities && l.fallback ==> open.action == ActionView::Interactive
            &&& i + 1 >= l.identities && !l.fallback ==> wrong.action == ActionView::Finish(
                Err("agent authentication failed: "@ + error),
            )
            &&& i + 1 >= l.identities && !l.fallback ==> open.action == ActionView::Finish(
                Err("agent authentication failed: "@ + l.last_error),
            )
        },
{
}

/// An agent that cannot be used ends the login at once, with the step at which
/// it failed.
pub proof fn law_an_agent_that_fails_ends_the_login(l: LoginView, why: Seq<char>)
    requires
        l.action is StartAgent,
    ensures
        after(l, AuthEvent::AgentFailed { step: AgentStep::Open, why }).action
            == ActionView::Finish(Err("ssh-agent unavailable: "@ + why)),
        after(l, AuthEvent::AgentFailed { step: AgentStep::Connect, why }).action
            == ActionView::Finish(Err("cannot connect to ssh-agent: "@ + why)),
        after(l, AuthEvent::AgentFailed { step: AgentStep::List, why }).action
            == ActionView::Finish(Err("cannot list agent identities: "@ + why)),
        after(l, AuthEvent::AgentFailed { step: AgentStep::Identities, why }).action
            == ActionView::Finish(Err(why)),
{
}

/// The server's questions decide in the end: answered without an error they
/// end the login well, and else with that error.
pub proof fn law_the_questions_decide(l: LoginView, error: Seq<char>)
    requires
        l.action is Interactive,
    ensures
        after(l, AuthEvent::Asked(None)).action == ActionView::Finish(Ok(())),
        after(l, AuthEvent::Asked(Some(error))).action == ActionView::Finish(
            Err("interactive authentication failed: "@ + error),
        ),
{
}

/// Whether an event can come of an action.
pub open spec fn comes_of(a: ActionView, e: AuthEvent<Seq<char>>) -> bool {
    match e {
        AuthEvent::Answered(_) => a is Ask,
        AuthEvent::Tried { .. } => a is TryPassword || a is TryKey || a is TryIdentity,
        AuthEvent::AgentReady(_) => a is StartAgent,
        AuthEvent::AgentFailed { .. } => a is StartAgent,
        AuthEvent::Remembered => a is Remember,
        AuthEvent::Asked(_) => a is Interactive,
    }
}

/// An event that cannot come of the action at hand changes nothing, and no
/// event changes what a login is for.
pub proof fn law_a_login_keeps_its_purpose(l: LoginView, e: AuthEvent<Seq<char>>)
    ensures
        !comes_of(l.action, e) ==> after(l, e) == l,
        after(l, e).way == l.way,
        after(l, e).sys == l.sys,
        after(l, e).key_path == l.key_path,
        after(l, e).lost == l.lost,
        after(l, e).fallback == l.fallback,
        !(e is Answered) ==> after(l, e).given == l.given,
        !(e is AgentReady) ==> after(l, e).identities == l.identities,
        !(l.action is TryIdentity) ==> after(l, e).last_error == l.last_error,
{
}

/// A key is looked for at the path that the host gives, as it stands unless it
/// begins with the home directory; other hosts have no key.
pub proof fn law_a_key_is_looked_for_at_its_path(
    sys: System,
    auth: hosts::AuthView,
    path: Seq<u8>,
)
    requires
        is_key_path(sys, auth, path),
    ensures
        auth is Key && !"~/"@.is_prefix_of(auth->path) ==> path == text::utf8(auth->path),
        !(auth is Key) ==> path.len() == 0,
{
}

/// An event stands for what it says, and an action for what it asks for.
pub proof fn law_an_event_stands_for_what_it_says(
    e: AuthEvent<String>,
    a: AuthAction<String, Vec<u8>>,
)
    ensures
        match e {
            AuthEvent::Answered(x) => e@ == AuthEvent::Answered(text::opt_text(x)),
            AuthEvent::Tried { error, authenticated } => e@ == (AuthEvent::Tried {
                error: text::opt_text(error),
                authenticated,
            }),
            AuthEvent::AgentReady(n) => e@ == AuthEvent::<Seq<char>>::AgentReady(n),
            AuthEvent::AgentFailed { step, why } => e@ == (AuthEvent::AgentFailed {
                step,
                why: why@,
            }),
            AuthEvent::Remembered => e@ == AuthEvent::<Seq<char>>::Remembered,
            AuthEvent::Asked(x) => e@ == AuthEvent::Asked(text::opt_text(x)),
        },
        match a {
            AuthAction::Ask(p) => action_text(a) == ActionView::Ask(p@),
            AuthAction::TryPassword(p) => action_text(a) == ActionView::TryPassword(p@),
            AuthAction::TryKey { path, passphrase } => action_text(a) == (ActionView::TryKey {
                path: path@,
                passphrase: text::opt_text(passphrase),
            }),
            AuthAction::StartAgent => action_text(a) == ActionView::StartAgent,
            AuthAction::TryIdentity(i) => action_text(a) == ActionView::TryIdentity(i),
            AuthAction::Remember { field, secret } => action_text(a) == (ActionView::Remember {
                field: field@,
                secret: secret@,
            }),
            AuthAction::Interactive => action_text(a) == ActionView::Interactive,
            AuthAction::Finish(r) => action_text(a) == ActionView::Finish(text::result_text(r)),
        },
{
}

} // verus!
