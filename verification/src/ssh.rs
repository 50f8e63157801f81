//! Terminal sessions: the table of those that are open, and the questions of
//! a server that wait for an answer.

use vstd::prelude::*;
use std::collections::HashMap;
use crate::paths;
use crate::sessions;
use crate::sessions::{Command, Posted, SessionTable, SessionView, Taken};
use crate::text;
use crate::waits;

verus! {

broadcast use vstd::std_specs::hash::group_hash_axioms;

/// What a terminal session can be told.
#[derive(Debug)]
pub enum SshCommand {
    Data(Vec<u8>),
    Resize { cols: u32, rows: u32 },
    /// Records all output to a file, or stops doing so.
    SetLog(Option<LogSpec>),
    Disconnect,
}

/// Where the output of a session is recorded: as a raw byte stream, or as an
/// asciinema v2 file.
#[derive(Debug)]
pub struct LogSpec {
    pub path: Vec<u8>,
    pub cast: bool,
    pub cols: u32,
    pub rows: u32,
}

impl Command for SshCommand {
    open spec fn last_word() -> SshCommand {
        SshCommand::Disconnect
    }

    fn farewell() -> (r: SshCommand) {
        SshCommand::Disconnect
    }
}

/// Sent to every new shell (bash): emits OSC 7 (working directory) after every
/// prompt so that file panes can follow `cd`, and OSC 133 C/D (command start
/// and finish) so that long-running commands can be noticed. The leading space
/// keeps it out of the history; the trailing `clear` hides the echo.
pub const SHELL_INTEGRATION: &'static str = " SSHWS_OLDPC=\"${PROMPT_COMMAND:-}\"; __sshws_pc() { local r=$?; __sshws_in=1; printf '\\033]7;file://%s%s\\007' \"$(hostname)\" \"$PWD\"; printf '\\033]133;D;%s\\007' \"$r\"; [ -n \"$SSHWS_OLDPC\" ] && eval \"$SSHWS_OLDPC\"; __sshws_in=0; }; PROMPT_COMMAND=__sshws_pc; trap '[ \"${__sshws_in:-0}\" = 0 ] && printf \"\\033]133;C\\007\"' DEBUG; clear\n";

/// The open terminal sessions.
pub struct SshManager {
    sessions: SessionTable<SshCommand>,
}

/// What is known of terminal sessions, by their ids.
pub type SshSessions = Map<Seq<char>, SessionView<SshCommand>>;

/// The answer to a command that became of as told.
pub open spec fn send_result(p: Posted) -> Result<(), Seq<char>> {
    match p {
        Posted::Closed => Err("sending on a closed channel"@),
        _ => Ok(()),
    }
}

/// A session that was just opened: the shell integration waits for it.
pub open spec fn opened(host_id: Seq<char>, s: SessionView<SshCommand>) -> bool {
    &&& s.host_id == host_id
    &&& s.listed
    &&& s.open
    &&& s.queue.len() == 1
    &&& s.queue[0] is Data
    &&& s.queue[0]->Data_0@ == vstd::utf8::encode_utf8(SHELL_INTEGRATION@)
}

impl SshManager {
    /// The sessions, by their ids.
    pub closed spec fn view(&self) -> SshSessions {
        self.sessions@
    }

    /// The number of the next session.
    pub closed spec fn counter(&self) -> u64 {
        self.sessions.counter()
    }

    /// No sessions.
    pub fn new() -> (r: Self)
        ensures
            r@ == Map::<Seq<char>, SessionView<SshCommand>>::empty(),
            r.counter() == 1,
    {
        SshManager { sessions: SessionTable::new() }
    }

    /// Lists a session of a host under an id, in place of any that had it.
    pub fn insert(&mut self, id: &str, host_id: &str)
        ensures
            final(self)@ == old(self)@.insert(
                id@,
                SessionView { host_id: host_id@, queue: Seq::empty(), listed: true, open: true },
            ),
            final(self).counter() == old(self).counter(),
    {
        self.sessions.insert(id, host_id);
    }

    /// Drops a session.
    pub fn remove(&mut self, id: &str)
        ensures
            final(self)@ == old(self)@.remove(id@),
            final(self).counter() == old(self).counter(),
    {
        self.sessions.remove(id);
    }

    /// Opens a session of a host under a new id, with the shell integration
    /// as its first input.
    pub fn open(&mut self, host_id: &str) -> (r: String)
        ensures
            r@ == sessions::session_id("s"@, old(self).counter()),
            final(self).counter() == sessions::number_after(old(self).counter()),
            final(self)@.dom().contains(r@),
            opened(host_id@, final(self)@[r@]),
            final(self)@.remove(r@) == old(self)@.remove(r@),
    {
        let id = self.sessions.register("s", host_id);
        let script = text::copy_bytes(SHELL_INTEGRATION.as_bytes());
        let ghost before = self.sessions@;
        self.sessions.post(id.as_str(), SshCommand::Data(script));
        assert(self@.remove(id@) =~= old(self)@.remove(id@));
        id
    }

    /// Sends a command to a session. A session that is not there takes it in
    /// silence.
    pub fn send(&mut self, id: &str, cmd: SshCommand) -> (r: Result<(), String>)
        ensures
            text::result_text(r) == send_result(sessions::outcome(old(self)@, id@)),
            final(self)@ == sessions::posted(old(self)@, id@, cmd),
            final(self).counter() == old(self).counter(),
    {
        match self.sessions.post(id, cmd) {
            Posted::Closed => Err("sending on a closed channel".to_owned()),
            _ => Ok(()),
        }
    }

    /// Takes the oldest command that waits for a session.
    pub fn take(&mut self, id: &str) -> (r: Option<SshCommand>)
        ensures
            final(self).counter() == old(self).counter(),
            match r {
                Some(c) => {
                    &&& old(self)@.dom().contains(id@)
                    &&& old(self)@[id@].queue.len() > 0
                    &&& c == old(self)@[id@].queue[0]
                    &&& final(self)@ == old(self)@.insert(
                        id@,
                        SessionView {
                            queue: old(self)@[id@].queue.drop_first(),
                            ..old(self)@[id@]
                        },
                    )
                },
                None => {
                    &&& old(self)@.dom().contains(id@) ==> old(self)@[id@].queue.len() == 0
                    &&& final(self)@ == old(self)@
                },
            },
    {
        match self.sessions.take(id) {
            Taken::Command(c) => Some(c),
            _ => None,
        }
    }

    /// Ends a session: its worker has gone, and it is listed no more.
    pub fn finish(&mut self, id: &str)
        ensures
            final(self)@ == old(self)@.remove(id@),
            final(self).counter() == old(self).counter(),
    {
        self.sessions.hang_up(id);
        self.sessions.remove(id);
        assert(self@ =~= old(self)@.remove(id@));
    }

    /// Disconnects every session of a host.
    pub fn disconnect_host(&mut self, host_id: &str)
        ensures
            final(self)@ == sessions::told(old(self)@, Some(host_id@)),
            final(self).counter() == old(self).counter(),
    {
        self.sessions.tell(Some(host_id));
    }

    /// Disconnects all sessions.
    pub fn disconnect_all(&mut self)
        ensures
            final(self)@ == sessions::told(old(self)@, None),
            final(self).counter() == old(self).counter(),
    {
        self.sessions.tell(None);
    }
}

/// The recording that is asked for, given the data directory and how paths are
/// written: none where it is to stop. The format is `cast` or anything else for
/// a raw one.
pub fn log_request_in(
    sys: paths::System,
    data: Option<Vec<u8>>,
    session: &str,
    enable: bool,
    format: &str,
    cols: u32,
    rows: u32,
    seconds: u64,
) -> (r: Option<LogSpec>)
    ensures
        r is Some <==> enable,
        r matches Some(s) ==> {
            &&& s.cast == (format@ == "cast"@)
            &&& s.path@ == paths::log_file_of(
                sys,
                text::opt_bytes(data),
                session@,
                seconds,
                s.cast,
            )
            &&& s.cols == cols
            &&& s.rows == rows
        },
{
    if !enable {
        return None;
    }
    let cast: bool = text::same(format, "cast");
    let path = paths::log_file_in(sys, data, session, seconds, cast);
    Some(LogSpec { path, cast, cols, rows })
}

/// The recording that is asked for: none where it is to stop. It goes below
/// the user's data directory.
pub fn log_request(
    session: &str,
    enable: bool,
    format: &str,
    cols: u32,
    rows: u32,
    seconds: u64,
) -> (r: Option<LogSpec>)
    ensures
        r is Some <==> enable,
        r matches Some(s) ==> {
            &&& s.cast == (format@ == "cast"@)
            &&& exists|sys: paths::System, data: Option<Seq<u8>>|
                s.path@ == #[trigger] paths::log_file_of(sys, data, session@, seconds, s.cast)
            &&& s.cols == cols
            &&& s.rows == rows
        },
{
    let data = paths::data_dir();
    log_request_in(paths::system(), data, session, enable, format, cols, rows, seconds)
}

/// The event that carries the output of a session.
pub fn data_event(id: &str) -> (r: String)
    ensures
        r@ == "ssh-data-"@ + id@,
{
    let mut out: String = "ssh-data-".to_owned();
    out.append(id);
    out
}

/// The event that tells of the end of a session.
pub fn exit_event(id: &str) -> (r: String)
    ensures
        r@ == "ssh-exit-"@ + id@,
{
    let mut out: String = "ssh-exit-".to_owned();
    out.append(id);
    out
}

// ---------- questions of a server ----------

/// What the user is asked: one answer is expected for each prompt, which is
/// shown with or without what is typed.
#[derive(Debug)]
pub struct AuthPromptReq {
    pub id: u64,
    pub username: String,
    pub instructions: String,
    pub prompts: Vec<(String, bool)>,
}

/// The questions that were asked, and the answers that nobody took yet.
pub struct Prompts {
    asked: HashMap<u64, Option<Vec<String>>>,
    next: u64,
}

/// The questions after a reply: it counts once, and only where it answers an
/// open question.
pub open spec fn replied(
    m: Map<u64, Option<Vec<String>>>,
    id: u64,
    answers: Vec<String>,
) -> Map<u64, Option<Vec<String>>> {
    if m.dom().contains(id) && m[id] is None {
        m.insert(id, Some(answers))
    } else {
        m
    }
}

/// What has become of a question.
#[derive(Debug, PartialEq, Eq)]
pub enum PromptState {
    Answered(Vec<String>),
    /// No answer yet; it has so many milliseconds left.
    Waiting(u64),
    /// No answer in time.
    GivenUp,
}

/// What has become of a question that was asked `waited` milliseconds ago, and
/// the questions after that was seen.
pub open spec fn awaited(m: Map<u64, Option<Vec<String>>>, id: u64, waited: u64) -> (
    PromptState,
    Map<u64, Option<Vec<String>>>,
) {
    if m.dom().contains(id) && m[id] is Some {
        (PromptState::Answered(m[id]->Some_0), m.remove(id))
    } else if waited >= waits::PROMPT_MILLIS {
        (PromptState::GivenUp, m.remove(id))
    } else {
        (PromptState::Waiting((waits::PROMPT_MILLIS - waited) as u64), m)
    }
}

impl Prompts {
    /// The questions that were asked, with their answers.
    pub closed spec fn view(&self) -> Map<u64, Option<Vec<String>>> {
        self.asked@
    }

    /// The number of the next question.
    pub closed spec fn counter(&self) -> u64 {
        self.next
    }

    /// No questions.
    pub fn new() -> (r: Self)
        ensures
            r@ == Map::<u64, Option<Vec<String>>>::empty(),
            r.counter() == 1,
    {
        Prompts { asked: HashMap::new(), next: 1 }
    }

    /// Asks a question of the server.
    pub fn ask(&mut self, username: &str, instructions: &str, prompts: Vec<(String, bool)>) -> (r:
        AuthPromptReq)
        ensures
            r.id == old(self).counter(),
            r.username@ == username@,
            r.instructions@ == instructions@,
            r.prompts == prompts,
            final(self)@ == old(self)@.insert(r.id, None),
            final(self).counter() == sessions::number_after(old(self).counter()),
    {
        let id: u64 = self.next;
        self.next = if id == u64::MAX {
            0
        } else {
            id + 1
        };
        self.asked.insert(id, None);
        AuthPromptReq {
            id,
            username: username.to_owned(),
            instructions: instructions.to_owned(),
            prompts,
        }
    }

    /// Asks for one secret.
    pub fn ask_secret(&mut self, prompt: &str) -> (r: AuthPromptReq)
        ensures
            r.id == old(self).counter(),
            r.username@ == Seq::<char>::empty(),
            r.instructions@ == Seq::<char>::empty(),
            r.prompts@.len() == 1,
            r.prompts@[0].0@ == prompt@,
            !r.prompts@[0].1,
            final(self)@ == old(self)@.insert(r.id, None),
            final(self).counter() == sessions::number_after(old(self).counter()),
    {
        let mut prompts: Vec<(String, bool)> = Vec::new();
        prompts.push((prompt.to_owned(), false));
        proof {
            reveal_strlit("");
            assert(""@ =~= Seq::<char>::empty());
        }
        self.ask("", "", prompts)
    }

    /// Sees what has become of a question that was asked so many milliseconds
    /// ago: its answers are taken once they are there, and without them it is
    /// given up in the end.
    pub fn poll(&mut self, id: u64, waited: u64) -> (r: PromptState)
        ensures
            (r, final(self)@) == awaited(old(self)@, id, waited),
            final(self).counter() == old(self).counter(),
    {
        match self.asked.remove(&id) {
            Some(Some(a)) => PromptState::Answered(a),
            found => {
                if waited >= waits::PROMPT_MILLIS {
                    assert(self@ =~= old(self)@.remove(id));
                    PromptState::GivenUp
                } else {
                    if found.is_some() {
                        self.asked.insert(id, None);
                    }
                    assert(self@ =~= old(self)@);
                    PromptState::Waiting(waits::PROMPT_MILLIS - waited)
                }
            },
        }
    }
}

/// Takes in what the user said to a question.
pub fn auth_prompt_reply(prompts: &mut Prompts, id: u64, answers: Vec<String>)
    ensures
        final(prompts)@ == replied(old(prompts)@, id, answers),
        final(prompts).counter() == old(prompts).counter(),
{
    let waits: bool = match prompts.asked.get(&id) {
        Some(a) => a.is_none(),
        None => false,
    };
    if waits {
        prompts.asked.insert(id, Some(answers));
    }
}

/// The answers to a server's questions: none where nobody answered in time.
pub fn answers_given(answers: Option<Vec<String>>) -> (r: Vec<String>)
    ensures
        match answers {
            Some(a) => r == a,
            None => r@.len() == 0,
        },
{
    match answers {
        Some(a) => a,
        None => Vec::new(),
    }
}

/// The answer to a question for one secret: the last that was given.
pub fn secret_given(answers: Option<Vec<String>>) -> (r: Option<String>)
    ensures
        match answers {
            Some(a) => if a@.len() > 0 {
                r == Some(a@.last())
            } else {
                r is None
            },
            None => r is None,
        },
{
    match answers {
        Some(a) => {
            let mut a = a;
            a.pop()
        },
        None => None,
    }
}

// ---------- laws ----------

/// A second reply to a question changes nothing.
pub proof fn law_the_first_reply_counts(
    m: Map<u64, Option<Vec<String>>>,
    id: u64,
    first: Vec<String>,
    second: Vec<String>,
)
    ensures
        replied(replied(m, id, first), id, second) == replied(m, id, first),
{
}

/// A question is given up exactly when five minutes have passed without an
/// answer, and an answer that comes later finds no question.
pub proof fn law_a_question_waits_five_minutes(
    m: Map<u64, Option<Vec<String>>>,
    id: u64,
    waited: u64,
    late: Vec<String>,
)
    requires
        m.dom().contains(id),
        m[id] is None,
    ensures
        awaited(m, id, waited).0 is GivenUp <==> waited >= 5 * 60 * 1000,
        awaited(m, id, waited).0 is GivenUp ==> {
            let after = awaited(m, id, waited).1;
            replied(after, id, late) == after
        },
        !(awaited(m, id, waited).0 is GivenUp) ==> awaited(m, id, waited).1 == m,
{
}

/// An answer that is there is handed out, however late anyone looks, and only
/// once.
pub proof fn law_an_answer_is_handed_out_once(
    m: Map<u64, Option<Vec<String>>>,
    id: u64,
    answers: Vec<String>,
    waited: u64,
    again: u64,
)
    requires
        m.dom().contains(id),
        m[id] is None,
    ensures
        ({
            let (state, rest) = awaited(replied(m, id, answers), id, waited);
            &&& state == PromptState::Answered(answers)
            &&& !(awaited(rest, id, again).0 is Answered)
        }),
{
}

/// A reply touches no other question.
pub proof fn law_a_reply_keeps_the_others(
    m: Map<u64, Option<Vec<String>>>,
    id: u64,
    answers: Vec<String>,
    other: u64,
)
    requires
        other != id,
    ensures
        replied(m, id, answers).dom().contains(other) == m.dom().contains(other),
        m.dom().contains(other) ==> replied(m, id, answers)[other] == m[other],
{
}

/// Disconnecting a host tells exactly its open sessions, and no other.
pub proof fn law_disconnecting_reaches_the_host(m: SshSessions, host: Seq<char>, id: Seq<char>)
    requires
        sessions::is_listed(m, id),
        m[id].open,
    ensures
        m[id].host_id == host ==> sessions::told(m, Some(host))[id].queue == m[id].queue.push(
            SshCommand::Disconnect,
        ),
        m[id].host_id != host ==> sessions::told(m, Some(host))[id] == m[id],
        sessions::told(m, None)[id].queue == m[id].queue.push(SshCommand::Disconnect),
{
}

/// A command to a closed session is an error; one to no session is passed over.
pub proof fn law_only_a_closed_session_is_an_error(p: Posted)
    ensures
        p == Posted::Closed ==> send_result(p) == Err::<(), Seq<char>>(
            "sending on a closed channel"@,
        ),
        p != Posted::Closed ==> send_result(p) == Ok::<(), Seq<char>>(()),
{
}

/// A reply is kept for a question that is still open, as it was given; one to a
/// question that nobody asked, or that has its reply, changes nothing.
pub proof fn law_a_reply_is_kept_for_its_question(
    m: Map<u64, Option<Vec<String>>>,
    id: u64,
    answers: Vec<String>,
)
    ensures
        m.dom().contains(id) && m[id] is None ==> replied(m, id, answers) == m.insert(
            id,
            Some(answers),
        ),
        !m.dom().contains(id) || m[id] is Some ==> replied(m, id, answers) == m,
{
}

/// A question that has its reply hands it out and is forgotten, however long
/// that took; without one it is given up after five minutes, not before, and
/// until then the rest of that time is left.
pub proof fn law_a_question_ends_with_its_reply_or_in_time(
    m: Map<u64, Option<Vec<String>>>,
    id: u64,
    waited: u64,
)
    ensures
        m.dom().contains(id) && m[id] is Some ==> awaited(m, id, waited) == (
            PromptState::Answered(m[id]->Some_0),
            m.remove(id),
        ),
        !(m.dom().contains(id) && m[id] is Some) && waited >= 300000 ==> awaited(m, id, waited) == (
            PromptState::GivenUp,
            m.remove(id),
        ),
        !(m.dom().contains(id) && m[id] is Some) && waited < 300000 ==> awaited(m, id, waited) == (
            PromptState::Waiting((300000 - waited) as u64),
            m,
        ),
{
}

/// A session that was opened belongs to its host, takes commands, and has one
/// to carry out: to make the shell tell where it is.
pub proof fn law_a_session_begins_with_the_shell(host_id: Seq<char>, s: SessionView<SshCommand>)
    requires
        opened(host_id, s),
    ensures
        s.host_id == host_id,
        s.listed && s.open,
        s.queue.len() == 1,
        s.queue[0] is Data,
        s.queue[0]->Data_0@ == text::utf8(SHELL_INTEGRATION@),
{
}

} // verus!
