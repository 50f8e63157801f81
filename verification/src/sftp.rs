//! File sessions: the table of those that are open, what they are asked, and
//! what they answered.

use vstd::prelude::*;
use std::collections::HashMap;
use crate::files;
use crate::files::ListResult;
use crate::hosts;
use crate::hosts::Host;
use crate::paths;
use crate::sessions;
use crate::sessions::{Command, Posted, SessionTable, SessionView, Taken};
use crate::text;
use crate::waits;

verus! {

broadcast use vstd::std_specs::hash::group_hash_axioms;

/// What a file session can be asked. A ticket leads to the answer.
#[derive(Debug)]
pub enum SftpMsg {
    List { path: String, ticket: u64 },
    Mkdir { path: String, ticket: u64 },
    Delete { path: String, ticket: u64 },
    Rename { old_path: String, new_path: String, ticket: u64 },
    Chmod { path: String, mode: u32, ticket: u64 },
    /// Downloads `remote` to `local`, without telling of progress.
    EditOpen { remote: String, local: String, ticket: u64 },
    /// Uploads or downloads a tree; `resume` continues files that are there in
    /// part.
    Transfer { id: String, upload: bool, src: String, dst: String, resume: bool },
    Disconnect,
}

/// What a `SftpMsg` holds.
pub enum MsgView {
    List { path: Seq<char>, ticket: u64 },
    Mkdir { path: Seq<char>, ticket: u64 },
    Delete { path: Seq<char>, ticket: u64 },
    Rename { old_path: Seq<char>, new_path: Seq<char>, ticket: u64 },
    Chmod { path: Seq<char>, mode: u32, ticket: u64 },
    EditOpen { remote: Seq<char>, local: Seq<char>, ticket: u64 },
    Transfer { id: Seq<char>, upload: bool, src: Seq<char>, dst: Seq<char>, resume: bool },
    Disconnect,
}

impl View for SftpMsg {
    type V = MsgView;

    open spec fn view(&self) -> MsgView {
        match *self {
            SftpMsg::List { path, ticket } => MsgView::List { path: path@, ticket },
            SftpMsg::Mkdir { path, ticket } => MsgView::Mkdir { path: path@, ticket },
            SftpMsg::Delete { path, ticket } => MsgView::Delete { path: path@, ticket },
            SftpMsg::Rename { old_path, new_path, ticket } => MsgView::Rename {
                old_path: old_path@,
                new_path: new_path@,
                ticket,
            },
            SftpMsg::Chmod { path, mode, ticket } => MsgView::Chmod { path: path@, mode, ticket },
            SftpMsg::EditOpen { remote, local, ticket } => MsgView::EditOpen {
                remote: remote@,
                local: local@,
                ticket,
            },
            SftpMsg::Transfer { id, upload, src, dst, resume } => MsgView::Transfer {
                id: id@,
                upload,
                src: src@,
                dst: dst@,
                resume,
            },
            SftpMsg::Disconnect => MsgView::Disconnect,
        }
    }
}

impl Command for SftpMsg {
    open spec fn last_word() -> SftpMsg {
        SftpMsg::Disconnect
    }

    fn farewell() -> (r: SftpMsg) {
        SftpMsg::Disconnect
    }
}

/// All it takes to connect once more, for a transfer of its own.
#[derive(Debug)]
pub struct ConnParams {
    pub host: Host,
    pub secret: Option<String>,
    pub jump: Option<(Host, Option<String>)>,
    pub known_hosts: Vec<u8>,
}

/// What a `ConnParams` holds.
pub struct ConnView {
    pub host: hosts::HostView,
    pub secret: Option<Seq<char>>,
    pub jump: Option<(hosts::HostView, Option<Seq<char>>)>,
    pub known_hosts: Seq<u8>,
}

impl View for ConnParams {
    type V = ConnView;

    open spec fn view(&self) -> ConnView {
        ConnView {
            host: self.host@,
            secret: text::opt_text(self.secret),
            jump: match self.jump {
                Some(j) => Some((j.0@, text::opt_text(j.1))),
                None => None,
            },
            known_hosts: self.known_hosts@,
        }
    }
}

impl Clone for ConnParams {
    fn clone(&self) -> (r: Self)
        ensures
            r@ == self@,
    {
        ConnParams {
            host: self.host.clone(),
            secret: text::copy_opt(&self.secret),
            jump: match &self.jump {
                Some(j) => Some((j.0.clone(), text::copy_opt(&j.1))),
                None => None,
            },
            known_hosts: text::copy_bytes(self.known_hosts.as_slice()),
        }
    }
}

// ---------- permits ----------

/// How many transfers of a session may run at once, so that many of them do
/// not trip the limits of a server.
pub const MAX_TRANSFERS: usize = 4;

/// The transfers of a session that run right now.
pub struct Permit {
    count: usize,
}

impl Permit {
    /// How many transfers run.
    pub closed spec fn running(&self) -> nat {
        self.count as nat
    }

    #[verifier::type_invariant]
    spec fn wf(&self) -> bool {
        self.count <= MAX_TRANSFERS
    }

    /// No transfers.
    pub fn new() -> (r: Self)
        ensures
            r.running() == 0,
    {
        Permit { count: 0 }
    }

    /// Lets a transfer run where there is room for it.
    pub fn acquire(&mut self) -> (r: bool)
        ensures
            r == (old(self).running() < MAX_TRANSFERS),
            r <==> old(self).running() < 4,
            final(self).running() == old(self).running() + if r {
                1int
            } else {
                0
            },
            final(self).running() <= MAX_TRANSFERS,
    {
        proof {
            use_type_invariant(&*self);
        }
        if self.count >= MAX_TRANSFERS {
            return false;
        }
        self.count += 1;
        true
    }

    /// Notes that a transfer is over.
    pub fn release(&mut self)
        requires
            old(self).running() > 0,
        ensures
            final(self).running() == old(self).running() - 1,
    {
        proof {
            use_type_invariant(&*self);
        }
        self.count -= 1;
    }
}

// ---------- the manager ----------

/// What a file session answered.
#[derive(Debug)]
pub enum SftpReply {
    Listing(Result<ListResult, String>),
    Done(Result<(), String>),
}

/// What became of a question.
#[derive(Debug)]
pub enum Polled {
    Waiting,
    Answered(SftpReply),
    /// The session went away without an answer.
    Lost,
}

struct Ticket {
    session: String,
    reply: Option<SftpReply>,
}

/// A question that was asked: which session, and what it answered.
pub struct TicketView {
    pub session: Seq<char>,
    pub reply: Option<SftpReply>,
}

impl Ticket {
    spec fn view(&self) -> TicketView {
        TicketView { session: self.session@, reply: self.reply }
    }
}

struct Watch {
    session: String,
    cancelled: bool,
}

/// A file that is watched: for which session, and whether that has ended.
pub struct WatchView {
    pub session: Seq<char>,
    pub cancelled: bool,
}

impl Watch {
    spec fn view(&self) -> WatchView {
        WatchView { session: self.session@, cancelled: self.cancelled }
    }
}

spec fn watch_views(v: Seq<Watch>) -> Seq<WatchView> {
    Seq::new(v.len(), |i: int| v[i]@)
}

/// The open file sessions.
pub struct SftpManager {
    sessions: SessionTable<SftpMsg>,
    tickets: HashMap<u64, Ticket>,
    next_ticket: u64,
    watches: Vec<Watch>,
    next_upload: u64,
}

/// What a `SftpManager` holds.
pub struct SftpView {
    /// The sessions, by their ids.
    pub sessions: Map<Seq<char>, SessionView<SftpMsg>>,
    /// The number of the next session.
    pub counter: u64,
    /// The questions that were asked and whose answers nobody took yet.
    pub tickets: Map<u64, TicketView>,
    pub next_ticket: u64,
    pub watches: Seq<WatchView>,
    /// The number of the next upload of a watched file.
    pub next_upload: u64,
}

/// The answer to a message that became of as told.
pub open spec fn send_error(p: Posted) -> Option<Seq<char>> {
    match p {
        Posted::Queued => None,
        Posted::Closed => Some("sending on a closed channel"@),
        Posted::Unknown => Some("sftp session not found"@),
    }
}

/// Whether `after` is `before` with the message sent to the session.
pub open spec fn sent(before: SftpView, after: SftpView, id: Seq<char>, m: MsgView) -> bool {
    exists|c: SftpMsg|
        c@ == m && after == (SftpView {
            sessions: #[trigger] sessions::posted(before.sessions, id, c),
            ..before
        })
}

/// Whether `after` is `before` with the question sent to the session, under
/// the next ticket. Where it could not be sent, nothing changes.
pub open spec fn asked(before: SftpView, after: SftpView, id: Seq<char>, m: MsgView) -> bool {
    if sessions::outcome(before.sessions, id) == Posted::Queued {
        sent(
            SftpView {
                tickets: before.tickets.insert(
                    before.next_ticket,
                    TicketView { session: id, reply: None },
                ),
                next_ticket: sessions::number_after(before.next_ticket),
                ..before
            },
            after,
            id,
            m,
        )
    } else {
        after == before
    }
}

/// What the user of a question gets: a ticket, or an error.
pub open spec fn ask_result(before: SftpView, id: Seq<char>) -> Result<u64, Seq<char>> {
    match send_error(sessions::outcome(before.sessions, id)) {
        Some(e) => Err(e),
        None => Ok(before.next_ticket),
    }
}

/// A ticket, or the text of an error.
pub open spec fn ticket_text(r: Result<u64, String>) -> Result<u64, Seq<char>> {
    match r {
        Ok(t) => Ok(t),
        Err(e) => Err(e@),
    }
}

/// The watches after a session has ended.
pub open spec fn ended_watches(v: Seq<WatchView>, id: Seq<char>) -> Seq<WatchView> {
    Seq::new(
        v.len(),
        |i: int| WatchView { cancelled: v[i].cancelled || v[i].session == id, ..v[i] },
    )
}

/// The tickets after an answer: it counts once, and only where it answers an
/// open question.
pub open spec fn answered(m: Map<u64, TicketView>, ticket: u64, reply: SftpReply) -> Map<
    u64,
    TicketView,
> {
    if m.dom().contains(ticket) && m[ticket].reply is None {
        m.insert(ticket, TicketView { reply: Some(reply), ..m[ticket] })
    } else {
        m
    }
}

fn send_failure(p: Posted) -> (r: Result<(), String>)
    ensures
        text::result_text(r) == match send_error(p) {
            Some(e) => Err(e),
            None => Ok(()),
        },
{
    match p {
        Posted::Queued => Ok(()),
        Posted::Closed => Err("sending on a closed channel".to_owned()),
        Posted::Unknown => Err("sftp session not found".to_owned()),
    }
}

impl SftpManager {
    spec fn ticket_map(&self) -> Map<u64, TicketView> {
        Map::new(|t: u64| self.tickets@.dom().contains(t), |t: u64| self.tickets@[t]@)
    }

    /// What the manager holds.
    pub closed spec fn view(&self) -> SftpView {
        SftpView {
            sessions: self.sessions@,
            counter: self.sessions.counter(),
            tickets: self.ticket_map(),
            next_ticket: self.next_ticket,
            watches: watch_views(self.watches@),
            next_upload: self.next_upload,
        }
    }

    /// No sessions.
    pub fn new() -> (r: Self)
        ensures
            r@ == (SftpView {
                sessions: Map::empty(),
                counter: 1,
                tickets: Map::empty(),
                next_ticket: 1,
                watches: Seq::empty(),
                next_upload: 1,
            }),
    {
        let r = SftpManager {
            sessions: SessionTable::new(),
            tickets: HashMap::new(),
            next_ticket: 1,
            watches: Vec::new(),
            next_upload: 1,
        };
        assert(r.ticket_map() =~= Map::<u64, TicketView>::empty());
        assert(watch_views(r.watches@) =~= Seq::<WatchView>::empty());
        r
    }

    /// Lists a session of a host under an id, in place of any that had it.
    pub fn insert(&mut self, id: &str, host_id: &str)
        ensures
            final(self)@ == (SftpView {
                sessions: old(self)@.sessions.insert(
                    id@,
                    SessionView { host_id: host_id@, queue: Seq::empty(), listed: true, open: true },
                ),
                ..old(self)@
            }),
    {
        self.sessions.insert(id, host_id);
    }

    /// Opens a session of a host under a new id.
    pub fn open(&mut self, host_id: &str) -> (r: String)
        ensures
            r@ == sessions::session_id("f"@, old(self)@.counter),
            final(self)@ == (SftpView {
                sessions: old(self)@.sessions.insert(
                    r@,
                    SessionView { host_id: host_id@, queue: Seq::empty(), listed: true, open: true },
                ),
                counter: sessions::number_after(old(self)@.counter),
                ..old(self)@
            }),
    {
        self.sessions.register("f", host_id)
    }

    /// Drops a session. What is watched for it is watched no longer.
    pub fn remove(&mut self, id: &str)
        ensures
            final(self)@ == (SftpView {
                sessions: old(self)@.sessions.remove(id@),
                watches: ended_watches(old(self)@.watches, id@),
                ..old(self)@
            }),
    {
        self.sessions.remove(id);
        let ghost was = watch_views(self.watches@);
        let ghost start = *self;
        let mut i: usize = 0;
        while i < self.watches.len()
            invariant
                i <= self.watches@.len() == was.len(),
                self.sessions == start.sessions,
                self.tickets == start.tickets,
                self.next_ticket == start.next_ticket,
                self.next_upload == start.next_upload,
                forall|j: int|
                    0 <= j < i ==> (#[trigger] self.watches@[j])@ == ended_watches(was, id@)[j],
                forall|j: int| i <= j < was.len() ==> (#[trigger] self.watches@[j])@ == was[j],
            decreases was.len() - i,
        {
            let ghost before = self.watches@;
            if text::same(self.watches[i].session.as_str(), id) {
                self.watches[i].cancelled = true;
            }
            assert(forall|j: int|
                0 <= j < was.len() && j != i ==> #[trigger] self.watches@[j] == before[j]);
            i += 1;
        }
        assert(watch_views(self.watches@) =~= ended_watches(was, id@));
    }

    /// Sends a message to a session.
    pub fn send(&mut self, id: &str, msg: SftpMsg) -> (r: Result<(), String>)
        ensures
            text::result_text(r) == match send_error(
                sessions::outcome(old(self)@.sessions, id@),
            ) {
                Some(e) => Err(e),
                None => Ok(()),
            },
            final(self)@ == (SftpView {
                sessions: sessions::posted(old(self)@.sessions, id@, msg),
                ..old(self)@
            }),
    {
        let p = self.sessions.post(id, msg);
        send_failure(p)
    }

    fn ask(&mut self, id: &str, msg: SftpMsg) -> (r: Result<u64, String>)
        ensures
            ticket_text(r) == ask_result(old(self)@, id@),
            asked(old(self)@, final(self)@, id@, msg@),
    {
        let ghost was = self@;
        match self.send(id, msg) {
            Ok(_) => {
                let t: u64 = self.next_ticket;
                let ghost tickets = self.ticket_map();
                let ticket = Ticket { session: id.to_owned(), reply: None };
                let ghost tv = ticket@;
                self.tickets.insert(t, ticket);
                self.next_ticket = if t == u64::MAX {
                    0
                } else {
                    t + 1
                };
                proof {
                    assert(self.ticket_map() =~= tickets.insert(t, tv));
                    let with_ticket = SftpView {
                        tickets: was.tickets.insert(
                            was.next_ticket,
                            TicketView { session: id@, reply: None },
                        ),
                        next_ticket: sessions::number_after(was.next_ticket),
                        ..was
                    };
                    assert(self@ == (SftpView {
                        sessions: sessions::posted(with_ticket.sessions, id@, msg),
                        ..with_ticket
                    }));
                    assert(sent(with_ticket, self@, id@, msg@));
                }
                Ok(t)
            },
            Err(e) => Err(e),
        }
    }

    /// Asks a session to list a directory.
    pub fn list(&mut self, id: &str, path: &str) -> (r: Result<u64, String>)
        ensures
            ticket_text(r) == ask_result(old(self)@, id@),
            asked(
                old(self)@,
                final(self)@,
                id@,
                MsgView::List { path: path@, ticket: old(self)@.next_ticket },
            ),
    {
        let ticket: u64 = self.next_ticket;
        self.ask(id, SftpMsg::List { path: path.to_owned(), ticket })
    }

    /// Asks a session to create a directory.
    pub fn mkdir(&mut self, id: &str, path: &str) -> (r: Result<u64, String>)
        ensures
            ticket_text(r) == ask_result(old(self)@, id@),
            asked(
                old(self)@,
                final(self)@,
                id@,
                MsgView::Mkdir { path: path@, ticket: old(self)@.next_ticket },
            ),
    {
        let ticket: u64 = self.next_ticket;
        self.ask(id, SftpMsg::Mkdir { path: path.to_owned(), ticket })
    }

    /// Asks a session to delete a path, with all that is in it.
    pub fn delete(&mut self, id: &str, path: &str) -> (r: Result<u64, String>)
        ensures
            ticket_text(r) == ask_result(old(self)@, id@),
            asked(
                old(self)@,
                final(self)@,
                id@,
                MsgView::Delete { path: path@, ticket: old(self)@.next_ticket },
            ),
    {
        let ticket: u64 = self.next_ticket;
        self.ask(id, SftpMsg::Delete { path: path.to_owned(), ticket })
    }

    /// Asks a session to rename a path.
    pub fn rename(&mut self, id: &str, old_path: &str, new_path: &str) -> (r: Result<u64, String>)
        ensures
            ticket_text(r) == ask_result(old(self)@, id@),
            asked(
                old(self)@,
                final(self)@,
                id@,
                MsgView::Rename {
                    old_path: old_path@,
                    new_path: new_path@,
                    ticket: old(self)@.next_ticket,
                },
            ),
    {
        let ticket: u64 = self.next_ticket;
        self.ask(
            id,
            SftpMsg::Rename {
                old_path: old_path.to_owned(),
                new_path: new_path.to_owned(),
                ticket,
            },
        )
    }

    /// Asks a session to change the permissions of a path.
    pub fn chmod(&mut self, id: &str, path: &str, mode: u32) -> (r: Result<u64, String>)
        ensures
            ticket_text(r) == ask_result(old(self)@, id@),
            asked(
                old(self)@,
                final(self)@,
                id@,
                MsgView::Chmod { path: path@, mode, ticket: old(self)@.next_ticket },
            ),
    {
        let ticket: u64 = self.next_ticket;
        self.ask(id, SftpMsg::Chmod { path: path.to_owned(), mode, ticket })
    }

    /// Asks a session to fetch a remote file to a local path, to be edited
    /// there.
    pub fn edit_open_at(&mut self, id: &str, remote: &str, local: &str) -> (r: Result<u64, String>)
        ensures
            ticket_text(r) == ask_result(old(self)@, id@),
            asked(
                old(self)@,
                final(self)@,
                id@,
                MsgView::EditOpen {
                    remote: remote@,
                    local: local@,
                    ticket: old(self)@.next_ticket,
                },
            ),
    {
        let ticket: u64 = self.next_ticket;
        self.ask(
            id,
            SftpMsg::EditOpen { remote: remote.to_owned(), local: local.to_owned(), ticket },
        )
    }

    /// Asks a session to fetch a remote file into the local cache, to be
    /// edited there. Gives the ticket and the local path.
    pub fn edit_open(&mut self, id: &str, remote: &str) -> (r: Result<(u64, String), String>)
        ensures
            match (r, ask_result(old(self)@, id@)) {
                (Ok(t), Ok(ticket)) => {
                    &&& t.0 == ticket
                    &&& exists|sys: paths::System, cache: Option<Seq<u8>>|
                        t.1@ == #[trigger] paths::edit_file_of(sys, cache, id@, remote@)
                    &&& asked(
                        old(self)@,
                        final(self)@,
                        id@,
                        MsgView::EditOpen { remote: remote@, local: t.1@, ticket },
                    )
                },
                (Err(x), Err(e)) => x@ == e && final(self)@ == old(self)@,
                _ => false,
            },
    {
        let local = paths::edit_file(id, remote);
        match self.edit_open_at(id, remote, local.as_str()) {
            Ok(t) => Ok((t, local)),
            Err(e) => Err(e),
        }
    }

    /// Asks a session to upload or download a tree.
    pub fn transfer(
        &mut self,
        id: &str,
        op: String,
        upload: bool,
        src: String,
        dst: String,
        resume: bool,
    ) -> (r: Result<(), String>)
        ensures
            text::result_text(r) == match send_error(
                sessions::outcome(old(self)@.sessions, id@),
            ) {
                Some(e) => Err(e),
                None => Ok(()),
            },
            sent(
                old(self)@,
                final(self)@,
                id@,
                MsgView::Transfer { id: op@, upload, src: src@, dst: dst@, resume },
            ),
    {
        let m = SftpMsg::Transfer { id: op, upload, src, dst, resume };
        let ghost mv = m@;
        let r = self.send(id, m);
        assert(sent(old(self)@, self@, id@, mv));
        r
    }

    /// Asks a session to take a watched file back, under the next number.
    pub fn upload_back(&mut self, id: &str, local: &str, remote: &str) -> (r: Result<(), String>)
        ensures
            text::result_text(r) == match send_error(
                sessions::outcome(old(self)@.sessions, id@),
            ) {
                Some(e) => Err(e),
                None => Ok(()),
            },
            sent(
                SftpView {
                    next_upload: sessions::number_after(old(self)@.next_upload),
                    ..old(self)@
                },
                final(self)@,
                id@,
                MsgView::Transfer {
                    id: sessions::session_id("w"@, old(self)@.next_upload),
                    upload: true,
                    src: local@,
                    dst: remote@,
                    resume: false,
                },
            ),
    {
        let n: u64 = self.next_upload;
        self.next_upload = if n == u64::MAX {
            0
        } else {
            n + 1
        };
        let mut op: String = "w".to_owned();
        op.append(text::decimal(n).as_str());
        self.transfer(id, op, true, local.to_owned(), remote.to_owned(), false)
    }

    /// Tells a session to end.
    pub fn close(&mut self, id: &str)
        ensures
            final(self)@ == (SftpView {
                sessions: sessions::posted(old(self)@.sessions, id@, SftpMsg::Disconnect),
                ..old(self)@
            }),
    {
        let _ = self.send(id, SftpMsg::Disconnect);
    }

    /// Tells every session of a host to end.
    pub fn disconnect_host(&mut self, host_id: &str)
        ensures
            final(self)@ == (SftpView {
                sessions: sessions::told(old(self)@.sessions, Some(host_id@)),
                ..old(self)@
            }),
    {
        self.sessions.tell(Some(host_id));
    }

    /// Tells all sessions to end.
    pub fn disconnect_all(&mut self)
        ensures
            final(self)@ == (SftpView {
                sessions: sessions::told(old(self)@.sessions, None),
                ..old(self)@
            }),
    {
        self.sessions.tell(None);
    }

    /// Takes the oldest message that waits for a session.
    pub fn take(&mut self, id: &str) -> (r: Taken<SftpMsg>)
        ensures
            match r {
                Taken::Command(c) => {
                    &&& old(self)@.sessions.dom().contains(id@)
                    &&& old(self)@.sessions[id@].queue.len() > 0
                    &&& c == old(self)@.sessions[id@].queue[0]
                    &&& final(self)@ == (SftpView {
                        sessions: old(self)@.sessions.insert(
                            id@,
                            SessionView {
                                queue: old(self)@.sessions[id@].queue.drop_first(),
                                ..old(self)@.sessions[id@]
                            },
                        ),
                        ..old(self)@
                    })
                },
                Taken::Empty => {
                    &&& sessions::is_listed(old(self)@.sessions, id@)
                    &&& old(self)@.sessions[id@].queue.len() == 0
                    &&& final(self)@ == old(self)@
                },
                Taken::Gone => {
                    &&& !sessions::is_listed(old(self)@.sessions, id@)
                    &&& old(self)@.sessions.dom().contains(id@) ==> old(
                        self,
                    )@.sessions[id@].queue.len() == 0
                    &&& final(self)@ == old(self)@
                },
            },
    {
        self.sessions.take(id)
    }

    /// Takes in what a session answered.
    pub fn answer(&mut self, ticket: u64, reply: SftpReply)
        ensures
            final(self)@ == (SftpView {
                tickets: answered(old(self)@.tickets, ticket, reply),
                ..old(self)@
            }),
    {
        let ghost before = self.ticket_map();
        match self.tickets.remove(&ticket) {
            Some(t) => {
                assert(before[ticket] == t@);
                let next = match t.reply {
                    Some(r) => Ticket { session: t.session, reply: Some(r) },
                    None => Ticket { session: t.session, reply: Some(reply) },
                };
                self.tickets.insert(ticket, next);
                assert(self.ticket_map() =~= answered(before, ticket, reply));
            },
            None => {
                assert(self.ticket_map() =~= before);
            },
        }
    }

    /// What became of a question. An answer is handed out once.
    pub fn poll(&mut self, ticket: u64) -> (r: Polled)
        ensures
            match r {
                Polled::Answered(reply) => {
                    &&& old(self)@.tickets.dom().contains(ticket)
                    &&& old(self)@.tickets[ticket].reply == Some(reply)
                    &&& final(self)@ == (SftpView {
                        tickets: old(self)@.tickets.remove(ticket),
                        ..old(self)@
                    })
                },
                Polled::Waiting => {
                    &&& old(self)@.tickets.dom().contains(ticket)
                    &&& old(self)@.tickets[ticket].reply is None
                    &&& sessions::outcome(
                        old(self)@.sessions,
                        old(self)@.tickets[ticket].session,
                    ) == Posted::Queued
                    &&& final(self)@ == old(self)@
                },
                Polled::Lost => {
                    &&& old(self)@.tickets.dom().contains(ticket) ==> {
                        &&& old(self)@.tickets[ticket].reply is None
                        &&& sessions::outcome(
                            old(self)@.sessions,
                            old(self)@.tickets[ticket].session,
                        ) != Posted::Queued
                    }
                    &&& final(self)@ == (SftpView {
                        tickets: old(self)@.tickets.remove(ticket),
                        ..old(self)@
                    })
                },
            },
    {
        let ghost before = self.ticket_map();
        match self.tickets.remove(&ticket) {
            Some(t) => {
                assert(before[ticket] == t@);
                assert(self.ticket_map() =~= before.remove(ticket));
                match t.reply {
                    Some(reply) => Polled::Answered(reply),
                    None => {
                        if self.sessions.is_open(t.session.as_str()) {
                            let again = Ticket { session: t.session, reply: None };
                            self.tickets.insert(ticket, again);
                            assert(self.ticket_map() =~= before);
                            Polled::Waiting
                        } else {
                            Polled::Lost
                        }
                    },
                }
            },
            None => {
                assert(self.ticket_map() =~= before.remove(ticket));
                Polled::Lost
            },
        }
    }

    /// Begins to watch a file for a session, and gives the number of the
    /// watch. For a session that is not there, there is none.
    pub fn watch(&mut self, id: &str) -> (r: Option<usize>)
        ensures
            match r {
                Some(n) => {
                    &&& sessions::is_listed(old(self)@.sessions, id@)
                    &&& n == old(self)@.watches.len()
                    &&& final(self)@ == (SftpView {
                        watches: old(self)@.watches.push(
                            WatchView { session: id@, cancelled: false },
                        ),
                        ..old(self)@
                    })
                },
                None => {
                    &&& !sessions::is_listed(old(self)@.sessions, id@)
                    &&& final(self)@ == old(self)@
                },
            },
    {
        if !self.sessions.is_known(id) {
            return None;
        }
        let n: usize = self.watches.len();
        let ghost before = watch_views(self.watches@);
        let w = Watch { session: id.to_owned(), cancelled: false };
        let ghost wv = w@;
        self.watches.push(w);
        assert(watch_views(self.watches@) =~= before.push(wv));
        Some(n)
    }

    /// Whether a watch is over because its session has ended.
    pub fn is_cancelled(&self, watch: Option<usize>) -> (r: bool)
        ensures
            r == match watch {
                Some(n) => n < self@.watches.len() && self@.watches[n as int].cancelled,
                None => false,
            },
    {
        match watch {
            Some(n) => n < self.watches.len() && self.watches[n].cancelled,
            None => false,
        }
    }
}

/// The listing that was asked for. A session that went away has none.
pub fn listing(reply: Option<SftpReply>) -> (r: Result<ListResult, String>)
    ensures
        match reply {
            Some(SftpReply::Listing(l)) => r == l,
            _ => r is Err && r->Err_0@ == "receiving on a closed channel"@,
        },
{
    match reply {
        Some(SftpReply::Listing(l)) => l,
        _ => Err("receiving on a closed channel".to_owned()),
    }
}

/// What came of what was asked for. A session that went away did nothing.
pub fn done(reply: Option<SftpReply>) -> (r: Result<(), String>)
    ensures
        match reply {
            Some(SftpReply::Done(d)) => r == d,
            _ => r is Err && r->Err_0@ == "receiving on a closed channel"@,
        },
{
    match reply {
        Some(SftpReply::Done(d)) => d,
        _ => Err("receiving on a closed channel".to_owned()),
    }
}

// ---------- the worker of a session ----------

/// What the worker of a file session does next.
#[derive(Debug, Clone, Copy, PartialEq, Eq, Structural)]
pub enum WorkerAction {
    /// Wait for a message.
    Wait,
    /// Send a keepalive.
    Keepalive,
    /// Do what the message asks.
    Serve,
    Stop,
}

/// What came of it.
#[derive(Debug, Clone, Copy, PartialEq, Eq, Structural)]
pub enum WorkerEvent {
    /// A message came that asks for something.
    Message,
    /// A message came that tells the session to end.
    Disconnect,
    /// No message has come for so many milliseconds.
    Empty(u64),
    /// No message can come any more.
    Gone,
    Done,
    WouldBlock,
    Failed,
}

/// What the worker does after an event.
pub open spec fn worker_after(a: WorkerAction, e: WorkerEvent) -> WorkerAction {
    match (a, e) {
        (WorkerAction::Wait, WorkerEvent::Message) => WorkerAction::Serve,
        (WorkerAction::Wait, WorkerEvent::Disconnect) => WorkerAction::Stop,
        (WorkerAction::Wait, WorkerEvent::Empty(ms)) => if ms >= waits::WORKER_MILLIS {
            WorkerAction::Keepalive
        } else {
            WorkerAction::Wait
        },
        (WorkerAction::Wait, WorkerEvent::Gone) => WorkerAction::Stop,
        (WorkerAction::Keepalive, WorkerEvent::Done) => WorkerAction::Wait,
        (WorkerAction::Keepalive, WorkerEvent::WouldBlock) => WorkerAction::Wait,
        (WorkerAction::Keepalive, WorkerEvent::Failed) => WorkerAction::Stop,
        (WorkerAction::Serve, WorkerEvent::Done) => WorkerAction::Wait,
        _ => a,
    }
}

/// What the worker does after an event: it stops where it is told to, where
/// nobody can talk to it any more, and where the connection is dead.
pub fn worker_step(a: WorkerAction, e: WorkerEvent) -> (r: WorkerAction)
    ensures
        r == worker_after(a, e),
{
    match (a, e) {
        (WorkerAction::Wait, WorkerEvent::Message) => WorkerAction::Serve,
        (WorkerAction::Wait, WorkerEvent::Disconnect) => WorkerAction::Stop,
        (WorkerAction::Wait, WorkerEvent::Empty(ms)) => if ms >= waits::WORKER_MILLIS {
            WorkerAction::Keepalive
        } else {
            WorkerAction::Wait
        },
        (WorkerAction::Wait, WorkerEvent::Gone) => WorkerAction::Stop,
        (WorkerAction::Keepalive, WorkerEvent::Done) => WorkerAction::Wait,
        (WorkerAction::Keepalive, WorkerEvent::WouldBlock) => WorkerAction::Wait,
        (WorkerAction::Keepalive, WorkerEvent::Failed) => WorkerAction::Stop,
        (WorkerAction::Serve, WorkerEvent::Done) => WorkerAction::Wait,
        _ => a,
    }
}

/// What a session says to a renaming before it is tried: it is refused where
/// there is something at the new path.
pub open spec fn rename_ruling(old_path: Seq<char>, target_exists: bool) -> Result<
    (),
    Seq<char>,
> {
    if target_exists {
        Err(files::file_error_text(files::FileStep::Rename, old_path, "target exists"@))
    } else {
        Ok(())
    }
}

/// Rules on a renaming before it is tried.
pub fn rename_step(old_path: &str, target_exists: bool) -> (r: Result<(), String>)
    ensures
        r is Err <==> target_exists,
        text::result_text(r) == rename_ruling(old_path@, target_exists),
{
    if target_exists {
        Err(files::file_error(files::FileStep::Rename, old_path, "target exists"))
    } else {
        Ok(())
    }
}

/// The home directory of a session, or where it is if that is not known.
pub fn home_or_here(home: Option<String>) -> (r: String)
    ensures
        r@ == match home {
            Some(h) => h@,
            None => "."@,
        },
{
    match home {
        Some(h) => h,
        None => ".".to_owned(),
    }
}

/// Says that the file subsystem of a session could not be started.
pub fn subsystem_error(error: &str) -> (r: String)
    ensures
        r@ == "sftp subsystem failed: "@ + error@,
{
    let mut out: String = "sftp subsystem failed: ".to_owned();
    out.append(error);
    out
}

/// The end of a transfer, as it is told to the user.
#[derive(Debug)]
pub struct TransferDone {
    pub id: String,
    pub ok: bool,
    pub error: Option<String>,
}

/// Tells of the end of a transfer.
pub fn transfer_done(id: String, result: Result<(), String>) -> (r: TransferDone)
    ensures
        r.id == id,
        r.ok == (result is Ok),
        r.error == match result {
            Ok(_) => None,
            Err(e) => Some(e),
        },
{
    match result {
        Ok(_) => TransferDone { id, ok: true, error: None },
        Err(e) => TransferDone { id, ok: false, error: Some(e) },
    }
}

/// The event that tells of the end of a session's transfers.
pub fn done_event(session: &str) -> (r: String)
    ensures
        r@ == "sftp-done-"@ + session@,
{
    let mut out: String = "sftp-done-".to_owned();
    out.append(session);
    out
}

/// The event that tells that a watched file was taken back.
pub fn synced_event(session: &str) -> (r: String)
    ensures
        r@ == "sftp-edit-synced-"@ + session@,
{
    let mut out: String = "sftp-edit-synced-".to_owned();
    out.append(session);
    out
}

// ---------- watching a file ----------

/// What to do next about a watched file.
#[derive(Debug, Clone, Copy, PartialEq, Eq, Structural)]
pub enum WatchAction {
    /// Say whether the session of the watch has ended.
    CheckCancelled,
    /// Wait a moment.
    Sleep,
    /// Say when the file was last changed; a file that is gone was never.
    Look,
    /// Take the file back to the remote side.
    Upload,
    /// Tell the user that it was taken back.
    Announce,
    Stop,
}

/// What came of it.
#[derive(Debug, Clone, Copy, PartialEq, Eq, Structural)]
pub enum WatchEvent {
    Cancelled(bool),
    Done,
    Changed(Option<u64>),
    /// Whether the session took the file.
    Sent(bool),
}

/// A watch over a file that is edited.
#[derive(Debug, Clone, Copy, PartialEq, Eq, Structural)]
pub struct EditWatch {
    pub action: WatchAction,
    /// When the file was last changed, as of when it was last taken back.
    pub last: Option<u64>,
}

/// What to do about a file that was last changed at `last` when it was last
/// taken back, and now at `now`: it goes back whenever the two differ, and a
/// file that is gone is watched no longer.
pub open spec fn looked(last: Option<u64>, now: Option<u64>) -> WatchAction {
    match (last, now) {
        (_, None) => WatchAction::Stop,
        (Some(a), Some(b)) => if b != a {
            WatchAction::Upload
        } else {
            WatchAction::CheckCancelled
        },
        (None, Some(_)) => WatchAction::CheckCancelled,
    }
}

/// A watch after one more event. An event that does not answer the action at
/// hand changes nothing.
pub open spec fn watch_after(w: EditWatch, e: WatchEvent) -> EditWatch {
    match (w.action, e) {
        (WatchAction::CheckCancelled, WatchEvent::Cancelled(yes)) => EditWatch {
            action: if yes {
                WatchAction::Stop
            } else {
                WatchAction::Sleep
            },
            ..w
        },
        (WatchAction::Sleep, WatchEvent::Done) => EditWatch { action: WatchAction::Look, ..w },
        (WatchAction::Look, WatchEvent::Changed(now)) => EditWatch {
            action: looked(w.last, now),
            last: if looked(w.last, now) == WatchAction::Upload {
                now
            } else {
                w.last
            },
        },
        (WatchAction::Upload, WatchEvent::Sent(yes)) => EditWatch {
            action: if yes {
                WatchAction::Announce
            } else {
                WatchAction::Stop
            },
            ..w
        },
        (WatchAction::Announce, WatchEvent::Done) => EditWatch {
            action: WatchAction::CheckCancelled,
            ..w
        },
        _ => w,
    }
}

/// Begins to watch a file that was last changed at the given time.
pub fn watch_edit(changed: Option<u64>) -> (r: EditWatch)
    ensures
        r == (EditWatch { action: WatchAction::CheckCancelled, last: changed }),
{
    EditWatch { action: WatchAction::CheckCancelled, last: changed }
}

impl EditWatch {
    /// What to do next.
    pub fn next(&self) -> (r: WatchAction)
        ensures
            r == self.action,
    {
        self.action
    }

    /// Takes in what came of the action at hand.
    pub fn step(&mut self, e: WatchEvent)
        ensures
            *final(self) == watch_after(*old(self), e),
    {
        match (self.action, e) {
            (WatchAction::CheckCancelled, WatchEvent::Cancelled(yes)) => {
                self.action = if yes {
                    WatchAction::Stop
                } else {
                    WatchAction::Sleep
                };
            },
            (WatchAction::Sleep, WatchEvent::Done) => self.action = WatchAction::Look,
            (WatchAction::Look, WatchEvent::Changed(now)) => match (self.last, now) {
                (_, None) => self.action = WatchAction::Stop,
                (Some(a), Some(b)) => if b != a {
                    self.last = now;
                    self.action = WatchAction::Upload;
                } else {
                    self.action = WatchAction::CheckCancelled;
                },
                (None, Some(_)) => self.action = WatchAction::CheckCancelled,
            },
            (WatchAction::Upload, WatchEvent::Sent(yes)) => {
                self.action = if yes {
                    WatchAction::Announce
                } else {
                    WatchAction::Stop
                };
            },
            (WatchAction::Announce, WatchEvent::Done) => self.action =
            WatchAction::CheckCancelled,
            _ => {},
        }
    }
}

// ---------- laws ----------

/// An answer finds its question: it is handed out to the one who holds the
/// ticket, and to nobody else.
pub proof fn law_an_answer_finds_its_question(
    m: Map<u64, TicketView>,
    ticket: u64,
    reply: SftpReply,
    other: u64,
)
    requires
        m.dom().contains(ticket),
        m[ticket].reply is None,
        other != ticket,
    ensures
        answered(m, ticket, reply)[ticket].reply == Some(reply),
        answered(m, ticket, reply).dom().contains(other) == m.dom().contains(other),
        m.dom().contains(other) ==> answered(m, ticket, reply)[other] == m[other],
{
}

/// The first answer to a question counts.
pub proof fn law_the_first_answer_counts(
    m: Map<u64, TicketView>,
    ticket: u64,
    first: SftpReply,
    second: SftpReply,
)
    ensures
        answered(answered(m, ticket, first), ticket, second) == answered(m, ticket, first),
{
}

/// Ending a session ends its watches and no others.
pub proof fn law_ending_a_session_ends_its_watches(v: Seq<WatchView>, id: Seq<char>, i: int)
    requires
        0 <= i < v.len(),
    ensures
        ended_watches(v, id).len() == v.len(),
        ended_watches(v, id)[i].session == v[i].session,
        v[i].session == id ==> ended_watches(v, id)[i].cancelled,
        v[i].session != id ==> ended_watches(v, id)[i] == v[i],
{
}

/// A watched file goes back whenever its time of change differs from that of
/// when it last went back, earlier or later; otherwise the watch goes on.
pub proof fn law_a_change_goes_back(w: EditWatch, a: u64, b: u64)
    requires
        w.action == WatchAction::Look,
        w.last == Some(a),
    ensures
        watch_after(w, WatchEvent::Changed(Some(b))) == if a != b {
            EditWatch { action: WatchAction::Upload, last: Some(b) }
        } else {
            EditWatch { action: WatchAction::CheckCancelled, last: Some(a) }
        },
{
}

/// A watched file is taken back once for each change: after it was taken back,
/// an unchanged file is left alone.
pub proof fn law_a_change_is_taken_back_once(w: EditWatch, now: Option<u64>)
    requires
        w.action == WatchAction::Look,
        watch_after(w, WatchEvent::Changed(now)).action == WatchAction::Upload,
    ensures
        watch_after(w, WatchEvent::Changed(now)).last == now,
        looked(now, now) == WatchAction::CheckCancelled,
{
}

/// A watch goes on after a file was taken back.
pub proof fn law_a_watch_goes_on(w: EditWatch)
    requires
        w.action == WatchAction::Upload,
    ensures
        watch_after(watch_after(w, WatchEvent::Sent(true)), WatchEvent::Done) == (EditWatch {
            action: WatchAction::CheckCancelled,
            ..w
        }),
{
}

/// A watch stops for a reason: its session has ended, the file is gone, or the
/// session no longer takes it.
pub proof fn law_a_watch_stops_for_a_reason(w: EditWatch, e: WatchEvent)
    requires
        w.action != WatchAction::Stop,
        watch_after(w, e).action == WatchAction::Stop,
    ensures
        ({
            ||| e == WatchEvent::Cancelled(true)
            ||| e == WatchEvent::Changed(None)
            ||| e == WatchEvent::Sent(false)
        }),
{
}

/// A worker serves the messages that come, one by one, and stops when it is
/// told to or when nobody is left to tell it.
pub proof fn law_a_worker_serves_until_it_is_told_to_stop(a: WorkerAction)
    ensures
        a == WorkerAction::Wait ==> worker_after(a, WorkerEvent::Message) == WorkerAction::Serve,
        a == WorkerAction::Serve ==> worker_after(a, WorkerEvent::Done) == WorkerAction::Wait,
        a == WorkerAction::Wait ==> worker_after(a, WorkerEvent::Disconnect)
            == WorkerAction::Stop,
        a == WorkerAction::Wait ==> worker_after(a, WorkerEvent::Gone) == WorkerAction::Stop,
{
}

/// A worker without work sends a keepalive once ten seconds have passed, not
/// before, and then waits on; only one that fails ends it.
pub proof fn law_an_idle_worker_keeps_its_connection(millis: u64)
    ensures
        millis >= 10000 ==> worker_after(WorkerAction::Wait, WorkerEvent::Empty(millis))
            == WorkerAction::Keepalive,
        millis < 10000 ==> worker_after(WorkerAction::Wait, WorkerEvent::Empty(millis))
            == WorkerAction::Wait,
        worker_after(WorkerAction::Keepalive, WorkerEvent::Done) == WorkerAction::Wait,
        worker_after(WorkerAction::Keepalive, WorkerEvent::WouldBlock) == WorkerAction::Wait,
        worker_after(WorkerAction::Keepalive, WorkerEvent::Failed) == WorkerAction::Stop,
{
}

/// Whether an event can come of what a worker does.
pub open spec fn comes_of(a: WorkerAction, e: WorkerEvent) -> bool {
    match e {
        WorkerEvent::Message => a == WorkerAction::Wait,
        WorkerEvent::Disconnect => a == WorkerAction::Wait,
        WorkerEvent::Empty(_) => a == WorkerAction::Wait,
        WorkerEvent::Gone => a == WorkerAction::Wait,
        WorkerEvent::Done => a == WorkerAction::Keepalive || a == WorkerAction::Serve,
        WorkerEvent::WouldBlock => a == WorkerAction::Keepalive,
        WorkerEvent::Failed => a == WorkerAction::Keepalive,
    }
}

/// An event that cannot come of what a worker does changes nothing; so one that
/// has stopped stays stopped.
pub proof fn law_other_events_change_nothing(a: WorkerAction, e: WorkerEvent)
    requires
        !comes_of(a, e),
    ensures
        worker_after(a, e) == a,
{
}

/// A file is renamed only where nothing has the new name.
pub proof fn law_renaming_replaces_nothing(old_path: Seq<char>)
    ensures
        rename_ruling(old_path, false) == Ok::<(), Seq<char>>(()),
        rename_ruling(old_path, true) == Err::<(), Seq<char>>(
            "cannot rename "@ + old_path + ": target exists"@,
        ),
{
    reveal_strlit(": ");
    reveal_strlit("target exists");
    reveal_strlit(": target exists");
    assert("cannot rename "@ + old_path + ": "@ + "target exists"@ =~= "cannot rename "@ + old_path
        + ": target exists"@);
}

/// Every turn of a watch asks first whether it is still wanted, then waits,
/// then looks at the file. A change is uploaded and announced, and the watch
/// goes on from there; a file that is gone, or an upload that could not be
/// handed on, ends it.
pub proof fn law_a_watch_takes_its_turns(w: EditWatch, now: Option<u64>)
    ensures
        w.action == WatchAction::CheckCancelled ==> watch_after(w, WatchEvent::Cancelled(true))
            == (EditWatch { action: WatchAction::Stop, ..w }) && watch_after(
            w,
            WatchEvent::Cancelled(false),
        ) == (EditWatch { action: WatchAction::Sleep, ..w }),
        w.action == WatchAction::Sleep ==> watch_after(w, WatchEvent::Done) == (EditWatch {
            action: WatchAction::Look,
            ..w
        }),
        w.action == WatchAction::Look && now is None ==> watch_after(w, WatchEvent::Changed(now))
            == (EditWatch { action: WatchAction::Stop, ..w }),
        w.action == WatchAction::Look && now is Some && w.last is Some && now != w.last
            ==> watch_after(w, WatchEvent::Changed(now)) == (EditWatch {
            action: WatchAction::Upload,
            last: now,
        }),
        w.action == WatchAction::Look && now is Some && (w.last is None || now == w.last)
            ==> watch_after(w, WatchEvent::Changed(now)) == (EditWatch {
            action: WatchAction::CheckCancelled,
            ..w
        }),
        w.action == WatchAction::Upload ==> watch_after(w, WatchEvent::Sent(true)) == (EditWatch {
            action: WatchAction::Announce,
            ..w
        }) && watch_after(w, WatchEvent::Sent(false)) == (EditWatch {
            action: WatchAction::Stop,
            ..w
        }),
        w.action == WatchAction::Announce ==> watch_after(w, WatchEvent::Done) == (EditWatch {
            action: WatchAction::CheckCancelled,
            ..w
        }),
{
}

/// Whether an event can come of what a watch does.
pub open spec fn watch_meets(a: WatchAction, e: WatchEvent) -> bool {
    match e {
        WatchEvent::Cancelled(_) => a == WatchAction::CheckCancelled,
        WatchEvent::Done => a == WatchAction::Sleep || a == WatchAction::Announce,
        WatchEvent::Changed(_) => a == WatchAction::Look,
        WatchEvent::Sent(_) => a == WatchAction::Upload,
    }
}

/// An event that cannot come of what a watch does changes nothing; so one that
/// has stopped stays stopped.
pub proof fn law_a_watch_heeds_its_own_events(w: EditWatch, e: WatchEvent)
    requires
        !watch_meets(w.action, e),
    ensures
        watch_after(w, e) == w,
{
}

/// A message that cannot be sent says why: the session is closed, or there is
/// none.
pub proof fn law_an_unsent_message_says_why(p: Posted)
    ensures
        p == Posted::Queued ==> send_error(p) is None,
        p == Posted::Closed ==> send_error(p) == Some("sending on a closed channel"@),
        p == Posted::Unknown ==> send_error(p) == Some("sftp session not found"@),
{
}

/// A question that is sent gets the next number, is remembered without an
/// answer, and goes behind what its session was told before; one that cannot
/// be sent changes nothing.
pub proof fn law_a_question_gets_its_number(
    before: SftpView,
    now: SftpView,
    id: Seq<char>,
    m: MsgView,
)
    requires
        asked(before, now, id, m),
    ensures
        ({
            let there = before.sessions.dom().contains(id) && before.sessions[id].listed;
            let sent = there && before.sessions[id].open;
            &&& sent ==> ask_result(before, id) == Ok::<u64, Seq<char>>(before.next_ticket)
            &&& sent ==> now.tickets.dom().contains(before.next_ticket) && now.tickets[before.next_ticket] == (TicketView { session: id, reply: None })
            &&& sent ==> now.next_ticket == sessions::number_after(before.next_ticket)
            &&& sent ==> now.sessions[id].queue.len() == before.sessions[id].queue.len() + 1
            &&& sent ==> now.sessions[id].queue.drop_last() == before.sessions[id].queue
            &&& sent ==> now.sessions[id].queue.last()@ == m
            &&& !sent ==> now == before
            &&& there && !sent ==> ask_result(before, id) == Err::<u64, Seq<char>>(
                "sending on a closed channel"@,
            )
            &&& !there ==> ask_result(before, id) == Err::<u64, Seq<char>>(
                "sftp session not found"@,
            )
        }),
{
    if sessions::outcome(before.sessions, id) == Posted::Queued {
        let mid = SftpView {
            tickets: before.tickets.insert(
                before.next_ticket,
                TicketView { session: id, reply: None },
            ),
            next_ticket: sessions::number_after(before.next_ticket),
            ..before
        };
        assert(sent(mid, now, id, m));
        let c = choose|c: SftpMsg|
            c@ == m && now == (SftpView {
                sessions: #[trigger] sessions::posted(mid.sessions, id, c),
                ..mid
            });
        assert(now.sessions[id].queue == before.sessions[id].queue.push(c));
        assert(now.sessions[id].queue.drop_last() =~= before.sessions[id].queue);
    }
}

/// An answer is kept for its question alone, and an answer to no question is
/// not kept.
pub proof fn law_an_answer_is_kept_for_its_question(
    m: Map<u64, TicketView>,
    ticket: u64,
    other: u64,
    reply: SftpReply,
)
    requires
        other != ticket,
    ensures
        !m.dom().contains(ticket) ==> answered(m, ticket, reply) == m,
        answered(m, ticket, reply).dom() == m.dom(),
        m.dom().contains(other) ==> answered(m, ticket, reply)[other] == m[other],
        m.dom().contains(ticket) ==> answered(m, ticket, reply)[ticket].session
            == m[ticket].session,
{
    assert(answered(m, ticket, reply).dom() =~= m.dom());
}

/// A message stands for what it asks for.
pub proof fn law_a_message_stands_for_what_it_asks_for(m: SftpMsg, c: ConnParams)
    ensures
        match m {
            SftpMsg::List { path, ticket } => m@ == (MsgView::List { path: path@, ticket }),
            SftpMsg::Mkdir { path, ticket } => m@ == (MsgView::Mkdir { path: path@, ticket }),
            SftpMsg::Delete { path, ticket } => m@ == (MsgView::Delete { path: path@, ticket }),
            SftpMsg::Rename { old_path, new_path, ticket } => m@ == (MsgView::Rename {
                old_path: old_path@,
                new_path: new_path@,
                ticket,
            }),
            SftpMsg::Chmod { path, mode, ticket } => m@ == (MsgView::Chmod {
                path: path@,
                mode,
                ticket,
            }),
            SftpMsg::EditOpen { remote, local, ticket } => m@ == (MsgView::EditOpen {
                remote: remote@,
                local: local@,
                ticket,
            }),
            SftpMsg::Transfer { id, upload, src, dst, resume } => m@ == (MsgView::Transfer {
                id: id@,
                upload,
                src: src@,
                dst: dst@,
                resume,
            }),
            SftpMsg::Disconnect => m@ == MsgView::Disconnect,
        },
        c@.host == c.host@,
        c@.secret == text::opt_text(c.secret),
        c@.jump is Some <==> c.jump is Some,
        c.jump is Some ==> c@.jump->Some_0.0 == c.jump->Some_0.0@ && c@.jump->Some_0.1
            == text::opt_text(c.jump->Some_0.1),
        c@.known_hosts == c.known_hosts@,
{
}

} // verus!
