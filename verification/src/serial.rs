//! Serial consoles: the ports to choose from, the line settings, and the open
//! ports.

use vstd::prelude::*;
use crate::sessions;
use crate::sessions::{Command, Posted, SessionTable, SessionView, Taken};
use crate::ssh;
use crate::text;

verus! {

/// A serial port, as it is shown to be chosen.
#[derive(Debug)]
pub struct PortInfo {
    pub name: String,
    /// What is connected to it, as far as the system knows.
    pub description: String,
}

/// What the system knows of a serial port.
#[derive(Debug)]
pub enum PortKind {
    Usb { product: Option<String>, manufacturer: Option<String>, vid: u16, pid: u16 },
    Pci,
    Bluetooth,
    Unknown,
}

/// A serial port that was found.
#[derive(Debug)]
pub struct FoundPort {
    pub name: String,
    pub kind: PortKind,
}

/// What is connected to a port, in words.
pub open spec fn port_text(kind: PortKind) -> Seq<char> {
    match kind {
        PortKind::Usb { product, manufacturer, vid, pid } => match (product, manufacturer) {
            (Some(p), _) => p@,
            (None, Some(m)) => m@,
            (None, None) => "USB "@ + text::hex4(vid as nat) + ":"@ + text::hex4(pid as nat),
        },
        PortKind::Pci => "PCI"@,
        PortKind::Bluetooth => "Bluetooth"@,
        PortKind::Unknown => Seq::empty(),
    }
}

/// Says what is connected to a port.
pub fn describe(kind: &PortKind) -> (r: String)
    ensures
        r@ == port_text(*kind),
{
    match kind {
        PortKind::Usb { product, manufacturer, vid, pid } => match (product, manufacturer) {
            (Some(p), _) => p.clone(),
            (None, Some(m)) => m.clone(),
            (None, None) => {
                let mut out: String = "USB ".to_owned();
                out.append(text::hexadecimal4(*vid).as_str());
                out.append(":");
                out.append(text::hexadecimal4(*pid).as_str());
                out
            },
        },
        PortKind::Pci => "PCI".to_owned(),
        PortKind::Bluetooth => "Bluetooth".to_owned(),
        PortKind::Unknown => {
            let out = String::new();
            assert(out@ =~= Seq::<char>::empty());
            out
        },
    }
}

/// The ports to choose from, given what was found. Where the system could not
/// even look there are none.
pub fn list_ports(found: Option<Vec<FoundPort>>) -> (r: Vec<PortInfo>)
    ensures
        match found {
            Some(f) => {
                &&& r@.len() == f@.len()
                &&& forall|i: int|
                    0 <= i < f@.len() ==> (#[trigger] r@[i]).name@ == f@[i].name@
                        && r@[i].description@ == port_text(f@[i].kind)
            },
            None => r@.len() == 0,
        },
{
    let mut out: Vec<PortInfo> = Vec::new();
    let found: Vec<FoundPort> = match found {
        Some(f) => f,
        None => return out,
    };
    let mut i: usize = 0;
    while i < found.len()
        invariant
            i <= found@.len(),
            out@.len() == i,
            forall|j: int|
                0 <= j < i ==> (#[trigger] out@[j]).name@ == found@[j].name@
                    && out@[j].description@ == port_text(found@[j].kind),
        decreases found@.len() - i,
    {
        out.push(PortInfo { name: found[i].name.clone(), description: describe(&found[i].kind) });
        i += 1;
    }
    out
}

/// The line settings of a port, as they are typed in.
#[derive(Debug)]
pub struct SerialCfg {
    pub baud: u32,
    pub data_bits: u8,
    pub stop_bits: u8,
    /// `none`, `odd` or `even`.
    pub parity: String,
    /// `none`, `hardware` or `software`.
    pub flow: String,
}

#[derive(Debug, Clone, Copy, PartialEq, Eq, Structural)]
pub enum DataBits {
    Five,
    Six,
    Seven,
    Eight,
}

#[derive(Debug, Clone, Copy, PartialEq, Eq, Structural)]
pub enum StopBits {
    One,
    Two,
}

#[derive(Debug, Clone, Copy, PartialEq, Eq, Structural)]
pub enum Parity {
    Plain,
    Odd,
    Even,
}

#[derive(Debug, Clone, Copy, PartialEq, Eq, Structural)]
pub enum FlowControl {
    Free,
    Software,
    Hardware,
}

/// The line settings of a port.
#[derive(Debug, Clone, Copy, PartialEq, Eq, Structural)]
pub struct LineSettings {
    pub baud: u32,
    pub data_bits: DataBits,
    pub stop_bits: StopBits,
    pub parity: Parity,
    pub flow: FlowControl,
}

/// The settings that are meant. What is not known counts as the usual: eight
/// data bits, one stop bit, no parity and no flow control.
pub open spec fn settings_of(
    baud: u32,
    data_bits: u8,
    stop_bits: u8,
    parity: Seq<char>,
    flow: Seq<char>,
) -> LineSettings {
    LineSettings {
        baud,
        data_bits: if data_bits == 5 {
            DataBits::Five
        } else if data_bits == 6 {
            DataBits::Six
        } else if data_bits == 7 {
            DataBits::Seven
        } else {
            DataBits::Eight
        },
        stop_bits: if stop_bits == 2 {
            StopBits::Two
        } else {
            StopBits::One
        },
        parity: if parity == "odd"@ {
            Parity::Odd
        } else if parity == "even"@ {
            Parity::Even
        } else {
            Parity::Plain
        },
        flow: if flow == "hardware"@ {
            FlowControl::Hardware
        } else if flow == "software"@ {
            FlowControl::Software
        } else {
            FlowControl::Free
        },
    }
}

/// Reads the line settings that were typed in.
pub fn settings(cfg: &SerialCfg) -> (r: LineSettings)
    ensures
        r == settings_of(cfg.baud, cfg.data_bits, cfg.stop_bits, cfg.parity@, cfg.flow@),
{
    let data_bits = if cfg.data_bits == 5 {
        DataBits::Five
    } else if cfg.data_bits == 6 {
        DataBits::Six
    } else if cfg.data_bits == 7 {
        DataBits::Seven
    } else {
        DataBits::Eight
    };
    let stop_bits = if cfg.stop_bits == 2 {
        StopBits::Two
    } else {
        StopBits::One
    };
    let parity = if text::same(cfg.parity.as_str(), "odd") {
        Parity::Odd
    } else if text::same(cfg.parity.as_str(), "even") {
        Parity::Even
    } else {
        Parity::Plain
    };
    let flow = if text::same(cfg.flow.as_str(), "hardware") {
        FlowControl::Hardware
    } else if text::same(cfg.flow.as_str(), "software") {
        FlowControl::Software
    } else {
        FlowControl::Free
    };
    LineSettings { baud: cfg.baud, data_bits, stop_bits, parity, flow }
}

/// Says that a port could not be opened.
pub fn open_error(port: &str, error: &str) -> (r: String)
    ensures
        r@ == "cannot open "@ + port@ + ": "@ + error@,
{
    let mut out: String = "cannot open ".to_owned();
    out.append(port);
    out.append(": ");
    out.append(error);
    out
}

// ---------- the manager ----------

/// What an open port can be told.
#[derive(Debug)]
pub enum SerialCommand {
    Data(Vec<u8>),
    /// The break condition, the classic attention signal of a console.
    Break,
    Close,
}

impl Command for SerialCommand {
    open spec fn last_word() -> SerialCommand {
        SerialCommand::Close
    }

    fn farewell() -> (r: SerialCommand) {
        SerialCommand::Close
    }
}

/// The open ports.
pub struct SerialManager {
    sessions: SessionTable<SerialCommand>,
}

/// What is known of open ports, by their ids.
pub type SerialSessions = Map<Seq<char>, SessionView<SerialCommand>>;

impl SerialManager {
    /// The ports, by their ids.
    pub closed spec fn view(&self) -> SerialSessions {
        self.sessions@
    }

    /// The number of the next port.
    pub closed spec fn counter(&self) -> u64 {
        self.sessions.counter()
    }

    /// No ports.
    pub fn new() -> (r: Self)
        ensures
            r@ == Map::<Seq<char>, SessionView<SerialCommand>>::empty(),
            r.counter() == 1,
    {
        SerialManager { sessions: SessionTable::new() }
    }

    /// Lists a port that was opened under a new id.
    pub fn connect(&mut self) -> (r: String)
        ensures
            r@ == sessions::session_id("serial-"@, old(self).counter()),
            final(self)@ == old(self)@.insert(
                r@,
                SessionView {
                    host_id: Seq::empty(),
                    queue: Seq::empty(),
                    listed: true,
                    open: true,
                },
            ),
            final(self).counter() == sessions::number_after(old(self).counter()),
    {
        proof {
            reveal_strlit("");
            assert(""@ =~= Seq::<char>::empty());
        }
        self.sessions.register("serial-", "")
    }

    /// Sends a command to a port. A port that is not there takes it in
    /// silence.
    pub fn send(&mut self, id: &str, cmd: SerialCommand) -> (r: Result<(), String>)
        ensures
            text::result_text(r) == ssh::send_result(sessions::outcome(old(self)@, id@)),
            final(self)@ == sessions::posted(old(self)@, id@, cmd),
            final(self).counter() == old(self).counter(),
    {
        match self.sessions.post(id, cmd) {
            Posted::Closed => Err("sending on a closed channel".to_owned()),
            _ => Ok(()),
        }
    }

    /// Writes to a port.
    pub fn write(&mut self, id: &str, data: Vec<u8>) -> (r: Result<(), String>)
        ensures
            text::result_text(r) == ssh::send_result(sessions::outcome(old(self)@, id@)),
            final(self)@ == sessions::posted(old(self)@, id@, SerialCommand::Data(data)),
            final(self).counter() == old(self).counter(),
    {
        self.send(id, SerialCommand::Data(data))
    }

    /// Sends a break.
    pub fn send_break(&mut self, id: &str) -> (r: Result<(), String>)
        ensures
            text::result_text(r) == ssh::send_result(sessions::outcome(old(self)@, id@)),
            final(self)@ == sessions::posted(old(self)@, id@, SerialCommand::Break),
            final(self).counter() == old(self).counter(),
    {
        self.send(id, SerialCommand::Break)
    }

    /// Closes a port: it is listed no more, and its worker is told to end.
    pub fn close(&mut self, id: &str)
        ensures
            final(self)@ == if old(self)@.dom().contains(id@) {
                old(self)@.insert(id@, sessions::closing(old(self)@[id@]))
            } else {
                old(self)@
            },
            final(self).counter() == old(self).counter(),
    {
        self.sessions.close(id);
    }

    /// Closes all ports.
    pub fn disconnect_all(&mut self)
        ensures
            final(self)@ == Map::new(
                |id: Seq<char>| old(self)@.dom().contains(id),
                |id: Seq<char>| sessions::closing(old(self)@[id]),
            ),
            final(self).counter() == old(self).counter(),
    {
        self.sessions.close_all();
    }

    /// Takes the oldest command that waits for a port.
    pub fn take(&mut self, id: &str) -> (r: Taken<SerialCommand>)
        ensures
            final(self).counter() == old(self).counter(),
            match r {
                Taken::Command(c) => {
                    &&& old(self)@.dom().contains(id@)
                    &&& old(self)@[id@].queue.len() > 0
                    &&& c == old(self)@[id@].queue[0]
                    &&& final(self)@ == old(self)@.insert(
                        id@,
                        SessionView {
                            queue: old(self)@[id@].queue.drop_first(),
                            ..old(self)@[id@]
                        },
                    )
                },
                Taken::Empty => {
                    &&& sessions::is_listed(old(self)@, id@)
                    &&& old(self)@[id@].queue.len() == 0
                    &&& final(self)@ == old(self)@
                },
                Taken::Gone => {
                    &&& !sessions::is_listed(old(self)@, id@)
                    &&& old(self)@.dom().contains(id@) ==> old(self)@[id@].queue.len() == 0
                    &&& final(self)@ == old(self)@
                },
            },
    {
        self.sessions.take(id)
    }

    /// Notes that the worker of a port has ended. A port that nobody closed
    /// stays listed, and commands to it are refused from now on.
    pub fn finish(&mut self, id: &str)
        ensures
            final(self).counter() == old(self).counter(),
            final(self)@ == if sessions::is_listed(old(self)@, id@) {
                old(self)@.insert(id@, SessionView { open: false, ..old(self)@[id@] })
            } else {
                old(self)@.remove(id@)
            },
    {
        if self.sessions.is_known(id) {
            self.sessions.hang_up(id);
        } else {
            self.sessions.remove(id);
        }
    }
}

/// The event that carries what a port received.
pub fn data_event(id: &str) -> (r: String)
    ensures
        r@ == "serial-data-"@ + id@,
{
    let mut out: String = "serial-data-".to_owned();
    out.append(id);
    out
}

/// The event that tells why a port was left.
pub fn exit_event(id: &str) -> (r: String)
    ensures
        r@ == "serial-exit-"@ + id@,
{
    let mut out: String = "serial-exit-".to_owned();
    out.append(id);
    out
}

// ---------- the worker of a port ----------

/// What to do next.
#[derive(Debug, Clone, Copy, PartialEq, Eq, Structural)]
pub enum SerialAction {
    /// Take the next command.
    TakeCommand,
    /// Write what `bytes` holds, all of it.
    Write,
    /// Hold a break for a moment.
    Break,
    /// Read what is there.
    Read,
    /// Pass on what `bytes` holds.
    Deliver,
    Finish,
}

/// What came of an action.
pub enum SerialEvent {
    Taken(Taken<SerialCommand>),
    Done,
    /// What was read; empty where nothing was.
    Read(Vec<u8>),
    /// Nothing came in time.
    TimedOut,
    Failed(String),
}

/// What a `SerialEvent` holds.
pub enum SerialEventView {
    Data(Seq<u8>),
    Break,
    Close,
    Empty,
    Gone,
    Done,
    Read(Seq<u8>),
    TimedOut,
    Failed(Seq<char>),
}

impl View for SerialEvent {
    type V = SerialEventView;

    open spec fn view(&self) -> SerialEventView {
        match *self {
            SerialEvent::Taken(t) => match t {
                Taken::Command(c) => match c {
                    SerialCommand::Data(d) => SerialEventView::Data(d@),
                    SerialCommand::Break => SerialEventView::Break,
                    SerialCommand::Close => SerialEventView::Close,
                },
                Taken::Empty => SerialEventView::Empty,
                Taken::Gone => SerialEventView::Gone,
            },
            SerialEvent::Done => SerialEventView::Done,
            SerialEvent::Read(d) => SerialEventView::Read(d@),
            SerialEvent::TimedOut => SerialEventView::TimedOut,
            SerialEvent::Failed(e) => SerialEventView::Failed(e@),
        }
    }
}

/// The worker of a port.
pub struct SerialWorker {
    action: SerialAction,
    bytes: Vec<u8>,
    reason: String,
}

/// What a `SerialWorker` holds.
pub struct WorkerView {
    pub action: SerialAction,
    /// Bytes on their way to the port or from it.
    pub bytes: Seq<u8>,
    /// Why the port was left; empty before that.
    pub reason: Seq<char>,
}

/// A worker at its start.
pub open spec fn fresh_worker() -> WorkerView {
    WorkerView { action: SerialAction::TakeCommand, bytes: Seq::empty(), reason: Seq::empty() }
}

/// A worker that leaves its port.
pub open spec fn leaving(w: WorkerView, reason: Seq<char>) -> WorkerView {
    WorkerView { action: SerialAction::Finish, reason, ..w }
}

/// A worker after one more event. An event that does not answer the action at
/// hand changes nothing.
pub open spec fn after(w: WorkerView, e: SerialEventView) -> WorkerView {
    let again = WorkerView { action: SerialAction::TakeCommand, bytes: Seq::empty(), ..w };
    match (w.action, e) {
        (SerialAction::TakeCommand, SerialEventView::Data(d)) => WorkerView {
            action: SerialAction::Write,
            bytes: d,
            ..w
        },
        (SerialAction::TakeCommand, SerialEventView::Break) => WorkerView {
            action: SerialAction::Break,
            ..w
        },
        (SerialAction::TakeCommand, SerialEventView::Close) => leaving(w, "closed"@),
        (SerialAction::TakeCommand, SerialEventView::Gone) => leaving(w, "closed"@),
        (SerialAction::TakeCommand, SerialEventView::Empty) => WorkerView {
            action: SerialAction::Read,
            ..w
        },
        (SerialAction::Write, SerialEventView::Done) => again,
        (SerialAction::Write, SerialEventView::Failed(_)) => leaving(w, "write failed"@),
        (SerialAction::Break, SerialEventView::Done) => again,
        (SerialAction::Read, SerialEventView::Read(d)) => if d.len() > 0 {
            WorkerView { action: SerialAction::Deliver, bytes: d, ..w }
        } else {
            again
        },
        (SerialAction::Read, SerialEventView::TimedOut) => again,
        (SerialAction::Read, SerialEventView::Failed(x)) => leaving(w, "read error: "@ + x),
        (SerialAction::Deliver, SerialEventView::Done) => again,
        _ => w,
    }
}

impl SerialWorker {
    /// What the worker holds.
    pub closed spec fn view(&self) -> WorkerView {
        WorkerView { action: self.action, bytes: self.bytes@, reason: self.reason@ }
    }

    /// A worker at its start.
    pub fn new() -> (r: Self)
        ensures
            r@ == fresh_worker(),
    {
        let r = SerialWorker {
            action: SerialAction::TakeCommand,
            bytes: Vec::new(),
            reason: String::new(),
        };
        assert(r.bytes@ =~= Seq::<u8>::empty() && r.reason@ =~= Seq::<char>::empty());
        r
    }

    /// What to do next.
    pub fn next(&self) -> (r: SerialAction)
        ensures
            r == self@.action,
    {
        self.action
    }

    /// Bytes on their way to the port or from it.
    pub fn bytes(&self) -> (r: &[u8])
        ensures
            r@ == self@.bytes,
    {
        self.bytes.as_slice()
    }

    /// Why the port was left.
    pub fn reason(&self) -> (r: &str)
        ensures
            r@ == self@.reason,
    {
        self.reason.as_str()
    }

    fn again(&mut self)
        ensures
            final(self)@ == (WorkerView {
                action: SerialAction::TakeCommand,
                bytes: Seq::empty(),
                ..old(self)@
            }),
    {
        self.bytes.clear();
        self.action = SerialAction::TakeCommand;
    }

    fn leave(&mut self, reason: &str)
        ensures
            final(self)@ == leaving(old(self)@, reason@),
    {
        self.reason = reason.to_owned();
        self.action = SerialAction::Finish;
    }

    fn take(&mut self, t: Taken<SerialCommand>)
        requires
            old(self)@.action == SerialAction::TakeCommand,
        ensures
            final(self)@ == after(old(self)@, SerialEvent::Taken(t)@),
    {
        match t {
            Taken::Command(c) => match c {
                SerialCommand::Data(d) => {
                    self.bytes = d;
                    self.action = SerialAction::Write;
                },
                SerialCommand::Break => self.action = SerialAction::Break,
                SerialCommand::Close => self.leave("closed"),
            },
            Taken::Empty => self.action = SerialAction::Read,
            Taken::Gone => self.leave("closed"),
        }
    }

    /// Takes in what came of the action at hand.
    pub fn step(&mut self, e: SerialEvent)
        ensures
            final(self)@ == after(old(self)@, e@),
    {
        match (self.action, e) {
            (SerialAction::TakeCommand, SerialEvent::Taken(t)) => self.take(t),
            (SerialAction::Write, SerialEvent::Done) => self.again(),
            (SerialAction::Write, SerialEvent::Failed(_)) => self.leave("write failed"),
            (SerialAction::Break, SerialEvent::Done) => self.again(),
            (SerialAction::Read, SerialEvent::Read(d)) => if d.len() > 0 {
                self.bytes = d;
                self.action = SerialAction::Deliver;
            } else {
                self.again();
            },
            (SerialAction::Read, SerialEvent::TimedOut) => self.again(),
            (SerialAction::Read, SerialEvent::Failed(x)) => {
                let mut out: String = "read error: ".to_owned();
                out.append(x.as_str());
                self.leave(out.as_str());
            },
            (SerialAction::Deliver, SerialEvent::Done) => self.again(),
            _ => {},
        }
    }
}

// ---------- laws ----------

/// A port that was closed takes no more commands, and its worker is told.
pub proof fn law_a_closed_port_takes_nothing(m: SerialSessions, id: Seq<char>)
    requires
        sessions::is_listed(m, id),
        m[id].open,
    ensures
        sessions::closing(m[id]).queue == m[id].queue.push(SerialCommand::Close),
        sessions::outcome(m.insert(id, sessions::closing(m[id])), id) == Posted::Unknown,
{
}

/// Commands go first: a port is read only when no command waits.
pub proof fn law_commands_go_first(w: WorkerView, e: SerialEventView)
    requires
        w.action != SerialAction::Read,
        after(w, e).action == SerialAction::Read,
    ensures
        w.action == SerialAction::TakeCommand,
        e == SerialEventView::Empty,
{
}

/// A worker that has left its port stays away.
pub proof fn law_left_is_left(w: WorkerView, e: SerialEventView)
    requires
        w.action == SerialAction::Finish,
    ensures
        after(w, e) == w,
{
}

/// Unknown settings count as the usual ones: eight data bits, no parity, one
/// stop bit, no flow control.
pub proof fn law_unknown_settings_are_the_usual(
    baud: u32,
    data_bits: u8,
    stop_bits: u8,
    parity: Seq<char>,
    flow: Seq<char>,
)
    requires
        !(5 <= data_bits <= 7),
        stop_bits != 2,
        parity != "odd"@,
        parity != "even"@,
        flow != "hardware"@,
        flow != "software"@,
    ensures
        settings_of(baud, data_bits, stop_bits, parity, flow) == (LineSettings {
            baud,
            data_bits: DataBits::Eight,
            stop_bits: StopBits::One,
            parity: Parity::Plain,
            flow: FlowControl::Free,
        }),
{
}

/// Each setting of a line is what the configuration says.
pub proof fn law_settings_are_what_was_asked_for(
    baud: u32,
    data_bits: u8,
    stop_bits: u8,
    parity: Seq<char>,
    flow: Seq<char>,
)
    ensures
        ({
            let s = settings_of(baud, data_bits, stop_bits, parity, flow);
            &&& s.baud == baud
            &&& s.data_bits == DataBits::Five <==> data_bits == 5
            &&& s.data_bits == DataBits::Six <==> data_bits == 6
            &&& s.data_bits == DataBits::Seven <==> data_bits == 7
            &&& s.stop_bits == StopBits::Two <==> stop_bits == 2
            &&& s.parity == Parity::Odd <==> parity == "odd"@
            &&& s.parity == Parity::Even <==> parity == "even"@
            &&& s.flow == FlowControl::Hardware <==> flow == "hardware"@
            &&& s.flow == FlowControl::Software <==> flow == "software"@
        }),
{
    reveal_strlit("odd");
    reveal_strlit("even");
    reveal_strlit("hardware");
    reveal_strlit("software");
    assert("odd"@.len() != "even"@.len());
    assert("hardware"@[0] == 'h' && "software"@[0] == 's');
}

/// A USB port is described by its product, else by its manufacturer, else by
/// its numbers, in four hexadecimal digits each; other ports by their kind.
pub proof fn law_a_port_is_described_by_what_is_known(
    product: Option<String>,
    manufacturer: Option<String>,
    vid: u16,
    pid: u16,
)
    ensures
        ({
            let d = port_text(PortKind::Usb { product, manufacturer, vid, pid });
            &&& product is Some ==> d == product->Some_0@
            &&& product is None && manufacturer is Some ==> d == manufacturer->Some_0@
            &&& product is None && manufacturer is None ==> d == "USB "@ + text::hex4(vid as nat)
                + ":"@ + text::hex4(pid as nat)
        }),
        port_text(PortKind::Pci) == "PCI"@,
        port_text(PortKind::Bluetooth) == "Bluetooth"@,
        port_text(PortKind::Unknown).len() == 0,
{
}

/// Each command is carried out: bytes are written as they are, a break is sent,
/// and closing ends the work, as it does when the session is gone. Without a
/// command the port is read.
pub proof fn law_each_command_is_carried_out(w: WorkerView, d: Seq<u8>)
    requires
        w.action == SerialAction::TakeCommand,
    ensures
        after(w, SerialEventView::Data(d)) == (WorkerView {
            action: SerialAction::Write,
            bytes: d,
            ..w
        }),
        after(w, SerialEventView::Break) == (WorkerView { action: SerialAction::Break, ..w }),
        after(w, SerialEventView::Close) == (WorkerView {
            action: SerialAction::Finish,
            reason: "closed"@,
            ..w
        }),
        after(w, SerialEventView::Gone) == (WorkerView {
            action: SerialAction::Finish,
            reason: "closed"@,
            ..w
        }),
        after(w, SerialEventView::Empty) == (WorkerView { action: SerialAction::Read, ..w }),
{
}

/// What is read is delivered as it came, and a read that brought nothing in
/// time is no error; either way the commands come next.
pub proof fn law_what_is_read_is_delivered(w: WorkerView, d: Seq<u8>)
    requires
        w.action == SerialAction::Read,
    ensures
        ({
            let again = WorkerView { action: SerialAction::TakeCommand, bytes: Seq::empty(), ..w };
            let got = after(w, SerialEventView::Read(d));
            &&& after(w, SerialEventView::TimedOut) == again
            &&& d.len() == 0 ==> got == again
            &&& d.len() > 0 ==> got == (WorkerView {
                action: SerialAction::Deliver,
                bytes: d,
                ..w
            })
            &&& d.len() > 0 ==> after(got, SerialEventView::Done) == again
        }),
{
}

/// A port begins with the commands that are there; and once something was
/// written, delivered or sent as a break, they come next.
pub proof fn law_the_commands_come_next(w: WorkerView)
    requires
        w.action == SerialAction::Write || w.action == SerialAction::Break || w.action
            == SerialAction::Deliver,
    ensures
        fresh_worker().action == SerialAction::TakeCommand,
        fresh_worker().bytes.len() == 0,
        fresh_worker().reason.len() == 0,
        after(w, SerialEventView::Done) == (WorkerView {
            action: SerialAction::TakeCommand,
            bytes: Seq::empty(),
            ..w
        }),
{
}

/// A read or a write that fails ends the work with the reason.
pub proof fn law_a_failure_ends_the_work(w: WorkerView, error: Seq<char>)
    ensures
        w.action == SerialAction::Write ==> after(w, SerialEventView::Failed(error)) == (
        WorkerView { action: SerialAction::Finish, reason: "write failed"@, ..w }),
        w.action == SerialAction::Read ==> after(w, SerialEventView::Failed(error)) == (
        WorkerView { action: SerialAction::Finish, reason: "read error: "@ + error, ..w }),
{
}

/// Whether an event can come of an action.
pub open spec fn comes_of(a: SerialAction, e: SerialEventView) -> bool {
    match e {
        SerialEventView::Data(_) => a == SerialAction::TakeCommand,
        SerialEventView::Break => a == SerialAction::TakeCommand,
        SerialEventView::Close => a == SerialAction::TakeCommand,
        SerialEventView::Empty => a == SerialAction::TakeCommand,
        SerialEventView::Gone => a == SerialAction::TakeCommand,
        SerialEventView::Done => a == SerialAction::Write || a == SerialAction::Break || a
            == SerialAction::Deliver,
        SerialEventView::Read(_) => a == SerialAction::Read,
        SerialEventView::TimedOut => a == SerialAction::Read,
        SerialEventView::Failed(_) => a == SerialAction::Write || a == SerialAction::Read,
    }
}

/// An event that cannot come of the action at hand changes nothing.
pub proof fn law_other_events_change_nothing(w: WorkerView, e: SerialEventView)
    requires
        !comes_of(w.action, e),
    ensures
        after(w, e) == w,
{
}

/// An event stands for what it says, and a command for what it asks for.
pub proof fn law_an_event_stands_for_what_it_says(e: SerialEvent)
    ensures
        match e {
            SerialEvent::Taken(Taken::Command(SerialCommand::Data(d))) => e@
                == SerialEventView::Data(d@),
            SerialEvent::Taken(Taken::Command(SerialCommand::Break)) => e@
                == SerialEventView::Break,
            SerialEvent::Taken(Taken::Command(SerialCommand::Close)) => e@
                == SerialEventView::Close,
            SerialEvent::Taken(Taken::Empty) => e@ == SerialEventView::Empty,
            SerialEvent::Taken(Taken::Gone) => e@ == SerialEventView::Gone,
            SerialEvent::Done => e@ == SerialEventView::Done,
            SerialEvent::Read(d) => e@ == SerialEventView::Read(d@),
            SerialEvent::TimedOut => e@ == SerialEventView::TimedOut,
            SerialEvent::Failed(x) => e@ == SerialEventView::Failed(x@),
        },
{
}

} // verus!
