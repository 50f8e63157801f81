//! The server side of a SOCKS5 handshake: no authentication, CONNECT only.
//!
//! A `Handshake` decides; its user reads and writes what `next` says and
//! reports what came of it to `step`.

use vstd::prelude::*;
use vstd::slice::slice_subrange;
use crate::text;

verus! {

/// What to do next. Texts are of the type `S`.
#[derive(Debug)]
pub enum SocksAction<S> {
    /// Read just so many bytes.
    Read(usize),
    /// Tell the client that no authentication is needed.
    Accept,
    /// Tell the client that it is connected.
    Confirm,
    /// Connect to the target.
    Connect { host: S, port: u16 },
    Refuse(S),
}

/// What is being read.
#[derive(Debug, Clone, Copy, PartialEq, Eq, Structural)]
pub enum Part {
    Greeting,
    Methods,
    Request,
    Ipv4,
    DomainLength,
    Domain,
    Ipv6,
    Port,
}

/// What came of an action.
#[derive(Debug)]
pub enum SocksEvent {
    Read(Vec<u8>),
    Wrote,
    Failed(String),
}

/// What a `SocksEvent` holds.
pub enum SocksEventView {
    Read(Seq<u8>),
    Wrote,
    Failed(Seq<char>),
}

impl View for SocksEvent {
    type V = SocksEventView;

    open spec fn view(&self) -> SocksEventView {
        match *self {
            SocksEvent::Read(d) => SocksEventView::Read(d@),
            SocksEvent::Wrote => SocksEventView::Wrote,
            SocksEvent::Failed(e) => SocksEventView::Failed(e@),
        }
    }
}

/// A handshake under way. Texts are of the type `S`.
#[derive(Debug)]
pub struct Handshake<S> {
    pub action: SocksAction<S>,
    pub part: Part,
    /// The host that was asked for; empty until it is known.
    pub host: S,
    pub port: u16,
}

/// The text of an action.
pub open spec fn action_text(a: SocksAction<String>) -> SocksAction<Seq<char>> {
    match a {
        SocksAction::Read(n) => SocksAction::Read(n),
        SocksAction::Accept => SocksAction::Accept,
        SocksAction::Confirm => SocksAction::Confirm,
        SocksAction::Connect { host, port } => SocksAction::Connect { host: host@, port },
        SocksAction::Refuse(e) => SocksAction::Refuse(e@),
    }
}

impl View for Handshake<String> {
    type V = Handshake<Seq<char>>;

    open spec fn view(&self) -> Handshake<Seq<char>> {
        Handshake {
            action: action_text(self.action),
            part: self.part,
            host: self.host@,
            port: self.port,
        }
    }
}

// ---------- addresses ----------

/// The text of an IPv4 address.
pub open spec fn ipv4_text(a: Seq<u8>) -> Seq<char> {
    text::dec(a[0] as nat) + "."@ + text::dec(a[1] as nat) + "."@ + text::dec(a[2] as nat) + "."@
        + text::dec(a[3] as nat)
}

/// The text of an IPv4 address.
pub fn ipv4(a: &[u8]) -> (r: String)
    requires
        a@.len() == 4,
    ensures
        r@ == ipv4_text(a@),
{
    let mut out: String = text::decimal(a[0] as u64);
    out.append(".");
    out.append(text::decimal(a[1] as u64).as_str());
    out.append(".");
    out.append(text::decimal(a[2] as u64).as_str());
    out.append(".");
    out.append(text::decimal(a[3] as u64).as_str());
    out
}

/// The eight groups of an IPv6 address.
pub open spec fn groups_of(a: Seq<u8>) -> Seq<u16> {
    Seq::new(8, |i: int| (a[2 * i] * 256 + a[2 * i + 1]) as u16)
}

/// How many groups are zero from place `i` on without a break.
pub open spec fn zeros(g: Seq<u16>, i: int) -> int
    decreases g.len() - i,
{
    if 0 <= i < g.len() && g[i] == 0 {
        1 + zeros(g, i + 1)
    } else {
        0
    }
}

/// Where the longest run of zero groups begins, among those that begin before
/// place `n`; the first of several.
pub open spec fn longest(g: Seq<u16>, n: int) -> int
    decreases n,
{
    if n <= 0 {
        0
    } else {
        let p = longest(g, n - 1);
        if zeros(g, n - 1) > zeros(g, p) {
            n - 1
        } else {
            p
        }
    }
}

/// Groups with colons between them.
pub open spec fn joined(g: Seq<u16>) -> Seq<char>
    decreases g.len(),
{
    if g.len() == 0 {
        Seq::empty()
    } else if g.len() == 1 {
        text::hex(g[0] as nat)
    } else {
        joined(g.drop_last()) + ":"@ + text::hex(g.last() as nat)
    }
}

/// Whether an IPv6 address stands for an IPv4 one.
pub open spec fn is_mapped(a: Seq<u8>) -> bool {
    (forall|i: int| 0 <= i < 10 ==> #[trigger] a[i] == 0) && a[10] == 255 && a[11] == 255
}

/// The text of an IPv6 address: the first of the longest runs of zero groups
/// is left out, if it is longer than one group, and an address that stands
/// for an IPv4 one shows that.
pub open spec fn ipv6_text(a: Seq<u8>) -> Seq<char> {
    let g = groups_of(a);
    let start = longest(g, 8);
    let len = zeros(g, start);
    if is_mapped(a) {
        "::ffff:"@ + ipv4_text(a.skip(12))
    } else if len > 1 {
        joined(g.take(start)) + "::"@ + joined(g.skip(start + len))
    } else {
        joined(g)
    }
}

proof fn lemma_zeros(g: Seq<u16>, i: int)
    requires
        0 <= i <= g.len(),
    ensures
        0 <= zeros(g, i) <= g.len() - i,
    decreases g.len() - i,
{
    if i < g.len() && g[i] == 0 {
        lemma_zeros(g, i + 1);
    }
}

fn count_zeros(g: &[u16], i: usize) -> (r: usize)
    requires
        i <= g@.len(),
    ensures
        r == zeros(g@, i as int),
    decreases g@.len() - i,
{
    proof {
        lemma_zeros(g@, i as int);
    }
    if i < g.len() && g[i] == 0 {
        1 + count_zeros(g, i + 1)
    } else {
        0
    }
}

fn join_groups(g: &[u16]) -> (r: String)
    ensures
        r@ == joined(g@),
{
    let mut out: String = String::new();
    let mut i: usize = 0;
    assert(out@ =~= joined(g@.take(0)));
    while i < g.len()
        invariant
            i <= g@.len(),
            out@ == joined(g@.take(i as int)),
        decreases g@.len() - i,
    {
        let ghost t = g@.take(i + 1);
        proof {
            assert(t.drop_last() =~= g@.take(i as int));
        }
        if i > 0 {
            out.append(":");
        }
        out.append(text::hexadecimal(g[i] as u128).as_str());
        assert(out@ =~= joined(t));
        i += 1;
    }
    assert(g@.take(i as int) =~= g@);
    out
}

fn mapped(a: &[u8]) -> (r: bool)
    requires
        a@.len() == 16,
    ensures
        r == is_mapped(a@),
{
    let mut i: usize = 0;
    while i < 10
        invariant
            i <= 10,
            a@.len() == 16,
            forall|j: int| 0 <= j < i ==> #[trigger] a@[j] == 0,
        decreases 10 - i,
    {
        if a[i] != 0 {
            return false;
        }
        i += 1;
    }
    a[10] == 255 && a[11] == 255
}

/// The text of an IPv6 address.
pub fn ipv6(a: &[u8]) -> (r: String)
    requires
        a@.len() == 16,
    ensures
        r@ == ipv6_text(a@),
{
    if mapped(a) {
        let mut out: String = "::ffff:".to_owned();
        let tail = slice_subrange(a, 12, 16);
        assert(tail@ =~= a@.skip(12));
        out.append(ipv4(tail).as_str());
        return out;
    }
    let mut groups: Vec<u16> = Vec::new();
    let mut i: usize = 0;
    while i < 8
        invariant
            i <= 8,
            a@.len() == 16,
            groups@ == groups_of(a@).take(i as int),
        decreases 8 - i,
    {
        let hi: u16 = a[2 * i] as u16;
        let lo: u16 = a[2 * i + 1] as u16;
        groups.push(hi * 256 + lo);
        assert(groups_of(a@).take(i + 1) =~= groups_of(a@).take(i as int).push(
            groups_of(a@)[i as int],
        ));
        i += 1;
    }
    assert(groups@ =~= groups_of(a@));
    let g: &[u16] = groups.as_slice();
    let mut start: usize = 0;
    let mut n: usize = 0;
    while n < 8
        invariant
            n <= 8,
            g@.len() == 8,
            start == longest(g@, n as int),
            start < 8,
        decreases 8 - n,
    {
        if count_zeros(g, n) > count_zeros(g, start) {
            start = n;
        }
        n += 1;
    }
    let len: usize = count_zeros(g, start);
    proof {
        lemma_zeros(g@, start as int);
    }
    if len > 1 {
        let left = slice_subrange(g, 0, start);
        let right = slice_subrange(g, start + len, g.len());
        assert(left@ =~= g@.take(start as int));
        assert(right@ =~= g@.skip(start + len));
        let mut out = join_groups(left);
        out.append("::");
        out.append(join_groups(right).as_str());
        out
    } else {
        join_groups(g)
    }
}

// ---------- the handshake ----------

/// What the client is told when no authentication is needed.
pub fn accept_reply() -> (r: Vec<u8>)
    ensures
        r@ == seq![5u8, 0u8],
{
    let r: Vec<u8> = vec![5, 0];
    assert(r@ =~= seq![5u8, 0u8]);
    r
}

/// What the client is told when it is connected.
pub open spec fn confirmation() -> Seq<u8> {
    seq![5u8, 0u8, 0u8, 1u8, 0u8, 0u8, 0u8, 0u8, 0u8, 0u8]
}

/// What the client is told when it is connected.
pub fn confirm_reply() -> (r: Vec<u8>)
    ensures
        r@ == confirmation(),
{
    let r: Vec<u8> = vec![5, 0, 0, 1, 0, 0, 0, 0, 0, 0];
    assert(r@ =~= confirmation());
    r
}

/// A handshake at its start.
pub open spec fn begun() -> Handshake<Seq<char>> {
    Handshake {
        action: SocksAction::Read(2),
        part: Part::Greeting,
        host: Seq::empty(),
        port: 0,
    }
}

/// A handshake that goes on to read.
pub open spec fn reading(h: Handshake<Seq<char>>, part: Part, n: int) -> Handshake<Seq<char>> {
    Handshake { action: SocksAction::Read(n as usize), part, ..h }
}

/// A handshake that was refused.
pub open spec fn refused(h: Handshake<Seq<char>>, error: Seq<char>) -> Handshake<Seq<char>> {
    Handshake { action: SocksAction::Refuse(error), ..h }
}

/// A handshake that has read what it wanted.
pub open spec fn with_bytes(h: Handshake<Seq<char>>, d: Seq<u8>) -> Handshake<Seq<char>> {
    match h.part {
        Part::Greeting => if d[0] != 5 {
            refused(h, "not a SOCKS5 greeting"@)
        } else {
            reading(h, Part::Methods, d[1] as int)
        },
        Part::Methods => if d.contains(0) {
            Handshake { action: SocksAction::Accept, ..h }
        } else {
            refused(h, "client requires authentication"@)
        },
        Part::Request => if d[0] != 5 || d[1] != 1 {
            refused(h, "only CONNECT is supported"@)
        } else if d[3] == 1 {
            reading(h, Part::Ipv4, 4)
        } else if d[3] == 3 {
            reading(h, Part::DomainLength, 1)
        } else if d[3] == 4 {
            reading(h, Part::Ipv6, 16)
        } else {
            refused(h, "bad address type"@)
        },
        Part::Ipv4 => reading(Handshake { host: ipv4_text(d), ..h }, Part::Port, 2),
        Part::DomainLength => reading(h, Part::Domain, d[0] as int),
        Part::Domain => reading(Handshake { host: text::shown(d), ..h }, Part::Port, 2),
        Part::Ipv6 => reading(Handshake { host: ipv6_text(d), ..h }, Part::Port, 2),
        Part::Port => Handshake {
            action: SocksAction::Confirm,
            port: (d[0] * 256 + d[1]) as u16,
            ..h
        },
    }
}

/// A handshake after one more event. An event that does not answer the action
/// at hand changes nothing.
pub open spec fn after(h: Handshake<Seq<char>>, e: SocksEventView) -> Handshake<Seq<char>> {
    match (h.action, e) {
        (SocksAction::Connect { .. }, _) => h,
        (SocksAction::Refuse(_), _) => h,
        (_, SocksEventView::Failed(x)) => refused(h, x),
        (SocksAction::Read(n), SocksEventView::Read(d)) => if d.len() == n && fits(h.part, n as int) {
            with_bytes(h, d)
        } else {
            h
        },
        (SocksAction::Accept, SocksEventView::Wrote) => reading(h, Part::Request, 4),
        (SocksAction::Confirm, SocksEventView::Wrote) => Handshake {
            action: SocksAction::Connect { host: h.host, port: h.port },
            ..h
        },
        _ => h,
    }
}

/// Whether a part can have so many bytes.
pub open spec fn fits(part: Part, n: int) -> bool {
    match part {
        Part::Greeting => n == 2,
        Part::Methods => true,
        Part::Request => n == 4,
        Part::Ipv4 => n == 4,
        Part::DomainLength => n == 1,
        Part::Domain => true,
        Part::Ipv6 => n == 16,
        Part::Port => n == 2,
    }
}

fn can_have(part: Part, n: usize) -> (r: bool)
    ensures
        r == fits(part, n as int),
{
    match part {
        Part::Greeting => n == 2,
        Part::Methods => true,
        Part::Request => n == 4,
        Part::Ipv4 => n == 4,
        Part::DomainLength => n == 1,
        Part::Domain => true,
        Part::Ipv6 => n == 16,
        Part::Port => n == 2,
    }
}

fn contains_zero(d: &Vec<u8>) -> (r: bool)
    ensures
        r == d@.contains(0),
{
    let mut i: usize = 0;
    while i < d.len()
        invariant
            i <= d@.len(),
            forall|j: int| 0 <= j < i ==> #[trigger] d@[j] != 0,
        decreases d@.len() - i,
    {
        if d[i] == 0 {
            assert(d@[i as int] == 0);
            return true;
        }
        i += 1;
    }
    false
}

impl Handshake<String> {
    /// A handshake at its start.
    pub fn new() -> (r: Self)
        ensures
            r@ == begun(),
    {
        let r = Handshake {
            action: SocksAction::Read(2),
            part: Part::Greeting,
            host: String::new(),
            port: 0,
        };
        assert(r.host@ =~= Seq::<char>::empty());
        r
    }

    /// What to do next.
    pub fn next(&self) -> (r: &SocksAction<String>)
        ensures
            *r == self.action,
    {
        &self.action
    }

    fn read(&mut self, part: Part, n: usize)
        ensures
            final(self)@ == reading(old(self)@, part, n as int),
    {
        self.part = part;
        self.action = SocksAction::Read(n);
    }

    fn refuse(&mut self, error: &str)
        ensures
            final(self)@ == refused(old(self)@, error@),
    {
        self.action = SocksAction::Refuse(error.to_owned());
    }

    fn take(&mut self, d: Vec<u8>)
        requires
            fits(old(self)@.part, d@.len() as int),
        ensures
            final(self)@ == with_bytes(old(self)@, d@),
    {
        match self.part {
            Part::Greeting => if d[0] != 5 {
                self.refuse("not a SOCKS5 greeting");
            } else {
                self.read(Part::Methods, d[1] as usize);
            },
            Part::Methods => if contains_zero(&d) {
                self.action = SocksAction::Accept;
            } else {
                self.refuse("client requires authentication");
            },
            Part::Request => if d[0] != 5 || d[1] != 1 {
                self.refuse("only CONNECT is supported");
            } else if d[3] == 1 {
                self.read(Part::Ipv4, 4);
            } else if d[3] == 3 {
                self.read(Part::DomainLength, 1);
            } else if d[3] == 4 {
                self.read(Part::Ipv6, 16);
            } else {
                self.refuse("bad address type");
            },
            Part::Ipv4 => {
                self.host = ipv4(d.as_slice());
                self.read(Part::Port, 2);
            },
            Part::DomainLength => self.read(Part::Domain, d[0] as usize),
            Part::Domain => {
                self.host = text::show(d.as_slice());
                self.read(Part::Port, 2);
            },
            Part::Ipv6 => {
                self.host = ipv6(d.as_slice());
                self.read(Part::Port, 2);
            },
            Part::Port => {
                self.port = d[0] as u16 * 256 + d[1] as u16;
                self.action = SocksAction::Confirm;
            },
        }
    }

    /// Takes in what came of the action at hand.
    pub fn step(&mut self, e: SocksEvent)
        ensures
            final(self)@ == after(old(self)@, e@),
    {
        match (&self.action, e) {
            (SocksAction::Connect { .. }, _) => {},
            (SocksAction::Refuse(_), _) => {},
            (_, SocksEvent::Failed(x)) => self.refuse(x.as_str()),
            (SocksAction::Read(n), SocksEvent::Read(d)) => {
                let n: usize = *n;
                if d.len() == n && can_have(self.part, n) {
                    self.take(d);
                }
            },
            (SocksAction::Accept, SocksEvent::Wrote) => self.read(Part::Request, 4),
            (SocksAction::Confirm, SocksEvent::Wrote) => {
                self.action = SocksAction::Connect { host: self.host.clone(), port: self.port };
            },
            _ => {},
        }
    }
}

/// What a handshake comes to: the target or an error, and all that the client
/// was told.
pub type Outcome = (Result<(Seq<char>, u16), Seq<char>>, Seq<u8>);

/// How far a handshake is from its end.
pub open spec fn distance(h: Handshake<Seq<char>>) -> nat {
    match h.action {
        SocksAction::Read(_) => match h.part {
            Part::Greeting => 8,
            Part::Methods => 7,
            Part::Request => 5,
            Part::DomainLength => 4,
            Part::Ipv4 => 3,
            Part::Domain => 3,
            Part::Ipv6 => 3,
            Part::Port => 2,
        },
        SocksAction::Accept => 6,
        SocksAction::Confirm => 1,
        SocksAction::Connect { .. } => 0,
        SocksAction::Refuse(_) => 0,
    }
}

/// What a handshake comes to with a client that sends `rest` and no more,
/// having been told `told` already.
pub open spec fn served(h: Handshake<Seq<char>>, rest: Seq<u8>, told: Seq<u8>) -> Outcome
    decreases distance(h),
{
    match h.action {
        SocksAction::Connect { host, port } => (Ok((host, port)), told),
        SocksAction::Refuse(e) => (Err(e), told),
        SocksAction::Accept => served(
            after(h, SocksEventView::Wrote),
            rest,
            told + seq![5u8, 0u8],
        ),
        SocksAction::Confirm => served(
            after(h, SocksEventView::Wrote),
            rest,
            told + confirmation(),
        ),
        SocksAction::Read(n) => if rest.len() < n || !fits(h.part, n as int) {
            (Err("failed to fill whole buffer"@), told)
        } else {
            served(
                after(h, SocksEventView::Read(rest.take(n as int))),
                rest.skip(n as int),
                told,
            )
        },
    }
}

/// A target or an error, as text.
pub open spec fn target_text(r: Result<(String, u16), String>) -> Result<
    (Seq<char>, u16),
    Seq<char>,
> {
    match r {
        Ok(t) => Ok((t.0@, t.1)),
        Err(e) => Err(e@),
    }
}

/// The handshake with a client that sends `input` and no more: the target that
/// it wants or an error, and all that it is told.
pub fn socks5_target(input: &[u8]) -> (r: (Result<(String, u16), String>, Vec<u8>))
    ensures
        (target_text(r.0), r.1@) == served(begun(), input@, Seq::empty()),
{
    let mut h = Handshake::new();
    let mut told: Vec<u8> = Vec::new();
    let mut pos: usize = 0;
    assert(input@.skip(0) =~= input@);
    assert(told@ =~= Seq::<u8>::empty());
    loop
        invariant
            pos <= input@.len(),
            served(h@, input@.skip(pos as int), told@) == served(
                begun(),
                input@,
                Seq::empty(),
            ),
        decreases distance(h@),
    {
        let ghost was = h@;
        match &h.action {
            SocksAction::Connect { host, port } => {
                return (Ok((host.clone(), *port)), told);
            },
            SocksAction::Refuse(e) => {
                return (Err(e.clone()), told);
            },
            SocksAction::Accept => {
                h.step(SocksEvent::Wrote);
                text::push_bytes(&mut told, accept_reply().as_slice());
            },
            SocksAction::Confirm => {
                h.step(SocksEvent::Wrote);
                text::push_bytes(&mut told, confirm_reply().as_slice());
            },
            SocksAction::Read(n) => {
                let n: usize = *n;
                if input.len() - pos < n || !can_have(h.part, n) {
                    return (Err("failed to fill whole buffer".to_owned()), told);
                }
                let piece = slice_subrange(input, pos, pos + n);
                let bytes = text::copy_bytes(piece);
                proof {
                    assert(bytes@ =~= input@.skip(pos as int).take(n as int));
                    assert(input@.skip(pos as int).skip(n as int) =~= input@.skip(pos + n));
                }
                h.step(SocksEvent::Read(bytes));
                pos += n;
            },
        }
    }
}

// ---------- laws ----------

/// Where a client wants to be connected to.
pub enum Destination {
    Ipv4(Seq<u8>),
    Domain(Seq<u8>),
    Ipv6(Seq<u8>),
}

/// Whether a destination can be written down.
pub open spec fn is_valid(d: Destination) -> bool {
    match d {
        Destination::Ipv4(a) => a.len() == 4,
        Destination::Domain(n) => n.len() <= 255,
        Destination::Ipv6(a) => a.len() == 16,
    }
}

/// How a destination is written down, with its type.
pub open spec fn destination_bytes(d: Destination) -> Seq<u8> {
    match d {
        Destination::Ipv4(a) => seq![1u8] + a,
        Destination::Domain(n) => seq![3u8, n.len() as u8] + n,
        Destination::Ipv6(a) => seq![4u8] + a,
    }
}

/// The host that a destination names.
pub open spec fn destination_host(d: Destination) -> Seq<char> {
    match d {
        Destination::Ipv4(a) => ipv4_text(a),
        Destination::Domain(n) => text::shown(n),
        Destination::Ipv6(a) => ipv6_text(a),
    }
}

/// The greeting of a client with the authentication methods that it knows.
pub open spec fn greeting(methods: Seq<u8>) -> Seq<u8> {
    seq![5u8, methods.len() as u8] + methods
}

/// All that a client sends to be connected.
pub open spec fn request(d: Destination, port: u16) -> Seq<u8> {
    seq![5u8, 1u8, 0u8] + destination_bytes(d) + seq![(port / 256) as u8, (port % 256) as u8]
}

proof fn lemma_read(h: Handshake<Seq<char>>, piece: Seq<u8>, rest: Seq<u8>, told: Seq<u8>)
    requires
        h.action == SocksAction::<Seq<char>>::Read(piece.len() as usize),
        piece.len() <= 255,
        fits(h.part, piece.len() as int),
    ensures
        served(h, piece + rest, told) == served(with_bytes(h, piece), rest, told),
{
    let n = piece.len() as int;
    assert((piece + rest).take(n) =~= piece);
    assert((piece + rest).skip(n) =~= rest);
}

proof fn lemma_greeted(methods: Seq<u8>, rest: Seq<u8>)
    requires
        methods.len() <= 255,
    ensures
        served(begun(), greeting(methods) + rest, Seq::empty()) == if methods.contains(0) {
            served(reading(begun(), Part::Request, 4), rest, seq![5u8, 0u8])
        } else {
            (Err("client requires authentication"@), Seq::empty())
        },
{
    reveal_with_fuel(served, 4);
    let all = greeting(methods) + rest;
    let n = methods.len() as int;
    assert(all.take(2) =~= seq![5u8, methods.len() as u8]);
    assert(all.skip(2) =~= methods + rest);
    let h1 = after(begun(), SocksEventView::Read(all.take(2)));
    assert(h1 == reading(begun(), Part::Methods, n));
    assert((methods + rest).take(n) =~= methods);
    assert((methods + rest).skip(n) =~= rest);
    assert(Seq::<u8>::empty() + seq![5u8, 0u8] =~= seq![5u8, 0u8]);
}

/// The state behind the host of a request.
spec fn hosted(h: Handshake<Seq<char>>, host: Seq<char>) -> Handshake<Seq<char>> {
    reading(Handshake { host, ..h }, Part::Port, 2)
}

proof fn lemma_destination(h: Handshake<Seq<char>>, d: Destination, rest: Seq<u8>, told: Seq<u8>)
    requires
        is_valid(d),
    ensures
        served(
            reading(h, Part::Request, 4),
            seq![5u8, 1u8, 0u8] + destination_bytes(d) + rest,
            told,
        ) == served(hosted(h, destination_host(d)), rest, told),
{
    let start = reading(h, Part::Request, 4);
    let t = destination_bytes(d)[0];
    let head = seq![5u8, 1u8, 0u8, t];
    let body = destination_bytes(d).skip(1);
    assert(seq![5u8, 1u8, 0u8] + destination_bytes(d) + rest =~= head + (body + rest));
    lemma_read(start, head, body + rest, told);
    match d {
        Destination::Ipv4(a) => {
            assert(body =~= a);
            lemma_read(reading(start, Part::Ipv4, 4), a, rest, told);
        },
        Destination::Domain(n) => {
            assert(body + rest =~= seq![n.len() as u8] + (n + rest));
            lemma_read(
                reading(start, Part::DomainLength, 1),
                seq![n.len() as u8],
                n + rest,
                told,
            );
            lemma_read(reading(start, Part::Domain, n.len() as int), n, rest, told);
        },
        Destination::Ipv6(a) => {
            assert(body =~= a);
            lemma_read(reading(start, Part::Ipv6, 16), a, rest, told);
        },
    }
}

/// A client that knows how to do without authentication and asks to be
/// connected is understood: the target is the one that it wrote down, and it is
/// told so in two replies. What it sends after that is not touched.
pub proof fn law_a_request_is_understood(
    methods: Seq<u8>,
    d: Destination,
    port: u16,
    rest: Seq<u8>,
)
    requires
        methods.len() <= 255,
        methods.contains(0),
        is_valid(d),
    ensures
        served(begun(), greeting(methods) + request(d, port) + rest, Seq::empty()) == (
            Ok::<(Seq<char>, u16), Seq<char>>((destination_host(d), port)),
            seq![5u8, 0u8] + confirmation(),
        ),
{
    let p = seq![(port / 256) as u8, (port % 256) as u8];
    let told = seq![5u8, 0u8];
    assert(greeting(methods) + request(d, port) + rest =~= greeting(methods) + (request(d, port)
        + rest));
    lemma_greeted(methods, request(d, port) + rest);
    assert(request(d, port) + rest =~= seq![5u8, 1u8, 0u8] + destination_bytes(d) + (p + rest));
    lemma_destination(begun(), d, p + rest, told);
    reveal_with_fuel(served, 4);
    let h = hosted(begun(), destination_host(d));
    assert((p + rest).take(2) =~= p);
    assert((p[0] * 256 + p[1]) as u16 == port);
}

/// A client that insists on authentication is refused, and told nothing.
pub proof fn law_authentication_is_not_offered(methods: Seq<u8>, rest: Seq<u8>)
    requires
        methods.len() <= 255,
        !methods.contains(0),
    ensures
        served(begun(), greeting(methods) + rest, Seq::empty()) == (
            Err::<(Seq<char>, u16), Seq<char>>("client requires authentication"@),
            Seq::<u8>::empty(),
        ),
{
    lemma_greeted(methods, rest);
}

/// A client of another version is refused, and told nothing.
pub proof fn law_other_versions_are_refused(input: Seq<u8>)
    requires
        input.len() >= 2,
        input[0] != 5,
    ensures
        served(begun(), input, Seq::empty()) == (
            Err::<(Seq<char>, u16), Seq<char>>("not a SOCKS5 greeting"@),
            Seq::<u8>::empty(),
        ),
{
    reveal_with_fuel(served, 2);
    assert(input.take(2)[0] == input[0]);
}

/// A client is told that it is connected only when its target is known, and
/// then the target is handed out.
pub proof fn law_no_confirmation_without_a_target(h: Handshake<Seq<char>>)
    requires
        h.action is Confirm,
    ensures
        after(h, SocksEventView::Wrote).action == (SocksAction::Connect {
            host: h.host,
            port: h.port,
        }),
{
}

/// The run of zeros that an IPv6 address leaves out is a longest one, and the
/// first of those.
pub proof fn law_the_longest_run_is_left_out(g: Seq<u16>, n: int, i: int)
    requires
        0 <= i < n <= g.len(),
    ensures
        0 <= longest(g, n) < n,
        zeros(g, i) <= zeros(g, longest(g, n)),
        i < longest(g, n) ==> zeros(g, i) < zeros(g, longest(g, n)),
    decreases n,
{
    if n > 1 {
        if i < n - 1 {
            law_the_longest_run_is_left_out(g, n - 1, i);
        } else {
            law_the_longest_run_is_left_out(g, n - 1, 0);
        }
    } else {
        assert(longest(g, 0) == 0);
    }
}

/// The client's greeting says how many methods follow; a method without
/// authentication is accepted, and the request of four bytes comes next.
pub proof fn law_a_greeting_is_answered(h: Handshake<Seq<char>>, d: Seq<u8>)
    ensures
        begun().action == SocksAction::<Seq<char>>::Read(2) && begun().part == Part::Greeting,
        h.action == SocksAction::<Seq<char>>::Read(2) && h.part == Part::Greeting && d.len() == 2
            && d[0] == 5 ==> after(h, SocksEventView::Read(d)) == (Handshake {
            action: SocksAction::Read(d[1] as usize),
            part: Part::Methods,
            ..h
        }),
        h.action == SocksAction::<Seq<char>>::Read(d.len() as usize) && d.len() < 256 && h.part
            == Part::Methods && d.contains(0) ==> after(h, SocksEventView::Read(d)) == (Handshake {
            action: SocksAction::<Seq<char>>::Accept,
            ..h
        }),
        h.action == SocksAction::<Seq<char>>::Accept ==> after(h, SocksEventView::Wrote) == (
        Handshake { action: SocksAction::<Seq<char>>::Read(4), part: Part::Request, ..h }),
{
}

/// A request to connect names its kind of address: four bytes, a name with its
/// length before it, or sixteen bytes. Any other command or kind is refused.
pub proof fn law_a_request_names_its_kind_of_address(h: Handshake<Seq<char>>, d: Seq<u8>)
    requires
        h.action == SocksAction::<Seq<char>>::Read(4),
        h.part == Part::Request,
        d.len() == 4,
    ensures
        ({
            let n = after(h, SocksEventView::Read(d));
            let connects = d[0] == 5 && d[1] == 1;
            &&& !connects ==> n.action == SocksAction::Refuse("only CONNECT is supported"@)
            &&& connects && d[3] == 1 ==> n.action == SocksAction::<Seq<char>>::Read(4) && n.part
                == Part::Ipv4
            &&& connects && d[3] == 3 ==> n.action == SocksAction::<Seq<char>>::Read(1) && n.part
                == Part::DomainLength
            &&& connects && d[3] == 4 ==> n.action == SocksAction::<Seq<char>>::Read(16) && n.part
                == Part::Ipv6
            &&& connects && d[3] != 1 && d[3] != 3 && d[3] != 4 ==> n.action
                == SocksAction::Refuse("bad address type"@)
            &&& n.host == h.host && n.port == h.port
        }),
{
}

/// The address is kept as text, whatever its kind, and the port follows it in
/// two bytes, the larger one first.
pub proof fn law_an_address_is_followed_by_a_port(h: Handshake<Seq<char>>, d: Seq<u8>)
    requires
        h.action == SocksAction::<Seq<char>>::Read(d.len() as usize),
        d.len() < 256,
    ensures
        ({
            let n = after(h, SocksEventView::Read(d));
            let last = n.action == SocksAction::<Seq<char>>::Read(2) && n.part == Part::Port;
            &&& h.part == Part::Ipv4 && d.len() == 4 ==> last && n.host == ipv4_text(d)
            &&& h.part == Part::Ipv6 && d.len() == 16 ==> last && n.host == ipv6_text(d)
            &&& h.part == Part::Domain ==> last && n.host == text::shown(d)
            &&& h.part == Part::DomainLength && d.len() == 1 ==> n.action == SocksAction::<
                Seq<char>,
            >::Read(d[0] as usize) && n.part == Part::Domain
            &&& h.part == Part::Port && d.len() == 2 ==> n.action == SocksAction::<
                Seq<char>,
            >::Confirm && n.port == d[0] * 256 + d[1] && n.host == h.host
        }),
{
}

/// A read or a write that fails ends the handshake with its error, and one that
/// has ended stays as it is.
pub proof fn law_a_failure_ends_the_handshake(
    h: Handshake<Seq<char>>,
    error: Seq<char>,
    e: SocksEventView,
)
    ensures
        h.action is Connect || h.action is Refuse ==> after(h, e) == h,
        !(h.action is Connect) && !(h.action is Refuse) ==> after(
            h,
            SocksEventView::Failed(error),
        ).action == SocksAction::Refuse(error),
{
}

/// A client that asks for anything but a connection, or names no kind of
/// address that there is, is refused after its greeting was answered.
pub proof fn law_other_requests_are_refused(methods: Seq<u8>, head: Seq<u8>, rest: Seq<u8>)
    requires
        methods.len() <= 255,
        methods.contains(0),
        head.len() == 4,
    ensures
        head[0] != 5 || head[1] != 1 ==> served(
            begun(),
            greeting(methods) + (head + rest),
            Seq::empty(),
        ) == (
            Err::<(Seq<char>, u16), Seq<char>>("only CONNECT is supported"@),
            seq![5u8, 0u8],
        ),
        head[0] == 5 && head[1] == 1 && head[3] != 1 && head[3] != 3 && head[3] != 4 ==> served(
            begun(),
            greeting(methods) + (head + rest),
            Seq::empty(),
        ) == (Err::<(Seq<char>, u16), Seq<char>>("bad address type"@), seq![5u8, 0u8]),
{
    let told = seq![5u8, 0u8];
    lemma_greeted(methods, head + rest);
    lemma_read(reading(begun(), Part::Request, 4), head, rest, told);
}

/// A client that falls silent before it is understood is not connected.
pub proof fn law_a_short_greeting_is_an_error(input: Seq<u8>)
    requires
        input.len() < 2,
    ensures
        served(begun(), input, Seq::empty()) == (
            Err::<(Seq<char>, u16), Seq<char>>("failed to fill whole buffer"@),
            Seq::<u8>::empty(),
        ),
{
}

/// An IPv4 address is written as four decimal numbers with dots between them.
pub proof fn law_an_ipv4_address_has_four_numbers(a: u8, b: u8, c: u8, d: u8)
    ensures
        ipv4_text(seq![a, b, c, d]) == text::dec(a as nat) + "."@ + text::dec(b as nat) + "."@
            + text::dec(c as nat) + "."@ + text::dec(d as nat),
{
}

/// An IPv6 address is written in groups of two bytes, in hexadecimal with
/// colons between them; two or more groups of zeros in a row are left out once,
/// and an IPv4 address inside one is written as such.
pub proof fn law_an_ipv6_address_is_written_in_groups(a: Seq<u8>)
    requires
        a.len() == 16,
    ensures
        ({
            let g = groups_of(a);
            let start = longest(g, 8);
            let len = zeros(g, start);
            let mapped = (forall|i: int| 0 <= i < 10 ==> #[trigger] a[i] == 0) && a[10] == 255
                && a[11] == 255;
            &&& g.len() == 8
            &&& forall|i: int| 0 <= i < 8 ==> #[trigger] g[i] == a[2 * i] * 256 + a[2 * i + 1]
            &&& mapped ==> ipv6_text(a) == "::ffff:"@ + ipv4_text(a.skip(12))
            &&& !mapped && len > 1 ==> ipv6_text(a) == joined(g.take(start)) + "::"@ + joined(
                g.skip(start + len),
            )
            &&& !mapped && len <= 1 ==> ipv6_text(a) == joined(g)
        }),
{
}

/// Groups are joined by colons, each in hexadecimal.
pub proof fn law_groups_are_joined_by_colons(g: Seq<u16>, last: u16)
    ensures
        joined(Seq::empty()).len() == 0,
        joined(seq![last]) == text::hex(last as nat),
        g.len() > 0 ==> joined(g.push(last)) == joined(g) + ":"@ + text::hex(last as nat),
{
    assert(g.push(last).drop_last() =~= g);
}

/// An event stands for what it says, and a handshake for where it has come to.
pub proof fn law_an_event_stands_for_what_it_says(e: SocksEvent, h: Handshake<String>)
    ensures
        match e {
            SocksEvent::Read(d) => e@ == SocksEventView::Read(d@),
            SocksEvent::Wrote => e@ == SocksEventView::Wrote,
            SocksEvent::Failed(x) => e@ == SocksEventView::Failed(x@),
        },
        h@.part == h.part,
        h@.host == h.host@,
        h@.port == h.port,
        match h.action {
            SocksAction::Read(n) => h@.action == SocksAction::<Seq<char>>::Read(n),
            SocksAction::Accept => h@.action == SocksAction::<Seq<char>>::Accept,
            SocksAction::Confirm => h@.action == SocksAction::<Seq<char>>::Confirm,
            SocksAction::Connect { host, port } => h@.action == (SocksAction::Connect {
                host: host@,
                port,
            }),
            SocksAction::Refuse(x) => h@.action == SocksAction::Refuse(x@),
        },
{
}

} // verus!
