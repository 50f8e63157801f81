//! X11 forwarding: the local display, its cookie, and the setup packet.
//!
//! The remote side listens on a loopback port, and every connection to it is
//! passed on to the local X server. The setup packet that a client sends
//! first is rewritten to carry the local MIT-MAGIC-COOKIE-1, so that the
//! remote side needs no authority file at all.

use vstd::prelude::*;
use vstd::slice::slice_subrange;
use crate::text;
use crate::text::CharClass;

verus! {

/// Where the local X server listens.
#[derive(Debug)]
pub enum XTarget {
    Unix(String),
    Tcp(String, u16),
}

/// What an `XTarget` holds.
pub enum XTargetView {
    Unix(Seq<char>),
    Tcp(Seq<char>, u16),
}

impl View for XTarget {
    type V = XTargetView;

    open spec fn view(&self) -> XTargetView {
        match *self {
            XTarget::Unix(p) => XTargetView::Unix(p@),
            XTarget::Tcp(h, p) => XTargetView::Tcp(h@, p),
        }
    }
}

/// The bytes of an ASCII text.
pub open spec fn ascii(s: Seq<char>) -> Seq<u8> {
    Seq::new(s.len(), |i: int| s[i] as u8)
}

/// The name of the one authorization protocol that is spoken.
pub open spec fn cookie_name() -> Seq<u8> {
    ascii("MIT-MAGIC-COOKIE-1"@)
}

fn cookie_name_bytes() -> (r: &'static [u8])
    ensures
        r@ == cookie_name(),
        r@.len() == 18,
{
    let s: &'static str = "MIT-MAGIC-COOKIE-1";
    proof {
        reveal_strlit("MIT-MAGIC-COOKIE-1");
        vstd::utf8::is_ascii_chars_encode_utf8(s@);
        assert(vstd::utf8::encode_utf8(s@) =~= ascii(s@));
    }
    s.as_bytes()
}

// ---------- the setup packet ----------

/// `n` rounded up to a multiple of four.
pub open spec fn padded(n: int) -> int {
    (n + 3) / 4 * 4
}

/// `n` rounded up to a multiple of four.
pub fn pad4(n: usize) -> (r: usize)
    requires
        n <= usize::MAX - 3,
    ensures
        r == padded(n as int),
        n <= r < n + 4,
{
    (n + 3) / 4 * 4
}

/// A 16-bit number from two bytes, the higher one first or last.
pub open spec fn u16_of(a: u8, b: u8, big_endian: bool) -> u16 {
    if big_endian {
        (a * 256 + b) as u16
    } else {
        (b * 256 + a) as u16
    }
}

/// The two bytes of a 16-bit number, the higher one first or last.
pub open spec fn bytes_of(v: u16, big_endian: bool) -> Seq<u8> {
    if big_endian {
        seq![(v / 256) as u8, (v % 256) as u8]
    } else {
        seq![(v % 256) as u8, (v / 256) as u8]
    }
}

/// Whether a client writes numbers with the higher byte first.
pub open spec fn is_big_endian(hs: Seq<u8>) -> bool {
    hs[0] == 'B' as u8
}

/// The length of the authorization name that a setup header announces.
pub open spec fn name_len(hs: Seq<u8>) -> int {
    u16_of(hs[6], hs[7], is_big_endian(hs)) as int
}

/// The length of the authorization data that a setup header announces.
pub open spec fn data_len(hs: Seq<u8>) -> int {
    u16_of(hs[8], hs[9], is_big_endian(hs)) as int
}

/// The length of the setup packet that a header announces.
pub open spec fn setup_len(hs: Seq<u8>) -> int {
    12 + padded(name_len(hs)) + padded(data_len(hs))
}

/// Whether a setup packet has arrived in full.
pub open spec fn setup_complete(hs: Seq<u8>) -> bool {
    hs.len() >= 12 && hs.len() >= setup_len(hs)
}

/// A run of zero bytes.
pub open spec fn zeros(n: int) -> Seq<u8> {
    Seq::new(n as nat, |i: int| 0u8)
}

/// A run of bytes followed by zeros up to a multiple of four.
pub open spec fn with_padding(s: Seq<u8>) -> Seq<u8> {
    s + zeros(padded(s.len() as int) - s.len())
}

/// The setup packet that carries the given cookie in place of what the client
/// sent, followed by the bytes that came after the client's packet.
pub open spec fn rewritten(hs: Seq<u8>, cookie: Seq<u8>) -> Seq<u8> {
    let be = is_big_endian(hs);
    hs.take(6) + bytes_of(cookie_name().len() as u16, be) + bytes_of(
        (cookie.len() % 0x10000) as u16,
        be,
    ) + hs.subrange(10, 12) + with_padding(cookie_name()) + with_padding(cookie) + hs.skip(
        setup_len(hs),
    )
}

fn read_u16(hs: &[u8], at: usize, big_endian: bool) -> (r: u16)
    requires
        at + 1 < hs@.len(),
    ensures
        r == u16_of(hs@[at as int], hs@[at + 1], big_endian),
{
    let a: u16 = hs[at] as u16;
    let b: u16 = hs[at + 1] as u16;
    if big_endian {
        a * 256 + b
    } else {
        b * 256 + a
    }
}

fn write_u16(out: &mut Vec<u8>, v: u16, big_endian: bool)
    ensures
        final(out)@ == old(out)@ + bytes_of(v, big_endian),
{
    let hi: u8 = (v / 256) as u8;
    let lo: u8 = (v % 256) as u8;
    if big_endian {
        out.push(hi);
        out.push(lo);
    } else {
        out.push(lo);
        out.push(hi);
    }
    assert(out@ =~= old(out)@ + bytes_of(v, big_endian));
}

fn write_padded(out: &mut Vec<u8>, s: &[u8])
    ensures
        final(out)@ == old(out)@ + with_padding(s@),
{
    text::push_bytes(out, s);
    let pad: usize = (4 - s.len() % 4) % 4;
    let mut k: usize = 0;
    assert(old(out)@ + s@ + zeros(0) =~= out@);
    while k < pad
        invariant
            k <= pad,
            out@ == old(out)@ + s@ + zeros(k as int),
        decreases pad - k,
    {
        out.push(0);
        k += 1;
        assert(out@ =~= old(out)@ + s@ + zeros(k as int));
    }
    assert(pad == padded(s@.len() as int) - s@.len());
    assert(out@ =~= old(out)@ + with_padding(s@));
}

/// Once a setup packet has arrived in full, puts the local cookie into it.
/// Gives nothing before that.
pub fn rewrite_setup(hs: &[u8], cookie: &[u8]) -> (r: Option<Vec<u8>>)
    ensures
        match r {
            Some(out) => setup_complete(hs@) && out@ == rewritten(hs@, cookie@),
            None => !setup_complete(hs@),
        },
{
    if hs.len() < 12 {
        return None;
    }
    let be = hs[0] == 'B' as u8;
    let name_len: usize = read_u16(hs, 6, be) as usize;
    let data_len: usize = read_u16(hs, 8, be) as usize;
    let total: usize = 12 + pad4(name_len) + pad4(data_len);
    if hs.len() < total {
        return None;
    }
    let name = cookie_name_bytes();
    let mut out: Vec<u8> = Vec::new();
    text::push_bytes(&mut out, slice_subrange(hs, 0, 6));
    assert(out@ =~= hs@.take(6));
    write_u16(&mut out, name.len() as u16, be);
    write_u16(&mut out, (cookie.len() % 0x10000) as u16, be);
    text::push_bytes(&mut out, slice_subrange(hs, 10, 12));
    write_padded(&mut out, name);
    write_padded(&mut out, cookie);
    text::push_bytes(&mut out, slice_subrange(hs, total, hs.len()));
    assert(hs@.subrange(total as int, hs@.len() as int) =~= hs@.skip(total as int));
    Some(out)
}

/// The authorization name of a complete setup packet.
pub open spec fn setup_name(hs: Seq<u8>) -> Seq<u8> {
    hs.subrange(12, 12 + name_len(hs))
}

/// The authorization data of a complete setup packet.
pub open spec fn setup_data(hs: Seq<u8>) -> Seq<u8> {
    let at = 12 + padded(name_len(hs));
    hs.subrange(at, at + data_len(hs))
}

/// What follows a complete setup packet.
pub open spec fn after_setup(hs: Seq<u8>) -> Seq<u8> {
    hs.skip(setup_len(hs))
}

/// The rewritten packet is a complete setup packet of the same client. It
/// names the cookie protocol, carries the local cookie, and what the client
/// sent after its own packet follows unchanged.
pub proof fn law_rewritten_setup_carries_the_cookie(hs: Seq<u8>, cookie: Seq<u8>)
    requires
        setup_complete(hs),
        cookie.len() < 0x10000,
    ensures
        setup_complete(rewritten(hs, cookie)),
        rewritten(hs, cookie).take(6) == hs.take(6),
        setup_name(rewritten(hs, cookie)) == cookie_name(),
        setup_data(rewritten(hs, cookie)) == cookie,
        after_setup(rewritten(hs, cookie)) == after_setup(hs),
{
    let out = rewritten(hs, cookie);
    let be = is_big_endian(hs);
    reveal_strlit("MIT-MAGIC-COOKIE-1");
    let name = cookie_name();
    assert(name.len() == 18);
    let a = hs.take(6);
    let b = bytes_of(18u16, be);
    let c = bytes_of(cookie.len() as u16, be);
    assert(a.len() == 6 && b.len() == 2 && c.len() == 2);
    assert(out[0] == hs[0]);
    assert(out[6] == b[0] && out[7] == b[1]);
    assert(out[8] == c[0] && out[9] == c[1]);
    assert(name_len(out) == 18);
    assert(data_len(out) == cookie.len());
    assert(padded(18) == 20);
    assert(with_padding(name).len() == 20);
    assert(with_padding(cookie).len() == padded(cookie.len() as int));
    assert(setup_len(out) == 32 + padded(cookie.len() as int));
    assert(out.take(6) =~= hs.take(6));
    assert(setup_name(out) =~= name) by {
        assert forall|i: int| 0 <= i < 18 implies out[12 + i] == name[i] by {
            assert(with_padding(name)[i] == name[i]);
        }
    }
    assert(setup_data(out) =~= cookie) by {
        assert forall|i: int| 0 <= i < cookie.len() implies out[32 + i] == cookie[i] by {
            assert(with_padding(cookie)[i] == cookie[i]);
        }
    }
    assert(after_setup(out) =~= after_setup(hs));
}

/// Bytes that arrive after the setup packet are only ever appended: how the
/// stream was cut into pieces makes no difference.
pub proof fn law_later_bytes_follow_the_setup(hs: Seq<u8>, more: Seq<u8>, cookie: Seq<u8>)
    requires
        setup_complete(hs),
    ensures
        setup_complete(hs + more),
        rewritten(hs + more, cookie) == rewritten(hs, cookie) + more,
{
    let all = hs + more;
    assert(all[0] == hs[0] && all[6] == hs[6] && all[7] == hs[7] && all[8] == hs[8] && all[9]
        == hs[9]);
    assert(all.take(6) =~= hs.take(6));
    assert(all.subrange(10, 12) =~= hs.subrange(10, 12));
    assert(all.skip(setup_len(hs)) =~= hs.skip(setup_len(hs)) + more);
    assert(rewritten(all, cookie) =~= rewritten(hs, cookie) + more);
}

// ---------- the local display ----------

/// Why a display text was refused.
pub open spec fn display_error(what: Seq<char>, d: Seq<char>) -> Seq<char> {
    what + text::quoted(d)
}

/// The TCP port of a display number on a host.
pub open spec fn tcp_display(
    host: Seq<char>,
    num: Seq<char>,
    d: Seq<char>,
) -> Result<(XTargetView, Seq<char>), Seq<char>> {
    match text::u16_value(num) {
        None => Err(display_error("bad display number in "@, d)),
        Some(n) => if 6000 + n > 0xffff {
            Err(display_error("display number too large in "@, d))
        } else {
            Ok((XTargetView::Tcp(host, (6000 + n) as u16), num))
        },
    }
}

/// The X server that a display text points at, and the display number. `unix`
/// says whether local displays are sockets in the file system.
pub open spec fn display_target(text: Seq<char>, unix: bool) -> Result<
    (XTargetView, Seq<char>),
    Seq<char>,
> {
    let d = text::trim(text, CharClass::Space);
    let i = text::find(d, CharClass::Colon);
    let host = d.take(i);
    let num = text::leading_digits(d.skip(i + 1));
    if i >= d.len() || num.len() == 0 {
        Err(display_error("cannot parse DISPLAY "@, d))
    } else if host.len() == 0 || host == "unix"@ || host == "localhost"@ {
        if unix {
            Ok((XTargetView::Unix("/tmp/.X11-unix/X"@ + num), num))
        } else {
            tcp_display("127.0.0.1"@, num, d)
        }
    } else {
        tcp_display(host, num, d)
    }
}

/// What a display lookup gave, as texts.
pub open spec fn display_text(r: Result<(XTarget, String), String>) -> Result<
    (XTargetView, Seq<char>),
    Seq<char>,
> {
    match r {
        Ok(p) => Ok((p.0@, p.1@)),
        Err(e) => Err(e@),
    }
}

fn refuse(what: &str, d: &[char]) -> (r: String)
    ensures
        r@ == display_error(what@, d@),
{
    let d = text::string_of(d);
    let mut out: String = what.to_owned();
    out.append(text::quote(d.as_str()).as_str());
    out
}

fn tcp_target(host: String, num: &[char], d: &[char]) -> (r: Result<(XTarget, String), String>)
    ensures
        display_text(r) == tcp_display(host@, num@, d@),
{
    match text::parse_u16(num) {
        None => Err(refuse("bad display number in ", d)),
        Some(n) => if n > 0xffff - 6000 {
            Err(refuse("display number too large in ", d))
        } else {
            Ok((XTarget::Tcp(host, 6000 + n), text::string_of(num)))
        },
    }
}

/// Reads a display text.
pub fn parse_display(d: &str, unix: bool) -> (r: Result<(XTarget, String), String>)
    ensures
        display_text(r) == display_target(d@, unix),
{
    let chars = text::chars_of(d);
    let d = text::trim_class(chars.as_slice(), CharClass::Space);
    let i: usize = text::find_class(d, CharClass::Colon);
    if i >= d.len() {
        return Err(refuse("cannot parse DISPLAY ", d));
    }
    let host = slice_subrange(d, 0, i);
    let rest = slice_subrange(d, i + 1, d.len());
    assert(host@ =~= d@.take(i as int));
    assert(rest@ =~= d@.skip(i + 1));
    let num = text::take_digits(rest);
    if num.len() == 0 {
        return Err(refuse("cannot parse DISPLAY ", d));
    }
    if host.len() == 0 || text::is_word(host, "unix") || text::is_word(host, "localhost") {
        if unix {
            let num = text::string_of(num);
            let mut path: String = "/tmp/.X11-unix/X".to_owned();
            path.append(num.as_str());
            return Ok((XTarget::Unix(path), num));
        }
        return tcp_target("127.0.0.1".to_owned(), num, d);
    }
    tcp_target(text::string_of(host), num, d)
}

/// The display number in the name of an X server socket.
pub open spec fn socket_number(name: Seq<char>) -> Option<Seq<char>> {
    if name.len() > 1 && name[0] == 'X' && text::all_digits(name.skip(1)) {
        Some(name.skip(1))
    } else {
        None
    }
}

/// The first name of an X server socket in a directory listing.
pub open spec fn first_socket(names: Seq<Seq<char>>) -> Option<Seq<char>>
    decreases names.len(),
{
    if names.len() == 0 {
        None
    } else if socket_number(names[0]) is Some {
        Some(names[0])
    } else {
        first_socket(names.drop_first())
    }
}

/// The local X server: the one that the display text names; otherwise the
/// first socket of the socket directory, or the usual port where displays are
/// no sockets.
pub open spec fn local_target(
    display: Option<Seq<char>>,
    sockets: Seq<Seq<char>>,
    unix: bool,
) -> Result<(XTargetView, Seq<char>), Seq<char>> {
    if display is Some && text::trim(display->Some_0, CharClass::Space).len() > 0 {
        display_target(display->Some_0, unix)
    } else if unix {
        match first_socket(sockets) {
            Some(name) => Ok(
                (XTargetView::Unix("/tmp/.X11-unix/"@ + name), name.skip(1)),
            ),
            None => Err("no local X display found (DISPLAY unset, /tmp/.X11-unix empty)"@),
        }
    } else {
        Ok((XTargetView::Tcp("127.0.0.1"@, 6000), "0"@))
    }
}

fn number_of_socket(name: &str) -> (r: Option<String>)
    ensures
        text::opt_text(r) == socket_number(name@),
{
    let chars = text::chars_of(name);
    if chars.len() < 2 || chars[0] != 'X' {
        return None;
    }
    let num = slice_subrange(chars.as_slice(), 1, chars.len());
    assert(num@ =~= name@.skip(1));
    let mut i: usize = 0;
    while i < num.len()
        invariant
            i <= num@.len(),
            num@ == name@.skip(1),
            forall|j: int| 0 <= j < i ==> text::is_digit(#[trigger] num@[j]),
        decreases num@.len() - i,
    {
        if !('0' <= num[i] && num[i] <= '9') {
            assert(!text::is_digit(num@[i as int]));
            return None;
        }
        i += 1;
    }
    Some(text::string_of(num))
}

/// Finds the local X server, given the display text of the environment and
/// the names in the socket directory.
pub fn local_display(display: Option<&str>, sockets: &Vec<String>, unix: bool) -> (r: Result<
    (XTarget, String),
    String,
>)
    ensures
        display_text(r) == local_target(
            match display {
                Some(d) => Some(d@),
                None => None,
            },
            text::texts(sockets@),
            unix,
        ),
{
    if let Some(d) = display {
        let chars = text::chars_of(d);
        if text::trim_class(chars.as_slice(), CharClass::Space).len() > 0 {
            return parse_display(d, unix);
        }
    }
    if !unix {
        return Ok((XTarget::Tcp("127.0.0.1".to_owned(), 6000), "0".to_owned()));
    }
    let ghost all = text::texts(sockets@);
    let mut i: usize = 0;
    assert(all.skip(0) == all);
    while i < sockets.len()
        invariant
            i <= sockets@.len(),
            all == text::texts(sockets@),
            unix,
            display is Some ==> text::trim(display->Some_0@, CharClass::Space).len() == 0,
            first_socket(all.skip(i as int)) == first_socket(all),
        decreases sockets@.len() - i,
    {
        assert(all.skip(i as int)[0] == sockets@[i as int]@);
        assert(all.skip(i as int).drop_first() == all.skip(i + 1));
        if let Some(num) = number_of_socket(sockets[i].as_str()) {
            let mut path: String = "/tmp/.X11-unix/".to_owned();
            path.append(sockets[i].as_str());
            return Ok((XTarget::Unix(path), num));
        }
        i += 1;
    }
    Err("no local X display found (DISPLAY unset, /tmp/.X11-unix empty)".to_owned())
}

// ---------- the authority file ----------

/// One record of an authority file.
pub struct Record {
    pub family: u16,
    pub addr: Seq<u8>,
    pub num: Seq<u8>,
    pub name: Seq<u8>,
    pub cookie: Seq<u8>,
}

/// A 16-bit number, higher byte first, and what follows it.
pub open spec fn u16_then(p: Seq<u8>) -> Option<(u16, Seq<u8>)> {
    if p.len() >= 2 {
        Some((u16_of(p[0], p[1], true), p.skip(2)))
    } else {
        None
    }
}

/// A run of bytes behind its 16-bit length, and what follows it.
pub open spec fn str_then(p: Seq<u8>) -> Option<(Seq<u8>, Seq<u8>)> {
    match u16_then(p) {
        Some((n, rest)) => if n <= rest.len() {
            Some((rest.take(n as int), rest.skip(n as int)))
        } else {
            None
        },
        None => None,
    }
}

/// A record: the family, then the address, the display number, the name of
/// the authorization protocol and its data; and what follows it.
pub open spec fn record_then(p: Seq<u8>) -> Option<(Record, Seq<u8>)> {
    match u16_then(p) {
        Some((family, p1)) => match str_then(p1) {
            Some((addr, p2)) => match str_then(p2) {
                Some((num, p3)) => match str_then(p3) {
                    Some((name, p4)) => match str_then(p4) {
                        Some((cookie, p5)) => Some(
                            (Record { family, addr, num, name, cookie }, p5),
                        ),
                        None => None,
                    },
                    None => None,
                },
                None => None,
            },
            None => None,
        },
        None => None,
    }
}

/// The records of an authority file, up to its end or the first one that is
/// cut short.
pub open spec fn records(p: Seq<u8>) -> Seq<Record>
    decreases p.len(),
{
    match record_then(p) {
        Some((r, rest)) => if rest.len() < p.len() {
            seq![r] + records(rest)
        } else {
            seq![r]
        },
        None => seq![],
    }
}

/// Whether a record holds a cookie for the display.
pub open spec fn is_exact(r: Record, num: Seq<u8>) -> bool {
    r.name == cookie_name() && r.num == num
}

/// Whether a record holds a cookie for every display.
pub open spec fn is_wild(r: Record) -> bool {
    r.name == cookie_name() && r.family == 0xffff
}

/// The cookie of the first record for the display.
pub open spec fn first_exact(rs: Seq<Record>, num: Seq<u8>) -> Option<Seq<u8>>
    decreases rs.len(),
{
    if rs.len() == 0 {
        None
    } else if is_exact(rs[0], num) {
        Some(rs[0].cookie)
    } else {
        first_exact(rs.drop_first(), num)
    }
}

/// The cookie of the first record for every display.
pub open spec fn first_wild(rs: Seq<Record>) -> Option<Seq<u8>>
    decreases rs.len(),
{
    if rs.len() == 0 {
        None
    } else if is_wild(rs[0]) {
        Some(rs[0].cookie)
    } else {
        first_wild(rs.drop_first())
    }
}

/// The cookie of a display: of the first record for it, or else of the first
/// record for every display.
pub open spec fn cookie_of(rs: Seq<Record>, num: Seq<u8>) -> Option<Seq<u8>> {
    match first_exact(rs, num) {
        Some(c) => Some(c),
        None => first_wild(rs),
    }
}

/// Takes a 16-bit number off the front.
pub fn take_u16(p: &mut &[u8]) -> (r: Option<u16>)
    ensures
        match u16_then((*old(p))@) {
            Some((v, rest)) => r == Some(v) && (*final(p))@ == rest,
            None => r is None && (*final(p))@ == (*old(p))@,
        },
{
    let s: &[u8] = *p;
    if s.len() < 2 {
        return None;
    }
    let v: u16 = read_u16(s, 0, true);
    *p = slice_subrange(s, 2, s.len());
    assert((*p)@ =~= s@.skip(2));
    Some(v)
}

/// Takes a run of bytes behind its length off the front. Where the run is cut
/// short, only its length was taken.
pub fn take_str<'a>(p: &mut &'a [u8]) -> (r: Option<&'a [u8]>)
    ensures
        match str_then((*old(p))@) {
            Some((s, rest)) => r is Some && r->Some_0@ == s && (*final(p))@ == rest,
            None => r is None,
        },
{
    let n: usize = match take_u16(p) {
        Some(n) => n as usize,
        None => return None,
    };
    let s: &'a [u8] = *p;
    if s.len() < n {
        return None;
    }
    let b = slice_subrange(s, 0, n);
    *p = slice_subrange(s, n, s.len());
    assert((*p)@ =~= s@.skip(n as int));
    assert(b@ =~= s@.take(n as int));
    Some(b)
}

/// Takes a record off the front.
pub fn read_record<'a>(p: &mut &'a [u8]) -> (r: Option<
    (u16, &'a [u8], &'a [u8], &'a [u8], &'a [u8]),
>)
    ensures
        match record_then((*old(p))@) {
            Some((rec, rest)) => {
                &&& r is Some
                &&& (Record {
                    family: r->Some_0.0,
                    addr: r->Some_0.1@,
                    num: r->Some_0.2@,
                    name: r->Some_0.3@,
                    cookie: r->Some_0.4@,
                }) == rec
                &&& (*final(p))@ == rest
            },
            None => r is None,
        },
{
    let family: u16 = match take_u16(p) {
        Some(v) => v,
        None => return None,
    };
    let addr = match take_str(p) {
        Some(v) => v,
        None => return None,
    };
    let num = match take_str(p) {
        Some(v) => v,
        None => return None,
    };
    let name = match take_str(p) {
        Some(v) => v,
        None => return None,
    };
    let cookie = match take_str(p) {
        Some(v) => v,
        None => return None,
    };
    Some((family, addr, num, name, cookie))
}

/// Finds the cookie of a display in an authority file.
pub fn xauthority_cookie(data: &[u8], display_num: &str) -> (r: Option<Vec<u8>>)
    ensures
        text::opt_bytes(r) == cookie_of(records(data@), vstd::utf8::encode_utf8(display_num@)),
{
    let ghost all = records(data@);
    let ghost num_bytes = vstd::utf8::encode_utf8(display_num@);
    let wanted = display_num.as_bytes();
    let mut p: &[u8] = data;
    let mut wildcard: Option<Vec<u8>> = None;
    loop
        invariant
            all == records(data@),
            num_bytes == vstd::utf8::encode_utf8(display_num@),
            wanted@ == num_bytes,
            first_exact(records(p@), num_bytes) == first_exact(all, num_bytes),
            first_wild(all) == match wildcard {
                Some(w) => Some(w@),
                None => first_wild(records(p@)),
            },
        decreases p@.len(),
    {
        let ghost before = p@;
        match read_record(&mut p) {
            None => {
                return wildcard;
            },
            Some((family, _addr, num, name, cookie)) => {
                proof {
                    lemma_record_shortens(before);
                    let rs = records(before);
                    assert(rs.drop_first() =~= records(p@));
                    assert(rs[0].cookie == cookie@);
                }
                if text::same_bytes(name, cookie_name_bytes()) {
                    if text::same_bytes(num, wanted) {
                        return Some(text::copy_bytes(cookie));
                    }
                    if family == 0xffff && wildcard.is_none() {
                        wildcard = Some(text::copy_bytes(cookie));
                    }
                }
            },
        }
    }
}

proof fn lemma_str_shortens(p: Seq<u8>)
    ensures
        str_then(p) matches Some((s, rest)) ==> rest.len() < p.len(),
{
}

proof fn lemma_record_shortens(p: Seq<u8>)
    ensures
        record_then(p) matches Some((r, rest)) ==> rest.len() < p.len(),
{
    if let Some((family, p1)) = u16_then(p) {
        lemma_str_shortens(p1);
        if let Some((a, p2)) = str_then(p1) {
            lemma_str_shortens(p2);
            if let Some((b, p3)) = str_then(p2) {
                lemma_str_shortens(p3);
                if let Some((c, p4)) = str_then(p3) {
                    lemma_str_shortens(p4);
                }
            }
        }
    }
}

/// The bytes of a record in an authority file.
pub open spec fn record_bytes(r: Record) -> Seq<u8> {
    bytes_of(r.family, true) + str_bytes(r.addr) + str_bytes(r.num) + str_bytes(r.name) + str_bytes(
        r.cookie,
    )
}

/// A run of bytes behind its 16-bit length.
pub open spec fn str_bytes(s: Seq<u8>) -> Seq<u8> {
    bytes_of(s.len() as u16, true) + s
}

proof fn lemma_str_written_is_read(s: Seq<u8>, rest: Seq<u8>)
    requires
        s.len() < 0x10000,
    ensures
        str_then(str_bytes(s) + rest) == Some((s, rest)),
{
    let p = str_bytes(s) + rest;
    let b = bytes_of(s.len() as u16, true);
    assert(p[0] == b[0] && p[1] == b[1]);
    assert(u16_of(p[0], p[1], true) == s.len());
    assert(p.skip(2) =~= s + rest);
    assert((s + rest).take(s.len() as int) =~= s);
    assert((s + rest).skip(s.len() as int) =~= rest);
}

proof fn lemma_regrouped(
    f: Seq<u8>,
    a: Seq<u8>,
    b: Seq<u8>,
    c: Seq<u8>,
    d: Seq<u8>,
    rest: Seq<u8>,
)
    ensures
        (f + a + b + c + d) + rest == f + (a + (b + (c + (d + rest)))),
{
    assert((f + a + b + c + d) + rest =~= f + (a + (b + (c + (d + rest)))));
}

proof fn lemma_number_written_is_read(n: u16, rest: Seq<u8>)
    ensures
        u16_then(bytes_of(n, true) + rest) == Some((n, rest)),
{
    let b = bytes_of(n, true);
    let p = b + rest;
    assert(p[0] == b[0] && p[1] == b[1]);
    assert(u16_of(p[0], p[1], true) == n);
    assert(p.skip(2) =~= rest);
}

proof fn lemma_record_written_is_read(r: Record, rest: Seq<u8>)
    requires
        r.addr.len() < 0x10000,
        r.num.len() < 0x10000,
        r.name.len() < 0x10000,
        r.cookie.len() < 0x10000,
    ensures
        record_then(record_bytes(r) + rest) == Some((r, rest)),
{
    let (a, b) = (str_bytes(r.addr), str_bytes(r.num));
    let (c, d) = (str_bytes(r.name), str_bytes(r.cookie));
    lemma_regrouped(bytes_of(r.family, true), a, b, c, d, rest);
    lemma_number_written_is_read(r.family, a + (b + (c + (d + rest))));
    lemma_str_written_is_read(r.addr, b + (c + (d + rest)));
    lemma_str_written_is_read(r.num, c + (d + rest));
    lemma_str_written_is_read(r.name, d + rest);
    lemma_str_written_is_read(r.cookie, rest);
}

/// A record that was written is read back, and so is what follows it.
pub proof fn law_a_written_record_is_read(r: Record, rest: Seq<u8>)
    requires
        r.addr.len() < 0x10000,
        r.num.len() < 0x10000,
        r.name.len() < 0x10000,
        r.cookie.len() < 0x10000,
    ensures
        record_then(record_bytes(r) + rest) == Some((r, rest)),
        records(record_bytes(r) + rest) == seq![r] + records(rest),
{
    lemma_record_written_is_read(r, rest);
    lemma_record_shortens(record_bytes(r) + rest);
}

/// A cookie for the display itself is preferred to one for every display.
pub proof fn law_an_exact_cookie_wins(rs: Seq<Record>, num: Seq<u8>, i: int)
    requires
        0 <= i < rs.len(),
        is_exact(rs[i], num),
    ensures
        exists|j: int|
            0 <= j < rs.len() && #[trigger] is_exact(rs[j], num) && cookie_of(rs, num) == Some(
                rs[j].cookie,
            ),
    decreases rs.len(),
{
    if !is_exact(rs[0], num) {
        let rest = rs.drop_first();
        assert(rest[i - 1] == rs[i]);
        law_an_exact_cookie_wins(rest, num, i - 1);
        let j = choose|j: int|
            0 <= j < rest.len() && #[trigger] is_exact(rest[j], num) && cookie_of(rest, num)
                == Some(rest[j].cookie);
        assert(rs[j + 1] == rest[j]);
        lemma_exact_found(rest, num, i - 1);
        assert(is_exact(rs[j + 1], num));
    } else {
        assert(is_exact(rs[0], num));
    }
}

proof fn lemma_exact_found(rs: Seq<Record>, num: Seq<u8>, i: int)
    requires
        0 <= i < rs.len(),
        is_exact(rs[i], num),
    ensures
        first_exact(rs, num) is Some,
    decreases rs.len(),
{
    if !is_exact(rs[0], num) {
        assert(rs.drop_first()[i - 1] == rs[i]);
        lemma_exact_found(rs.drop_first(), num, i - 1);
    }
}

// ---------- the forward ----------

/// What to tell the shell and the user about a forwarded display.
pub struct Forward {
    /// The display that remote programs connect to.
    pub display: String,
    /// What to type into the shell.
    pub command: String,
    /// What to tell the user.
    pub note: String,
}

/// The display that a remote port stands for.
pub open spec fn remote_display(port: u16) -> Seq<char> {
    "127.0.0.1:"@ + text::dec((port - 6000) as nat) + ".0"@
}

/// Makes a forwarded display known, given the port that the server bound. A
/// port at or below that of display 0 is refused.
pub fn forward_display(port: u16, num: &str) -> (r: Result<Forward, String>)
    ensures
        match r {
            Ok(f) => {
                let d = remote_display(port);
                &&& port > 6000
                &&& f.display@ == d
                &&& f.command@ == "export DISPLAY="@ + d + "\n"@
                &&& f.note@ == "forwarding remote 127.0.0.1:"@ + text::dec(port as nat)
                    + " to local :"@ + num@ + " (DISPLAY="@ + d + ")"@
            },
            Err(e) => port <= 6000 && e@ == "server bound unexpected port "@ + text::dec(
                port as nat,
            ),
        },
{
    if port <= 6000 {
        let mut e: String = "server bound unexpected port ".to_owned();
        e.append(text::decimal(port as u64).as_str());
        return Err(e);
    }
    let mut display: String = "127.0.0.1:".to_owned();
    display.append(text::decimal((port - 6000) as u64).as_str());
    display.append(".0");
    let mut command: String = "export DISPLAY=".to_owned();
    command.append(display.as_str());
    command.append("\n");
    let mut note: String = "forwarding remote 127.0.0.1:".to_owned();
    note.append(text::decimal(port as u64).as_str());
    note.append(" to local :");
    note.append(num);
    note.append(" (DISPLAY=");
    note.append(display.as_str());
    note.append(")");
    Ok(Forward { display, command, note })
}

/// A notice about X11 forwarding as it appears in the terminal.
pub fn notice(msg: &str) -> (r: String)
    ensures
        r@ == "\r\n\x1b[33m[x11] "@ + msg@ + "\x1b[0m\r\n"@,
{
    let mut out: String = "\r\n\x1b[33m[x11] ".to_owned();
    out.append(msg);
    out.append("\x1b[0m\r\n");
    out
}

/// Says that the server refused to forward a display.
pub fn refused(error: &str) -> (r: String)
    ensures
        r@ == "remote forwarding refused by server: "@ + error@,
{
    let mut out: String = "remote forwarding refused by server: ".to_owned();
    out.append(error);
    out
}

/// Says that a display could not be forwarded.
pub fn unavailable(error: &str) -> (r: String)
    ensures
        r@ == "forwarding unavailable: "@ + error@,
{
    let mut out: String = "forwarding unavailable: ".to_owned();
    out.append(error);
    out
}

// ---------- laws ----------

/// Padding makes a length a multiple of four, and adds no more than needed.
pub proof fn law_padding_reaches_a_multiple_of_four(n: int)
    requires
        n >= 0,
    ensures
        padded(n) % 4 == 0,
        n <= padded(n) < n + 4,
{
}

/// The byte order is that of the client: `B` puts the larger byte first, any
/// other letter the smaller one; the lengths of name and data are read so.
pub proof fn law_lengths_follow_the_byte_order(hs: Seq<u8>)
    requires
        hs.len() >= 12,
    ensures
        hs[0] == 0x42 ==> name_len(hs) == hs[6] * 256 + hs[7] && data_len(hs) == hs[8] * 256
            + hs[9],
        hs[0] != 0x42 ==> name_len(hs) == hs[7] * 256 + hs[6] && data_len(hs) == hs[9] * 256
            + hs[8],
        setup_complete(hs) <==> hs.len() >= 12 + padded(name_len(hs)) + padded(data_len(hs)),
{
    assert('B' as u8 == 0x42);
}

/// What is put in is the usual name, the cookie and their lengths, padded with
/// zeros; the version before the lengths, the two bytes behind them and all
/// that follows the setup stay as they were.
pub proof fn law_only_name_and_data_are_rewritten(hs: Seq<u8>, cookie: Seq<u8>, i: int)
    requires
        setup_complete(hs),
        cookie.len() < 0x10000,
    ensures
        ({
            let out = rewritten(hs, cookie);
            let end = 32 + padded(cookie.len() as int);
            &&& 0 <= i < 6 ==> out[i] == hs[i]
            &&& 10 <= i < 12 ==> out[i] == hs[i]
            &&& out.len() == end + hs.len() - setup_len(hs)
            &&& 30 <= i < 32 ==> out[i] == 0
            &&& 32 + cookie.len() <= i < end ==> out[i] == 0
            &&& 32 <= i < 32 + cookie.len() ==> out[i] == cookie[i - 32]
            &&& out.skip(end) == hs.skip(setup_len(hs))
        }),
{
    reveal_strlit("MIT-MAGIC-COOKIE-1");
    let out = rewritten(hs, cookie);
    let end = 32 + padded(cookie.len() as int);
    assert(cookie_name().len() == 18);
    assert(with_padding(cookie_name()).len() == 20);
    assert(with_padding(cookie).len() == padded(cookie.len() as int));
    assert(out.skip(end) =~= hs.skip(setup_len(hs)));
}

proof fn lemma_cookie_name()
    ensures
        cookie_name() == text::utf8("MIT-MAGIC-COOKIE-1"@),
{
    reveal_strlit("MIT-MAGIC-COOKIE-1");
    let s = "MIT-MAGIC-COOKIE-1"@;
    assert(vstd::utf8::is_ascii_chars(s));
    vstd::utf8::is_ascii_chars_encode_utf8(s);
    assert(cookie_name() =~= text::utf8(s));
}

/// A display is a host, a colon and a number; a screen behind it is passed
/// over, and so are spaces round it. Without a host, or with one that means
/// this machine, it is the socket of that number, or the local port where
/// there are no sockets; with a host it is that host's port, counted from 6000.
pub proof fn law_a_display_is_a_host_and_a_number(
    left: Seq<char>,
    host: Seq<char>,
    num: Seq<char>,
    screen: Seq<char>,
    right: Seq<char>,
    unix: bool,
)
    requires
        text::all_spaces(left),
        text::all_spaces(right),
        forall|i: int| 0 <= i < host.len() ==> #[trigger] host[i] != ':',
        host.len() > 0 ==> !text::is_space(host[0]),
        num.len() > 0,
        text::all_digits(num),
        screen.len() > 0 ==> !text::is_digit(screen[0]) && !text::is_space(screen.last()),
    ensures
        ({
            let d = host + seq![':'] + num + screen;
            let r = display_target(left + d + right, unix);
            let here = host.len() == 0 || host == "unix"@ || host == "localhost"@;
            let at = if here {
                "127.0.0.1"@
            } else {
                host
            };
            let n = text::dec_value(num);
            &&& here && unix ==> r == Ok::<_, Seq<char>>(
                (XTargetView::Unix("/tmp/.X11-unix/X"@ + num), num),
            )
            &&& !(here && unix) && n <= 59535 ==> r == Ok::<_, Seq<char>>(
                (XTargetView::Tcp(at, (6000 + n) as u16), num),
            )
            &&& !(here && unix) && 59535 < n <= 65535 ==> r == Err::<
                (XTargetView, Seq<char>),
                _,
            >("display number too large in "@ + text::quoted(d))
            &&& !(here && unix) && n > 65535 ==> r == Err::<(XTargetView, Seq<char>), _>(
                "bad display number in "@ + text::quoted(d),
            )
        }),
{
    let d = host + seq![':'] + num + screen;
    let (sp, co) = (CharClass::Space, CharClass::Colon);
    assert forall|i: int| 0 <= i < left.len() implies text::in_class(sp, #[trigger] left[i]) by {
        assert(text::is_space(left[i]));
    }
    assert forall|i: int| 0 <= i < right.len() implies text::in_class(sp, #[trigger] right[i]) by {
        assert(text::is_space(right[i]));
    }
    if host.len() > 0 {
        assert(d[0] == host[0]);
    }
    if screen.len() > 0 {
        assert(d.last() == screen.last());
    } else {
        assert(d.last() == num.last());
        assert(text::is_digit(num[num.len() - 1]));
    }
    text::law_trimming_takes_only_the_ends(left, d, right, sp);
    let i = host.len() as int;
    assert forall|j: int| 0 <= j < i implies !text::in_class(co, #[trigger] d[j]) by {
        assert(d[j] == host[j]);
    }
    text::lemma_find_is(d, co, i);
    assert(d.take(i) =~= host);
    assert(d.skip(i + 1) =~= num + screen);
    text::law_leading_digits_stop_at_the_first_other(num, screen);
    assert(text::is_digit(num[0]));
    assert(text::after_plus(num) == num);
}

/// A text without a colon, or without a number right behind the first one, is
/// no display.
pub proof fn law_other_texts_are_no_display(raw: Seq<char>, d: Seq<char>, i: int, unix: bool)
    requires
        text::trim(raw, CharClass::Space) == d,
        0 <= i <= d.len(),
        forall|j: int| 0 <= j < i ==> #[trigger] d[j] != ':',
        i < d.len() ==> d[i] == ':' && (i + 1 == d.len() || !text::is_digit(d[i + 1])),
    ensures
        display_target(raw, unix) == Err::<(XTargetView, Seq<char>), _>(
            "cannot parse DISPLAY "@ + text::quoted(d),
        ),
{
    let co = CharClass::Colon;
    assert forall|j: int| 0 <= j < i implies !text::in_class(co, #[trigger] d[j]) by {}
    text::lemma_find_is(d, co, i);
    if i < d.len() {
        let t = d.skip(i + 1);
        let none = Seq::<char>::empty();
        assert(none + t =~= t);
        if t.len() > 0 {
            assert(t[0] == d[i + 1]);
        }
        text::law_leading_digits_stop_at_the_first_other(none, t);
    }
}

/// A socket of a display is named `X` and a number. The first one that is there
/// is taken, and none if none is there.
pub proof fn law_the_first_socket_is_taken(names: Seq<Seq<char>>, i: int, num: Seq<char>)
    requires
        0 <= i <= names.len(),
        forall|j: int| 0 <= j < i ==> socket_number(#[trigger] names[j]) is None,
        i < names.len() ==> num.len() > 0 && text::all_digits(num) && names[i] == seq!['X'] + num,
    ensures
        i < names.len() ==> first_socket(names) == Some(seq!['X'] + num) && socket_number(names[i])
            == Some(num),
        i == names.len() ==> first_socket(names) is None,
    decreases names.len(),
{
    if i == 0 {
        if names.len() > 0 {
            assert(names[0].skip(1) =~= num);
        }
    } else {
        assert(socket_number(names[0]) is None);
        let rest = names.drop_first();
        assert forall|j: int| 0 <= j < i - 1 implies socket_number(#[trigger] rest[j]) is None by {
            assert(rest[j] == names[j + 1]);
        }
        if i < names.len() {
            assert(rest[i - 1] == names[i]);
        }
        law_the_first_socket_is_taken(rest, i - 1, num);
    }
}

/// A name that is not `X` and digits is no socket of a display.
pub proof fn law_other_names_are_no_sockets(name: Seq<char>, i: int)
    ensures
        name.len() < 2 ==> socket_number(name) is None,
        name.len() > 0 && name[0] != 'X' ==> socket_number(name) is None,
        0 < i < name.len() && !text::is_digit(name[i]) ==> socket_number(name) is None,
{
    if 0 < i < name.len() && !text::is_digit(name[i]) {
        assert(name.skip(1)[i - 1] == name[i]);
    }
}

/// The display that the environment names is used; where it names none, the
/// first socket, or display 0 where there are no sockets.
pub proof fn law_the_environment_names_the_display(
    display: Seq<char>,
    sockets: Seq<Seq<char>>,
    unix: bool,
)
    ensures
        !text::all_spaces(display) ==> local_target(Some(display), sockets, unix)
            == display_target(display, unix),
        text::all_spaces(display) ==> local_target(Some(display), sockets, unix) == local_target(
            None,
            sockets,
            unix,
        ),
        local_target(None, sockets, false) == Ok::<_, Seq<char>>(
            (XTargetView::Tcp("127.0.0.1"@, 6000), "0"@),
        ),
        first_socket(sockets) is None ==> local_target(None, sockets, true) == Err::<
            (XTargetView, Seq<char>),
            _,
        >("no local X display found (DISPLAY unset, /tmp/.X11-unix empty)"@),
        first_socket(sockets) is Some ==> local_target(None, sockets, true) == Ok::<_, Seq<char>>(
            (
                XTargetView::Unix("/tmp/.X11-unix/"@ + first_socket(sockets)->Some_0),
                first_socket(sockets)->Some_0.skip(1),
            ),
        ),
{
    text::law_only_spaces_trim_to_nothing(display);
}

/// A record counts for a display by its number, or for all by its family, and
/// only under the usual name.
pub proof fn law_a_record_counts_by_number_or_family(r: Record, num: Seq<u8>)
    ensures
        is_exact(r, num) <==> r.name == text::utf8("MIT-MAGIC-COOKIE-1"@) && r.num == num,
        is_wild(r) <==> r.name == text::utf8("MIT-MAGIC-COOKIE-1"@) && r.family == 65535,
{
    lemma_cookie_name();
}

/// The first record for the display gives the cookie. Without one, the first
/// for all displays does, and without that there is none.
pub proof fn law_the_first_record_gives_the_cookie(rs: Seq<Record>, num: Seq<u8>, i: int)
    requires
        0 <= i <= rs.len(),
    ensures
        (forall|j: int| 0 <= j < i ==> !is_exact(#[trigger] rs[j], num)) && i < rs.len()
            && is_exact(rs[i], num) ==> cookie_of(rs, num) == Some(rs[i].cookie),
        (forall|j: int| 0 <= j < rs.len() ==> !is_exact(#[trigger] rs[j], num)) && (forall|j: int|
            0 <= j < i ==> !is_wild(#[trigger] rs[j])) && i < rs.len() && is_wild(rs[i])
            ==> cookie_of(rs, num) == Some(rs[i].cookie),
        (forall|j: int|
            0 <= j < rs.len() ==> !is_exact(#[trigger] rs[j], num) && !is_wild(rs[j]))
            ==> cookie_of(rs, num) is None,
{
    if (forall|j: int| 0 <= j < i ==> !is_exact(#[trigger] rs[j], num)) && i < rs.len() && is_exact(
        rs[i],
        num,
    ) {
        lemma_first_exact(rs, num, i);
    }
    if forall|j: int| 0 <= j < rs.len() ==> !is_exact(#[trigger] rs[j], num) {
        lemma_first_exact(rs, num, rs.len() as int);
    }
    if (forall|j: int| 0 <= j < i ==> !is_wild(#[trigger] rs[j])) && i < rs.len() && is_wild(rs[i]) {
        lemma_first_wild(rs, i);
    }
    if forall|j: int|
        0 <= j < rs.len() ==> !is_exact(#[trigger] rs[j], num) && !is_wild(rs[j]) {
        assert forall|j: int| 0 <= j < rs.len() implies !is_wild(#[trigger] rs[j]) by {
            assert(!is_exact(rs[j], num));
        }
        lemma_first_wild(rs, rs.len() as int);
    }
}

proof fn lemma_first_exact(rs: Seq<Record>, num: Seq<u8>, i: int)
    requires
        0 <= i <= rs.len(),
        forall|j: int| 0 <= j < i ==> !is_exact(#[trigger] rs[j], num),
        i < rs.len() ==> is_exact(rs[i], num),
    ensures
        i < rs.len() ==> first_exact(rs, num) == Some(rs[i].cookie),
        i == rs.len() ==> first_exact(rs, num) is None,
    decreases rs.len(),
{
    if i > 0 {
        assert(!is_exact(rs[0], num));
        let rest = rs.drop_first();
        assert forall|j: int| 0 <= j < i - 1 implies !is_exact(#[trigger] rest[j], num) by {
            assert(rest[j] == rs[j + 1]);
        }
        if i < rs.len() {
            assert(rest[i - 1] == rs[i]);
        }
        lemma_first_exact(rest, num, i - 1);
    }
}

proof fn lemma_first_wild(rs: Seq<Record>, i: int)
    requires
        0 <= i <= rs.len(),
        forall|j: int| 0 <= j < i ==> !is_wild(#[trigger] rs[j]),
        i < rs.len() ==> is_wild(rs[i]),
    ensures
        i < rs.len() ==> first_wild(rs) == Some(rs[i].cookie),
        i == rs.len() ==> first_wild(rs) is None,
    decreases rs.len(),
{
    if i > 0 {
        assert(!is_wild(rs[0]));
        let rest = rs.drop_first();
        assert forall|j: int| 0 <= j < i - 1 implies !is_wild(#[trigger] rest[j]) by {
            assert(rest[j] == rs[j + 1]);
        }
        if i < rs.len() {
            assert(rest[i - 1] == rs[i]);
        }
        lemma_first_wild(rest, i - 1);
    }
}

/// Texts in a record have their length before them in two bytes, the larger one
/// first; what breaks off is no record, and nothing is read behind it.
pub proof fn law_a_record_that_breaks_off_is_none(p: Seq<u8>, text: Seq<u8>, rest: Seq<u8>)
    ensures
        p.len() < 2 ==> records(p).len() == 0 && str_then(p) is None,
        text.len() < 0x10000 ==> str_then(
            seq![(text.len() / 256) as u8, (text.len() % 256) as u8] + text + rest,
        ) == Some((text, rest)),
        p.len() >= 2 && p[0] * 256 + p[1] > p.len() - 2 ==> str_then(p) is None,
{
    if text.len() < 0x10000 {
        let n = text.len() as u16;
        let b = seq![(text.len() / 256) as u8, (text.len() % 256) as u8];
        let all = b + text + rest;
        assert(all[0] == b[0] && all[1] == b[1]);
        assert((text.len() / 256) as u8 == text.len() / 256);
        assert(u16_of(all[0], all[1], true) == n);
        assert(all.skip(2).take(n as int) =~= text);
        assert(all.skip(2).skip(n as int) =~= rest);
    }
}

/// A remote display is on the far side's own address, and its number is the
/// port's, counted from 6000.
pub proof fn law_a_remote_display_is_its_port(port: u16)
    requires
        port > 6000,
    ensures
        remote_display(port) == "127.0.0.1:"@ + text::dec((port - 6000) as nat) + ".0"@,
{
}

/// A display stands for its socket or its address.
pub proof fn law_a_display_stands_for_where_it_is(t: XTarget)
    ensures
        match t {
            XTarget::Unix(p) => t@ == XTargetView::Unix(p@),
            XTarget::Tcp(h, n) => t@ == XTargetView::Tcp(h@, n),
        },
{
}

} // verus!
