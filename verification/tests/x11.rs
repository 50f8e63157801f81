use ssh_workspace::splice::{Action, Event, Splice};
use ssh_workspace::x11::{
    forward_display, local_display, notice, pad4, parse_display, read_record, refused,
    rewrite_setup, take_str, take_u16, unavailable, xauthority_cookie, XTarget,
};

fn setup(order: u8, name: &[u8], data: &[u8], rest: &[u8]) -> Vec<u8> {
    let w = |n: usize| -> [u8; 2] {
        if order == b'B' {
            (n as u16).to_be_bytes()
        } else {
            (n as u16).to_le_bytes()
        }
    };
    let mut p = vec![order, 0];
    p.extend_from_slice(&w(11));
    p.extend_from_slice(&w(0));
    p.extend_from_slice(&w(name.len()));
    p.extend_from_slice(&w(data.len()));
    p.extend_from_slice(&[0, 0]);
    p.extend_from_slice(name);
    p.resize(12 + pad4(name.len()), 0);
    p.extend_from_slice(data);
    p.resize(12 + pad4(name.len()) + pad4(data.len()), 0);
    p.extend_from_slice(rest);
    p
}

const NAME: &[u8] = b"MIT-MAGIC-COOKIE-1";

fn record(family: u16, num: &[u8], name: &[u8], cookie: &[u8]) -> Vec<u8> {
    let mut r = family.to_be_bytes().to_vec();
    for s in [b"addr" as &[u8], num, name, cookie] {
        r.extend_from_slice(&(s.len() as u16).to_be_bytes());
        r.extend_from_slice(s);
    }
    r
}

#[test]
fn padding_goes_to_the_next_four() {
    assert_eq!([0, 1, 3, 4, 5, 16].map(pad4), [0, 4, 4, 4, 8, 16]);
}

#[test]
fn a_setup_packet_gets_the_local_cookie() {
    let cookie = [7u8; 16];
    for order in [b'B', b'l'] {
        let packet = setup(order, b"XX", b"remote", b"tail");
        assert_eq!(
            rewrite_setup(&packet, &cookie),
            Some(setup(order, NAME, &cookie, b"tail"))
        );
        assert_eq!(rewrite_setup(&setup(order, b"", b"", b""), &cookie), Some(setup(order, NAME, &cookie, b"")));
        for n in 0..packet.len() - 4 {
            assert_eq!(rewrite_setup(&packet[..n], &cookie), None, "{n}");
        }
    }
}

#[test]
fn displays_are_parsed() {
    let unix = |d: &str| parse_display(d, true);
    match unix(":0").unwrap() {
        (XTarget::Unix(p), n) => assert_eq!((p.as_str(), n.as_str()), ("/tmp/.X11-unix/X0", "0")),
        _ => panic!("not a socket"),
    }
    match unix(" unix:12.0 ").unwrap() {
        (XTarget::Unix(p), n) => assert_eq!((p.as_str(), n.as_str()), ("/tmp/.X11-unix/X12", "12")),
        _ => panic!("not a socket"),
    }
    match unix("10.0.0.2:1.0").unwrap() {
        (XTarget::Tcp(h, p), n) => assert_eq!((h.as_str(), p, n.as_str()), ("10.0.0.2", 6001, "1")),
        _ => panic!("not a host"),
    }
    match parse_display("localhost:2", false).unwrap() {
        (XTarget::Tcp(h, p), n) => assert_eq!((h.as_str(), p, n.as_str()), ("127.0.0.1", 6002, "2")),
        _ => panic!("not a host"),
    }
    assert_eq!(unix("nothing").err(), Some("cannot parse DISPLAY \"nothing\"".to_string()));
    assert_eq!(unix("a\"b:").err(), Some("cannot parse DISPLAY \"a\\\"b:\"".to_string()));
    assert_eq!(unix("h:70000").err(), Some("bad display number in \"h:70000\"".to_string()));
    assert_eq!(unix("h:60000").err(), Some("display number too large in \"h:60000\"".to_string()));
}

#[test]
fn the_local_display_is_found() {
    let none: Vec<String> = vec![];
    let socks = vec!["Xwayland".to_string(), "X".to_string(), "X1".to_string(), "X0".to_string()];
    match local_display(None, &socks, true).unwrap() {
        (XTarget::Unix(p), n) => assert_eq!((p.as_str(), n.as_str()), ("/tmp/.X11-unix/X1", "1")),
        _ => panic!("not a socket"),
    }
    match local_display(Some("h:3"), &socks, true).unwrap() {
        (XTarget::Tcp(_, p), _) => assert_eq!(p, 6003),
        _ => panic!("not a host"),
    }
    assert_eq!(
        local_display(Some(" "), &none, true).err(),
        Some("no local X display found (DISPLAY unset, /tmp/.X11-unix empty)".to_string())
    );
    match local_display(None, &none, false).unwrap() {
        (XTarget::Tcp(h, p), n) => assert_eq!((h.as_str(), p, n.as_str()), ("127.0.0.1", 6000, "0")),
        _ => panic!("not a host"),
    }
}

#[test]
fn cookies_are_found() {
    let mut data = record(0xffff, b"9", NAME, b"any");
    data.extend(record(0, b"0", b"OTHER", b"no"));
    data.extend(record(0xffff, b"8", NAME, b"later"));
    data.extend(record(256, b"0", NAME, b"exact"));
    assert_eq!(xauthority_cookie(&data, "0"), Some(b"exact".to_vec()));
    assert_eq!(xauthority_cookie(&data, "5"), Some(b"any".to_vec()));
    assert_eq!(xauthority_cookie(&record(0, b"1", NAME, b"c"), "0"), None);
    assert_eq!(xauthority_cookie(b"", "0"), None);
    assert_eq!(xauthority_cookie(&data[..data.len() - 1], "0"), Some(b"any".to_vec()));
}

#[test]
fn records_are_read_one_by_one() {
    let data = record(256, b"0", b"n", b"c");
    let mut p: &[u8] = &data;
    assert_eq!(
        read_record(&mut p),
        Some((256, b"addr" as &[u8], b"0" as &[u8], b"n" as &[u8], b"c" as &[u8]))
    );
    assert!(p.is_empty());
    assert_eq!(read_record(&mut p), None);
    let mut q: &[u8] = &[0, 2, b'a', b'b', b'c'];
    assert_eq!(take_str(&mut q), Some(b"ab" as &[u8]));
    assert_eq!(take_u16(&mut q), None);
    let mut s: &[u8] = &[0, 9, 1];
    assert_eq!(take_str(&mut s), None);
}

#[test]
fn a_display_is_forwarded() {
    let f = forward_display(6012, "0").unwrap();
    assert_eq!(f.display, "127.0.0.1:12.0");
    assert_eq!(f.command, "export DISPLAY=127.0.0.1:12.0\n");
    assert_eq!(f.note, "forwarding remote 127.0.0.1:6012 to local :0 (DISPLAY=127.0.0.1:12.0)");
    assert_eq!(forward_display(6000, "0").err(), Some("server bound unexpected port 6000".into()));
    assert_eq!(notice("m"), "\r\n\x1b[33m[x11] m\x1b[0m\r\n");
    assert_eq!(refused("e"), "remote forwarding refused by server: e");
    assert_eq!(unavailable("e"), "forwarding unavailable: e");
}

/// Runs a connection against scripted ends; each write takes three bytes.
fn splice(mut s: Splice, chan: &mut Vec<Vec<u8>>, stream: &mut Vec<Vec<u8>>) -> (Vec<u8>, Vec<u8>) {
    let (mut to_stream, mut to_chan) = (vec![], vec![]);
    for _ in 0..10000 {
        let e = match s.next() {
            Action::CheckAlive => Event::Answer(true),
            Action::CheckChannelEnd => Event::Answer(chan.is_empty()),
            Action::ReadChannel => Event::Read(chan.remove(0)),
            Action::ReadStream => {
                if stream.is_empty() {
                    Event::Read(vec![])
                } else {
                    Event::Read(stream.remove(0))
                }
            }
            Action::WriteStream => {
                let n = s.to_stream().len().min(3);
                to_stream.extend_from_slice(&s.to_stream()[..n]);
                Event::Wrote(n)
            }
            Action::WriteChannel => {
                let n = s.to_channel().len().min(3);
                to_chan.extend_from_slice(&s.to_channel()[..n]);
                Event::Wrote(n)
            }
            Action::Sleep => Event::Slept,
            Action::Stop => return (to_stream, to_chan),
        };
        s.step(e);
    }
    panic!("does not stop");
}

#[test]
fn bytes_go_both_ways() {
    let mut chan = vec![b"hello ".to_vec(), b"world".to_vec()];
    let mut stream = vec![b"GET".to_vec(), b" / HTTP".to_vec()];
    let (a, b) = splice(Splice::new(), &mut chan, &mut stream);
    assert_eq!(a, b"hello world");
    assert_eq!(b, b"GET / HTTP");
}

#[test]
fn the_first_packet_is_rewritten_on_its_way() {
    let packet = setup(b'l', b"XX", b"remote", b"draw");
    let mut chan: Vec<Vec<u8>> = packet.chunks(5).map(|c| c.to_vec()).collect();
    let s = Splice::with_cookie(Some(b"0123456789abcdef".to_vec()));
    let (a, _) = splice(s, &mut chan, &mut vec![]);
    assert_eq!(a, setup(b'l', NAME, b"0123456789abcdef", b"draw"));
    let mut chan: Vec<Vec<u8>> = packet.chunks(5).map(|c| c.to_vec()).collect();
    let (a, _) = splice(Splice::with_cookie(None), &mut chan, &mut vec![]);
    assert_eq!(a, packet);
}

/// Runs a connection whose one side is at its end while the other is open and
/// silent, and says whether it stops and what got through.
fn one_side(mut s: Splice, channel_ends: bool) -> (bool, Vec<u8>, Vec<u8>) {
    let (mut to_stream, mut to_chan) = (vec![], vec![]);
    let (mut chan, mut stream) = (vec![b"from afar".to_vec()], vec![b"from here".to_vec()]);
    for _ in 0..1000 {
        let e = match s.next() {
            Action::CheckAlive => Event::Answer(true),
            Action::CheckChannelEnd => Event::Answer(chan.is_empty() && channel_ends),
            Action::ReadChannel if chan.is_empty() => Event::WouldBlock,
            Action::ReadChannel => Event::Read(chan.remove(0)),
            Action::ReadStream if !stream.is_empty() => Event::Read(stream.remove(0)),
            Action::ReadStream if channel_ends => Event::WouldBlock,
            Action::ReadStream => Event::Read(vec![]),
            Action::WriteStream => {
                to_stream.push(s.to_stream()[0]);
                Event::Wrote(1)
            }
            Action::WriteChannel => {
                to_chan.push(s.to_channel()[0]);
                Event::Wrote(1)
            }
            Action::Sleep => Event::Slept,
            Action::Stop => return (true, to_stream, to_chan),
        };
        s.step(e);
    }
    (false, to_stream, to_chan)
}

#[test]
fn a_connection_ends_with_either_side() {
    let all = (b"from afar".to_vec(), b"from here".to_vec());
    let (stops, a, b) = one_side(Splice::new(), true);
    assert_eq!((stops, (a, b)), (true, all.clone()));
    let (stops, a, b) = one_side(Splice::new(), false);
    assert_eq!((stops, (a, b)), (true, all));
}

#[test]
fn a_display_connection_ends_with_both_sides() {
    let all = (b"from afar".to_vec(), b"from here".to_vec());
    let (stops, a, b) = one_side(Splice::with_cookie(None), true);
    assert_eq!((stops, (a, b)), (false, all.clone()));
    let (stops, a, b) = one_side(Splice::with_cookie(None), false);
    assert_eq!((stops, (a, b)), (false, all));
    let (mut chan, mut stream) = (vec![b"from afar".to_vec()], vec![b"from here".to_vec()]);
    let (a, b) = splice(Splice::with_cookie(None), &mut chan, &mut stream);
    assert_eq!((a, b), (b"from afar".to_vec(), b"from here".to_vec()));
}

#[test]
fn what_waits_goes_out_before_the_end() {
    let mut s = Splice::new();
    s.step(Event::Answer(true));
    s.step(Event::Answer(false));
    s.step(Event::Read(b"late".to_vec()));
    s.step(Event::WouldBlock);
    assert_eq!(s.next(), Action::WriteStream);
    s.step(Event::WouldBlock);
    s.step(Event::Answer(true));
    assert_eq!(s.next(), Action::CheckAlive);
    assert_eq!(s.to_stream().as_slice(), b"late");
}

#[test]
fn a_connection_ends_with_its_session() {
    let mut s = Splice::new();
    s.step(Event::Answer(false));
    assert_eq!(s.next(), Action::Stop);
    let mut s = Splice::new();
    s.step(Event::Answer(true));
    s.step(Event::Answer(false));
    s.step(Event::Failed);
    assert_eq!(s.next(), Action::Stop);
}
