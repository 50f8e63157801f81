use ssh_workspace::socks::{
    accept_reply, confirm_reply, ipv4, ipv6, socks5_target, Handshake, SocksAction, SocksEvent,
};

fn v6(groups: [u16; 8]) -> String {
    let mut a: Vec<u8> = Vec::new();
    for g in groups {
        a.extend_from_slice(&g.to_be_bytes());
    }
    ipv6(&a)
}

fn error(input: &[u8]) -> (String, Vec<u8>) {
    let (r, told) = socks5_target(input);
    (r.unwrap_err(), told)
}

#[test]
fn socks5_ipv4_connect() {
    // greeting: v5, 1 method (no-auth); request: CONNECT 1.2.3.4:80
    let req = [5, 1, 0, 5, 1, 0, 1, 1, 2, 3, 4, 0, 80];
    let (res, reply) = socks5_target(&req);
    let (host, port) = res.unwrap();
    assert_eq!(host, "1.2.3.4");
    assert_eq!(port, 80);
    // method pick [5,0] + success reply [5,0,0,1,0,0,0,0,0,0]
    assert_eq!(reply, vec![5, 0, 5, 0, 0, 1, 0, 0, 0, 0, 0, 0]);
}

#[test]
fn socks5_domain_connect() {
    let mut req = vec![5, 1, 0, 5, 1, 0, 3, 11];
    req.extend_from_slice(b"example.com");
    req.extend_from_slice(&443u16.to_be_bytes());
    let (res, _) = socks5_target(&req);
    let (host, port) = res.unwrap();
    assert_eq!(host, "example.com");
    assert_eq!(port, 443);
}

#[test]
fn socks5_rejects_auth_only_client() {
    // Client offers only method 2 (user/pass) — no no-auth method.
    let (res, _) = socks5_target(&[5, 1, 2]);
    assert!(res.is_err());
}

#[test]
fn socks5_rejects_wrong_version() {
    let (res, _) = socks5_target(&[4, 1, 0]);
    assert!(res.is_err());
}

#[test]
fn socks5_refusals_have_their_words() {
    assert_eq!(error(&[4, 1, 0]), ("not a SOCKS5 greeting".to_string(), vec![]));
    assert_eq!(error(&[5, 1, 2]), ("client requires authentication".to_string(), vec![]));
    assert_eq!(error(&[5, 0]), ("client requires authentication".to_string(), vec![]));
    assert_eq!(
        error(&[5, 1, 0, 5, 2, 0, 1]),
        ("only CONNECT is supported".to_string(), vec![5, 0])
    );
    assert_eq!(
        error(&[5, 1, 0, 4, 1, 0, 1]),
        ("only CONNECT is supported".to_string(), vec![5, 0])
    );
    assert_eq!(error(&[5, 1, 0, 5, 1, 0, 9]), ("bad address type".to_string(), vec![5, 0]));
    assert_eq!(
        error(&[5, 1, 0, 5, 1, 0, 1, 1]),
        ("failed to fill whole buffer".to_string(), vec![5, 0])
    );
}

#[test]
fn socks5_ipv6_connect() {
    let mut req = vec![5, 2, 2, 0, 5, 1, 0, 4];
    req.extend_from_slice(&[0x20, 1, 0x0d, 0xb8, 0, 0, 0, 0, 0, 0, 0, 0, 0, 0, 0, 1]);
    req.extend_from_slice(&[0x1f, 0x90]);
    req.extend_from_slice(b"GET /");
    let (res, told) = socks5_target(&req);
    assert_eq!(res.unwrap(), ("2001:db8::1".to_string(), 8080));
    assert_eq!(told.len(), 12);
}

#[test]
fn socks5_domain_that_is_not_text() {
    let (res, _) = socks5_target(&[5, 1, 0, 5, 1, 0, 3, 2, b'a', 0xff, 0, 1]);
    assert_eq!(res.unwrap(), ("a\u{fffd}".to_string(), 1));
    let (res, _) = socks5_target(&[5, 1, 0, 5, 1, 0, 3, 0, 0, 1]);
    assert_eq!(res.unwrap(), (String::new(), 1));
}

#[test]
fn addresses_are_written_out() {
    assert_eq!(ipv4(&[0, 10, 255, 7]), "0.10.255.7");
    assert_eq!(v6([0; 8]), "::");
    assert_eq!(v6([0, 0, 0, 0, 0, 0, 0, 1]), "::1");
    assert_eq!(v6([0xfe80, 0, 0, 0, 0, 0, 0, 0]), "fe80::");
    assert_eq!(v6([1, 2, 3, 4, 5, 6, 7, 8]), "1:2:3:4:5:6:7:8");
    // A single zero group is written out; of equal runs the first goes.
    assert_eq!(v6([1, 0, 3, 4, 5, 6, 7, 8]), "1:0:3:4:5:6:7:8");
    assert_eq!(v6([1, 0, 0, 4, 5, 0, 0, 8]), "1::4:5:0:0:8");
    assert_eq!(v6([1, 0, 0, 4, 0, 0, 0, 8]), "1:0:0:4::8");
    assert_eq!(v6([0, 0, 0, 0, 0, 0xffff, 0x0102, 0x0304]), "::ffff:1.2.3.4");
    assert_eq!(v6([0, 0, 0, 0, 0, 0, 0x0102, 0x0304]), "::102:304");
    assert_eq!(v6([0xABCD, 0xef01, 0, 0, 0, 0, 0, 0xffff]), "abcd:ef01::ffff");
}

#[test]
fn a_handshake_goes_step_by_step() {
    let mut h = Handshake::new();
    assert!(matches!(h.next(), SocksAction::Read(2)));
    h.step(SocksEvent::Wrote);
    assert!(matches!(h.next(), SocksAction::Read(2)));
    h.step(SocksEvent::Read(vec![5, 1]));
    assert!(matches!(h.next(), SocksAction::Read(1)));
    h.step(SocksEvent::Read(vec![0]));
    assert!(matches!(h.next(), SocksAction::Accept));
    assert_eq!(accept_reply(), vec![5, 0]);
    h.step(SocksEvent::Wrote);
    h.step(SocksEvent::Read(vec![5, 1, 0, 1]));
    h.step(SocksEvent::Read(vec![127, 0, 0, 1]));
    h.step(SocksEvent::Read(vec![0, 22]));
    assert!(matches!(h.next(), SocksAction::Confirm));
    assert_eq!(confirm_reply().len(), 10);
    h.step(SocksEvent::Wrote);
    match h.next() {
        SocksAction::Connect { host, port } => {
            assert_eq!(host, "127.0.0.1");
            assert_eq!(*port, 22);
        }
        _ => panic!("no target"),
    }
}

#[test]
fn a_handshake_that_cannot_be_read_is_refused() {
    let mut h = Handshake::new();
    h.step(SocksEvent::Failed("timed out".to_string()));
    match h.next() {
        SocksAction::Refuse(e) => assert_eq!(e, "timed out"),
        _ => panic!("not refused"),
    }
}
