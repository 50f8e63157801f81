use ssh_workspace::fonts::{
    detect, fonts_in, list, parse, query, sorted, FontCache, FontTool, ToolOutput,
};
use ssh_workspace::hosts::{Tunnel, TunnelKind};
use ssh_workspace::serial::{
    data_event, describe as describe_port, exit_event, list_ports, open_error, settings, DataBits,
    FlowControl, FoundPort, Parity, PortKind, SerialAction, SerialCfg, SerialCommand, SerialEvent,
    SerialManager, SerialWorker, StopBits,
};
use ssh_workspace::sessions::Taken;
use ssh_workspace::tunnels::{
    channel_error, describe, handshake_error, listen_error, listener_of, listening, notice, over,
    target_error, ListenAction, ListenEvent, ListenKind, Listener,
};

// ---------- serial ports ----------

fn usb(product: Option<&str>, manufacturer: Option<&str>) -> PortKind {
    PortKind::Usb {
        product: product.map(|s| s.to_string()),
        manufacturer: manufacturer.map(|s| s.to_string()),
        vid: 0x403,
        pid: 0x6001,
    }
}

#[test]
fn ports_are_described() {
    assert_eq!(describe_port(&usb(Some("UART"), Some("FTDI"))), "UART");
    assert_eq!(describe_port(&usb(None, Some("FTDI"))), "FTDI");
    assert_eq!(describe_port(&usb(None, None)), "USB 0403:6001");
    assert_eq!(describe_port(&PortKind::Pci), "PCI");
    assert_eq!(describe_port(&PortKind::Bluetooth), "Bluetooth");
    assert_eq!(describe_port(&PortKind::Unknown), "");
    let found = vec![FoundPort { name: "/dev/ttyS0".into(), kind: PortKind::Pci }];
    let l = list_ports(Some(found));
    assert_eq!((l[0].name.as_str(), l[0].description.as_str()), ("/dev/ttyS0", "PCI"));
    assert!(list_ports(None).is_empty());
    assert_eq!(open_error("/dev/x", "e"), "cannot open /dev/x: e");
}

fn cfg(data: u8, stop: u8, parity: &str, flow: &str) -> SerialCfg {
    SerialCfg {
        baud: 9600,
        data_bits: data,
        stop_bits: stop,
        parity: parity.to_string(),
        flow: flow.to_string(),
    }
}

#[test]
fn line_settings_are_read() {
    let s = settings(&cfg(7, 2, "even", "hardware"));
    assert_eq!(s.baud, 9600);
    assert_eq!((s.data_bits, s.stop_bits), (DataBits::Seven, StopBits::Two));
    assert_eq!((s.parity, s.flow), (Parity::Even, FlowControl::Hardware));
    assert_eq!(settings(&cfg(5, 1, "odd", "software")).data_bits, DataBits::Five);
    assert_eq!(settings(&cfg(6, 1, "odd", "software")).data_bits, DataBits::Six);
    assert_eq!(settings(&cfg(6, 1, "odd", "software")).parity, Parity::Odd);
    assert_eq!(settings(&cfg(6, 1, "odd", "software")).flow, FlowControl::Software);
    let s = settings(&cfg(99, 0, "none", "x"));
    assert_eq!((s.data_bits, s.stop_bits), (DataBits::Eight, StopBits::One));
    assert_eq!((s.parity, s.flow), (Parity::Plain, FlowControl::Free));
}

#[test]
fn a_port_takes_commands_until_it_is_closed() {
    let mut m = SerialManager::new();
    let id = m.connect();
    assert_eq!(id, "serial-1");
    assert_eq!(m.write(&id, b"at".to_vec()), Ok(()));
    assert_eq!(m.send_break(&id), Ok(()));
    m.close(&id);
    assert_eq!(m.write(&id, b"late".to_vec()), Ok(()));
    assert!(matches!(m.take(&id), Taken::Command(SerialCommand::Data(d)) if d == b"at"));
    assert!(matches!(m.take(&id), Taken::Command(SerialCommand::Break)));
    assert!(matches!(m.take(&id), Taken::Command(SerialCommand::Close)));
    assert!(matches!(m.take(&id), Taken::Gone));
    m.finish(&id);
    assert_eq!(data_event(&id), "serial-data-serial-1");
    assert_eq!(exit_event(&id), "serial-exit-serial-1");
}

#[test]
fn a_port_whose_worker_has_gone_refuses_commands() {
    let mut m = SerialManager::new();
    let id = m.connect();
    m.finish(&id);
    assert_eq!(m.write(&id, vec![1]), Err("sending on a closed channel".to_string()));
    assert_eq!(m.write("serial-9", vec![1]), Ok(()));
    let b = m.connect();
    assert_eq!(b, "serial-2");
    m.disconnect_all();
    assert!(matches!(m.take(&b), Taken::Command(SerialCommand::Close)));
    assert_eq!(m.write(&id, vec![1]), Ok(()));
}

fn command(c: SerialCommand) -> SerialEvent {
    SerialEvent::Taken(Taken::Command(c))
}

#[test]
fn a_worker_writes_and_reads() {
    let mut w = SerialWorker::new();
    w.step(command(SerialCommand::Data(b"at".to_vec())));
    assert_eq!((w.next(), w.bytes()), (SerialAction::Write, b"at" as &[u8]));
    w.step(SerialEvent::Done);
    w.step(command(SerialCommand::Break));
    assert_eq!(w.next(), SerialAction::Break);
    w.step(SerialEvent::Done);
    w.step(SerialEvent::Taken(Taken::Empty));
    assert_eq!(w.next(), SerialAction::Read);
    w.step(SerialEvent::Read(b"ok".to_vec()));
    assert_eq!((w.next(), w.bytes()), (SerialAction::Deliver, b"ok" as &[u8]));
    w.step(SerialEvent::Done);
    w.step(SerialEvent::Taken(Taken::Empty));
    w.step(SerialEvent::TimedOut);
    assert_eq!(w.next(), SerialAction::TakeCommand);
}

#[test]
fn a_worker_says_why_it_leaves() {
    let mut w = SerialWorker::new();
    w.step(command(SerialCommand::Close));
    assert_eq!((w.next(), w.reason()), (SerialAction::Finish, "closed"));
    let mut w = SerialWorker::new();
    w.step(SerialEvent::Taken(Taken::Gone));
    assert_eq!(w.reason(), "closed");
    let mut w = SerialWorker::new();
    w.step(command(SerialCommand::Data(vec![1])));
    w.step(SerialEvent::Failed("e".into()));
    assert_eq!(w.reason(), "write failed");
    let mut w = SerialWorker::new();
    w.step(SerialEvent::Taken(Taken::Empty));
    w.step(SerialEvent::Failed("e".into()));
    assert_eq!(w.reason(), "read error: e");
}

// ---------- fonts ----------

#[test]
fn fontconfig_is_read() {
    assert_eq!(
        parse(FontTool::Fontconfig, "Hack,Hack Nerd\n DejaVu Sans Mono \n\n,\nHack\nécran\n"),
        ["DejaVu Sans Mono", "Hack", "Hack Nerd", "écran"]
    );
}

#[test]
fn the_profiler_is_read() {
    assert_eq!(
        parse(FontTool::Profiler, "Fonts:\n    Family: Menlo\n  Family:\nFamily:Arial\n Full Name: X\n"),
        ["Arial", "Menlo"]
    );
}

#[test]
fn the_registry_is_read() {
    let out = "\r\nHKEY_LOCAL_MACHINE\\SOFTWARE\r\n    Arial (TrueType)    REG_SZ    arial.ttf\r\n    Cambria (OpenType)    REG_SZ    c.ttc\r\n    Fixed    REG_SZ    f.fon\r\n";
    assert_eq!(parse(FontTool::Registry, out), ["Arial", "Cambria", "Fixed"]);
}

#[test]
fn names_are_sorted_and_unique_like_a_set() {
    let names: Vec<String> =
        ["b", "a", "b", "B", "", "é", "ab", "a"].iter().map(|s| s.to_string()).collect();
    let want: Vec<String> =
        names.iter().cloned().collect::<std::collections::BTreeSet<String>>().into_iter().collect();
    assert_eq!(sorted(&names), want);
}

fn output(success: bool, text: &[u8]) -> Option<ToolOutput> {
    Some(ToolOutput { success, stdout: text.to_vec() })
}

#[test]
fn the_first_attempt_with_fonts_counts() {
    assert_eq!(fonts_in(FontTool::Fontconfig, output(true, b"A\xff\n")), ["A\u{fffd}"]);
    assert!(fonts_in(FontTool::Fontconfig, output(false, b"A\n")).is_empty());
    assert_eq!(fonts_in(FontTool::Profiler, output(false, b"Family: A\n")), ["A"]);
    assert!(fonts_in(FontTool::Registry, None).is_empty());
    assert_eq!(query(0), Some(":spacing=mono".to_string()));
    assert_eq!(query(1), Some(":".to_string()));
    assert_eq!(query(2), None);
    assert_eq!(detect(vec!["m".into()], vec!["a".into()]), ["m"]);
    assert_eq!(detect(vec![], vec!["a".into()]), ["a"]);
}

#[test]
fn fonts_are_detected_once() {
    let mut c = FontCache::new();
    assert!(!c.is_filled());
    assert_eq!(list(&mut c, vec!["A".into()]), ["A"]);
    assert!(c.is_filled());
    assert_eq!(list(&mut c, vec!["B".into()]), ["A"]);
}

// ---------- tunnels ----------

fn tunnel(kind: TunnelKind) -> Tunnel {
    Tunnel {
        kind,
        bind: "127.0.0.1".into(),
        listen_port: 8080,
        target_host: "db".into(),
        target_port: 5432,
    }
}

#[test]
fn tunnels_have_their_names() {
    assert_eq!(describe(&tunnel(TunnelKind::Local), 1), "local 127.0.0.1:8080 → db:5432");
    assert_eq!(describe(&tunnel(TunnelKind::Remote), 9), "remote 127.0.0.1:9 → db:5432");
    assert_eq!(describe(&tunnel(TunnelKind::Dynamic), 1), "socks5 127.0.0.1:8080");
    assert_eq!(listening("x"), "listening x");
    assert_eq!(over(Ok("x".into())), "x closed");
    assert_eq!(over(Err("e".into())), "unavailable: e");
    assert_eq!(notice("m"), "\r\n\x1b[36m[tunnel] m\x1b[0m\r\n");
}

#[test]
fn tunnels_fail_with_their_words() {
    assert_eq!(listen_error(&tunnel(TunnelKind::Local), "e"), "cannot listen on 127.0.0.1:8080: e");
    assert_eq!(listen_error(&tunnel(TunnelKind::Dynamic), "e"), "cannot listen on 127.0.0.1:8080: e");
    assert_eq!(listen_error(&tunnel(TunnelKind::Remote), "e"), "remote listen 127.0.0.1:8080 refused: e");
    assert_eq!(target_error("db", 1, "e"), "remote tunnel connect to db:1 failed: e");
    assert_eq!(channel_error("db", 1, "e"), "channel to db:1 refused: e");
    assert_eq!(handshake_error("e"), "socks5 handshake failed: e");
}

#[test]
fn a_near_listener_serves_until_its_session_ends() {
    let mut l = Listener::new(listener_of(TunnelKind::Local));
    l.step(ListenEvent::Alive(true));
    assert_eq!(l.next(), ListenAction::Accept);
    l.step(ListenEvent::WouldBlock);
    assert_eq!(l.next(), ListenAction::Sleep);
    l.step(ListenEvent::Done);
    l.step(ListenEvent::Alive(true));
    l.step(ListenEvent::Done);
    assert_eq!(l.next(), ListenAction::Serve);
    l.step(ListenEvent::Done);
    l.step(ListenEvent::Alive(false));
    assert_eq!(l.next(), ListenAction::Finish);
    assert_eq!(l.result(), Ok(()));
}

#[test]
fn a_far_listener_is_kept_alive() {
    for kind in [listener_of(TunnelKind::Remote), ListenKind::Display] {
        let mut l = Listener::new(kind);
        l.step(ListenEvent::Alive(true));
        assert_eq!(l.next(), ListenAction::CheckClock);
        l.step(ListenEvent::Elapsed(15000));
        assert_eq!(l.next(), ListenAction::Keepalive);
        l.step(ListenEvent::WouldBlock);
        assert_eq!(l.next(), ListenAction::Accept);
        let mut l = Listener::new(kind);
        l.step(ListenEvent::Alive(true));
        l.step(ListenEvent::Elapsed(15000));
        l.step(ListenEvent::Failed("dead".into()));
        assert_eq!((l.next(), l.result()), (ListenAction::Finish, Ok(())));
    }
}

#[test]
fn listeners_fail_with_their_words() {
    for (kind, words) in [
        (ListenKind::Local, "local listener failed: e"),
        (ListenKind::Remote, "remote listener failed: e"),
        (listener_of(TunnelKind::Dynamic), "socks5 listener failed: e"),
        (ListenKind::Display, "forward listener failed: e"),
    ] {
        let mut l = Listener::new(kind);
        l.step(ListenEvent::Alive(true));
        l.step(ListenEvent::Elapsed(0));
        l.step(ListenEvent::Failed("e".into()));
        assert_eq!(l.result(), Err(words.to_string()));
    }
}
