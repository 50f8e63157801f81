use ssh_workspace::auth::{authenticate, start, AgentStep, AuthAction, AuthEvent, Login};
use ssh_workspace::connect::{address, establish, Connection, Stage, StageEvent};
use ssh_workspace::hosts::{AuthMethod, Host};
use ssh_workspace::paths::{system, System};
use ssh_workspace::pump::{Pump, PumpAction, PumpEvent};
use ssh_workspace::recording::{cast_event, event_line, recording_start};
use ssh_workspace::ssh::{
    answers_given, auth_prompt_reply, data_event, exit_event, log_request, log_request_in,
    secret_given, LogSpec, PromptState, Prompts, SshCommand, SshManager, SHELL_INTEGRATION,
};
use ssh_workspace::vault::Keyring;

fn host(auth: AuthMethod) -> Host {
    Host {
        id: "h1".to_string(),
        name: "A".to_string(),
        host: "example.com".to_string(),
        port: 2222,
        username: "me".to_string(),
        auth,
        x11: false,
        bookmarks: vec![],
        group: String::new(),
        jump: None,
        tunnels: vec![],
    }
}

fn password(p: Option<&str>) -> Host {
    host(AuthMethod::Password { password: p.map(|s| s.to_string()) })
}

fn some(s: &str) -> Option<String> {
    Some(s.to_string())
}

fn begin(h: &Host, secret: Option<&str>, resolved: Option<&str>, methods: &str, ui: bool) -> Login<String, Vec<u8>> {
    start(
        System::Unix,
        h,
        secret.map(|s| s.to_string()),
        resolved.map(|s| s.to_string()),
        b"/home/me/.ssh/id".to_vec(),
        methods,
        ui,
    )
}

fn tried(error: Option<&str>, authenticated: bool) -> AuthEvent<String> {
    AuthEvent::Tried { error: error.map(|s| s.to_string()), authenticated }
}

fn finished(l: &Login<String, Vec<u8>>) -> Result<(), String> {
    match l.next() {
        AuthAction::Finish(r) => r.clone(),
        a => panic!("not finished: {a:?}"),
    }
}

// ---------- logging in ----------

#[test]
fn a_password_is_tried() {
    let mut l = begin(&password(None), Some("pw"), None, "password", true);
    assert!(matches!(l.next(), AuthAction::TryPassword(p) if p == "pw"));
    l.step(tried(None, true));
    assert_eq!(finished(&l), Ok(()));
    let mut l = begin(&password(Some("saved")), None, Some("saved"), "", false);
    assert!(matches!(l.next(), AuthAction::TryPassword(p) if p == "saved"));
    l.step(tried(Some("denied"), false));
    assert_eq!(finished(&l), Err("password authentication failed: denied".to_string()));
}

#[test]
fn a_missing_password_is_an_error() {
    let l = begin(&password(None), None, None, "password", true);
    assert_eq!(finished(&l), Err("no password provided".to_string()));
    let l = begin(&password(Some("keyring:h1:password")), None, None, "password", false);
    assert_eq!(finished(&l), Err("stored password missing from the OS keyring".to_string()));
}

#[test]
fn a_lost_password_is_asked_for_and_stored_again() {
    let mut l = begin(&password(Some("keyring:h1:password")), None, None, "password", true);
    assert!(matches!(l.next(), AuthAction::Ask(q) if q == "Password for me@example.com"));
    l.step(AuthEvent::Answered(some("pw")));
    assert!(matches!(l.next(), AuthAction::TryPassword(p) if p == "pw"));
    l.step(tried(None, true));
    match l.next() {
        AuthAction::Remember { field, secret } => {
            assert_eq!((field.as_str(), secret.as_str()), ("password", "pw"))
        }
        a => panic!("not stored: {a:?}"),
    }
    l.step(AuthEvent::Remembered);
    assert_eq!(finished(&l), Ok(()));
    // No answer, and a wrong one: nothing is stored.
    let mut l = begin(&password(Some("keyring:h1:password")), None, None, "", true);
    l.step(AuthEvent::Answered(None));
    assert_eq!(finished(&l), Err("stored password missing from the OS keyring".to_string()));
    let mut l = begin(&password(Some("keyring:h1:password")), None, None, "", true);
    l.step(AuthEvent::Answered(some("bad")));
    l.step(tried(Some("denied"), false));
    assert_eq!(finished(&l), Err("password authentication failed: denied".to_string()));
}

#[test]
fn a_typed_secret_leaves_the_keyring_out() {
    let l = begin(&password(Some("keyring:h1:password")), Some("typed"), None, "", true);
    assert!(matches!(l.next(), AuthAction::TryPassword(p) if p == "typed"));
    assert!(!l.lost);
    let l = authenticate(&mut Keyring::new(), &password(Some("keyring:h1:password")), some("typed"), "", true);
    assert!(matches!(l.next(), AuthAction::TryPassword(p) if p == "typed"));
    assert!(!l.lost);
}

#[test]
fn a_key_is_tried() {
    let h = host(AuthMethod::Key { path: "~/.ssh/id".into(), passphrase: None });
    let mut l = begin(&h, None, None, "publickey", true);
    match l.next() {
        AuthAction::TryKey { path, passphrase } => {
            assert_eq!((path.as_slice(), passphrase.clone()), (&b"/home/me/.ssh/id"[..], None))
        }
        a => panic!("no key: {a:?}"),
    }
    l.step(tried(Some("bad"), false));
    assert_eq!(
        finished(&l),
        Err("key authentication failed (/home/me/.ssh/id): bad".to_string())
    );
    let h = host(AuthMethod::Key { path: "~/.ssh/id".into(), passphrase: some("keyring:h1:passphrase") });
    let mut l = begin(&h, None, None, "", true);
    assert!(matches!(l.next(), AuthAction::Ask(q) if q == "Passphrase for /home/me/.ssh/id"));
    l.step(AuthEvent::Answered(some("pp")));
    l.step(tried(None, true));
    assert!(matches!(l.next(), AuthAction::Remember { field, .. } if field == "passphrase"));
}

#[test]
fn the_identities_of_an_agent_are_tried() {
    let mut l = begin(&host(AuthMethod::Agent), None, None, "", true);
    assert!(matches!(l.next(), AuthAction::StartAgent));
    l.step(AuthEvent::AgentReady(3));
    assert!(matches!(l.next(), AuthAction::TryIdentity(0)));
    l.step(tried(Some("first"), false));
    assert!(matches!(l.next(), AuthAction::TryIdentity(1)));
    l.step(tried(None, false));
    assert!(matches!(l.next(), AuthAction::TryIdentity(2)));
    l.step(tried(Some("third"), false));
    assert_eq!(finished(&l), Err("agent authentication failed: third".to_string()));
    let mut l = begin(&host(AuthMethod::Agent), None, None, "", true);
    l.step(AuthEvent::AgentReady(0));
    assert_eq!(finished(&l), Err("agent authentication failed: ".to_string()));
    let mut l = begin(&host(AuthMethod::Agent), None, None, "", true);
    l.step(AuthEvent::AgentReady(2));
    l.step(tried(None, true));
    assert_eq!(finished(&l), Ok(()));
}

#[test]
fn an_agent_that_is_not_there_ends_the_login() {
    for (step, words) in [
        (AgentStep::Open, "ssh-agent unavailable: e"),
        (AgentStep::Connect, "cannot connect to ssh-agent: e"),
        (AgentStep::List, "cannot list agent identities: e"),
        (AgentStep::Identities, "e"),
    ] {
        let mut l = begin(&host(AuthMethod::Agent), None, None, "keyboard-interactive", true);
        l.step(AuthEvent::AgentFailed { step, why: "e".to_string() });
        assert_eq!(finished(&l), Err(words.to_string()));
    }
}

#[test]
fn the_servers_questions_are_the_last_resort() {
    let methods = "publickey,keyboard-interactive";
    let mut l = begin(&password(None), None, None, methods, true);
    assert!(matches!(l.next(), AuthAction::Interactive));
    l.step(AuthEvent::Asked(None));
    assert_eq!(finished(&l), Ok(()));
    let mut l = begin(&password(None), Some("pw"), None, methods, true);
    l.step(tried(None, false));
    assert!(matches!(l.next(), AuthAction::Interactive));
    l.step(AuthEvent::Asked(some("no")));
    assert_eq!(finished(&l), Err("interactive authentication failed: no".to_string()));
    let mut l = begin(&password(None), Some("pw"), None, methods, false);
    l.step(tried(None, false));
    assert_eq!(finished(&l), Ok(()));
}

// ---------- connecting ----------

fn walk(c: &mut Connection<String>) {
    for _ in 0..40 {
        let e = match c.next() {
            Stage::Ready | Stage::Failed => return,
            Stage::HostKey => StageEvent::Keyed(some("new key")),
            Stage::CheckLogin => StageEvent::LoggedIn(true),
            _ => StageEvent::Done,
        };
        c.step(e);
    }
}

#[test]
fn a_connection_is_set_up() {
    assert_eq!(address("example.com", 2222), "example.com:2222");
    let mut c = establish(&password(None), None, false);
    assert_eq!(c.next(), Stage::Resolve);
    walk(&mut c);
    assert_eq!(c.next(), Stage::Ready);
    assert_eq!(c.notice, some("new key"));
    let jump = password(None);
    let mut c = establish(&password(None), Some(&jump), true);
    assert_eq!(c.next(), Stage::Jump);
    walk(&mut c);
    assert_eq!(c.next(), Stage::Ready);
}

#[test]
fn what_goes_wrong_with_a_connection() {
    let at = |stage: Stage, via: bool, e: StageEvent<String>| -> String {
        let jump = password(None);
        let mut c = establish(&password(None), if via { Some(&jump) } else { None }, true);
        for _ in 0..40 {
            if c.next() == stage {
                break;
            }
            let e = match c.next() {
                Stage::HostKey => StageEvent::Keyed(None),
                Stage::CheckLogin => StageEvent::LoggedIn(true),
                _ => StageEvent::Done,
            };
            c.step(e);
        }
        c.step(e);
        assert_eq!(c.next(), Stage::Failed);
        c.error
    };
    let f = || StageEvent::Failed("e".to_string());
    assert_eq!(at(Stage::Jump, true, f()), "jump host example.com: e");
    assert_eq!(at(Stage::BridgeListen, true, f()), "jump bridge listen failed: e");
    assert_eq!(at(Stage::BridgePort, true, f()), "e");
    assert_eq!(at(Stage::BridgeConnect, true, f()), "jump bridge connect failed: e");
    assert_eq!(at(Stage::Resolve, false, f()), "cannot resolve example.com:2222: e");
    assert_eq!(at(Stage::Resolve, false, StageEvent::NoAddress), "cannot resolve example.com:2222");
    assert_eq!(at(Stage::Connect, false, f()), "cannot connect to example.com:2222: e");
    assert_eq!(at(Stage::Open, false, f()), "e");
    assert_eq!(at(Stage::Handshake, false, f()), "SSH handshake failed: e");
    assert_eq!(at(Stage::HostKey, false, f()), "e");
    assert_eq!(at(Stage::Login, false, f()), "e");
    assert_eq!(at(Stage::CheckLogin, false, StageEvent::LoggedIn(false)), "authentication failed");
    assert_eq!(at(Stage::Channel, false, f()), "cannot open channel: e");
    assert_eq!(at(Stage::Pty, false, f()), "pty request failed: e");
    assert_eq!(at(Stage::Shell, false, f()), "shell request failed: e");
}

#[test]
fn jump_hosts_are_not_nested() {
    let mut jump = password(None);
    jump.jump = some("other");
    let c = establish(&password(None), Some(&jump), false);
    assert_eq!(c.next(), Stage::Failed);
    assert_eq!(c.error, "nested jump hosts are not supported");
}

// ---------- terminal sessions ----------

#[test]
fn a_session_takes_its_commands_in_order() {
    let mut m = SshManager::new();
    let id = m.open("h1");
    assert_eq!(id, "s1");
    assert_eq!(m.open("h2"), "s2");
    assert_eq!(m.send(&id, SshCommand::Resize { cols: 80, rows: 24 }), Ok(()));
    match m.take(&id) {
        Some(SshCommand::Data(d)) => assert_eq!(d, SHELL_INTEGRATION.as_bytes()),
        _ => panic!("no shell integration"),
    }
    assert!(matches!(m.take(&id), Some(SshCommand::Resize { cols: 80, rows: 24 })));
    assert!(m.take(&id).is_none());
    assert_eq!(data_event(&id), "ssh-data-s1");
    assert_eq!(exit_event(&id), "ssh-exit-s1");
}

#[test]
fn the_shell_integration_is_one_line() {
    assert!(SHELL_INTEGRATION.starts_with(" SSHWS_OLDPC=\"${PROMPT_COMMAND:-}\"; __sshws_pc() {"));
    assert!(SHELL_INTEGRATION.contains("printf '\\033]7;file://%s%s\\007'"));
    assert!(SHELL_INTEGRATION.contains("printf \"\\033]133;C\\007\"' DEBUG; clear\n"));
    assert_eq!(SHELL_INTEGRATION.matches('\n').count(), 1);
}

#[test]
fn a_session_that_is_not_there_takes_commands_in_silence() {
    let mut m = SshManager::new();
    assert_eq!(m.send("s9", SshCommand::Disconnect), Ok(()));
    let id = m.open("h1");
    m.finish(&id);
    assert_eq!(m.send(&id, SshCommand::Disconnect), Ok(()));
    m.insert("x", "h1");
    m.remove("x");
    assert!(m.take("x").is_none());
}

#[test]
fn disconnecting_a_host_reaches_its_sessions() {
    let mut m = SshManager::new();
    let (a, b) = (m.open("h1"), m.open("h2"));
    m.take(&a);
    m.take(&b);
    m.disconnect_host("h1");
    assert!(matches!(m.take(&a), Some(SshCommand::Disconnect)));
    assert!(m.take(&b).is_none());
    m.disconnect_all();
    assert!(matches!(m.take(&a), Some(SshCommand::Disconnect)));
    assert!(matches!(m.take(&b), Some(SshCommand::Disconnect)));
}

#[test]
fn questions_are_answered_once() {
    let mut p = Prompts::new();
    let q = p.ask("me", "OTP", vec![("Code:".to_string(), true)]);
    assert_eq!((q.id, q.username.as_str(), q.instructions.as_str()), (1, "me", "OTP"));
    assert_eq!(q.prompts, vec![("Code:".to_string(), true)]);
    let s = p.ask_secret("Password for me@h");
    assert_eq!((s.id, s.username.as_str()), (2, ""));
    assert_eq!(s.prompts, vec![("Password for me@h".to_string(), false)]);
    assert_eq!(p.poll(1, 0), PromptState::Waiting(300000));
    assert_eq!(p.poll(1, 299999), PromptState::Waiting(1));
    auth_prompt_reply(&mut p, 1, vec!["123".to_string()]);
    auth_prompt_reply(&mut p, 1, vec!["456".to_string()]);
    auth_prompt_reply(&mut p, 9, vec!["789".to_string()]);
    assert_eq!(p.poll(1, 400000), PromptState::Answered(vec!["123".to_string()]));
    assert_eq!(p.poll(1, 0), PromptState::Waiting(300000));
    assert_eq!(p.poll(9, 0), PromptState::Waiting(300000));
    assert_eq!(p.poll(2, 300000), PromptState::GivenUp);
    auth_prompt_reply(&mut p, 2, vec!["late".to_string()]);
    assert_eq!(p.poll(2, 300000), PromptState::GivenUp);
    assert_eq!(answers_given(None), Vec::<String>::new());
    assert_eq!(secret_given(Some(vec!["a".to_string(), "b".to_string()])), some("b"));
    assert_eq!(secret_given(Some(vec![])), None);
    assert_eq!(secret_given(None), None);
}

// ---------- the pump ----------

fn to_commands(p: &mut Pump) {
    p.step(PumpEvent::Elapsed(0));
    assert_eq!(p.next(), PumpAction::TakeCommand);
}

#[test]
fn input_goes_out_in_pieces() {
    let mut p = Pump::new();
    to_commands(&mut p);
    p.step(PumpEvent::Command(SshCommand::Data(b"ls -".to_vec())));
    p.step(PumpEvent::Command(SshCommand::Data(b"la\n".to_vec())));
    p.step(PumpEvent::NoCommand);
    assert_eq!(p.next(), PumpAction::Write);
    assert_eq!(p.pending(), b"ls -la\n");
    p.step(PumpEvent::Wrote(3));
    assert_eq!(p.pending(), b"-la\n");
    p.step(PumpEvent::WouldBlock);
    assert_eq!(p.next(), PumpAction::ReadOutput);
    assert_eq!(p.pending(), b"-la\n");
}

#[test]
fn output_is_passed_on() {
    let mut p = Pump::new();
    to_commands(&mut p);
    p.step(PumpEvent::NoCommand);
    p.step(PumpEvent::Read(b"out".to_vec()));
    assert_eq!(p.next(), PumpAction::DeliverOutput);
    assert_eq!(p.fresh(), b"out");
    assert!(!p.logging());
    p.step(PumpEvent::Done);
    p.step(PumpEvent::Read(b"err".to_vec()));
    assert_eq!(p.next(), PumpAction::DeliverErrors);
    p.step(PumpEvent::Done);
    assert_eq!(p.next(), PumpAction::CheckEnd);
    p.step(PumpEvent::AtEnd(false));
    assert_eq!(p.next(), PumpAction::CheckClock);
    to_commands(&mut p);
    p.step(PumpEvent::NoCommand);
    p.step(PumpEvent::Read(vec![]));
    p.step(PumpEvent::Read(vec![]));
    p.step(PumpEvent::AtEnd(false));
    assert_eq!(p.next(), PumpAction::Sleep);
}

#[test]
fn a_session_ends() {
    let mut p = Pump::new();
    to_commands(&mut p);
    p.step(PumpEvent::Command(SshCommand::Disconnect));
    p.step(PumpEvent::Command(SshCommand::Data(b"x".to_vec())));
    p.step(PumpEvent::NoCommand);
    assert_eq!(p.next(), PumpAction::Close);
    p.step(PumpEvent::Done);
    assert_eq!(p.next(), PumpAction::Stop);
    let mut p = Pump::new();
    p.step(PumpEvent::Elapsed(15000));
    assert_eq!(p.next(), PumpAction::Keepalive);
    p.step(PumpEvent::Failed);
    assert_eq!(p.next(), PumpAction::Stop);
    let mut p = Pump::new();
    p.step(PumpEvent::Elapsed(14999));
    assert_eq!(p.next(), PumpAction::TakeCommand);
}

#[test]
fn a_terminal_is_resized_and_recorded() {
    let mut p = Pump::new();
    to_commands(&mut p);
    p.step(PumpEvent::Command(SshCommand::Resize { cols: 120, rows: 40 }));
    assert_eq!((p.next(), p.size()), (PumpAction::Resize, (120, 40)));
    p.step(PumpEvent::Done);
    let spec = LogSpec { path: b"/l".to_vec(), cast: false, cols: 1, rows: 2 };
    p.step(PumpEvent::Command(SshCommand::SetLog(Some(spec))));
    assert_eq!(p.next(), PumpAction::OpenLog);
    assert_eq!(p.log_spec().unwrap().path, b"/l");
    p.step(PumpEvent::LogOpened(true));
    assert!(p.logging());
    p.step(PumpEvent::Command(SshCommand::SetLog(None)));
    assert!(!p.logging());
    assert_eq!(p.next(), PumpAction::TakeCommand);
}

/// Lets output through and says what of it was recorded.
fn output(p: &mut Pump, data: &[u8]) -> Vec<u8> {
    let mut log = vec![];
    p.step(PumpEvent::NoCommand);
    p.step(PumpEvent::Read(data.to_vec()));
    assert_eq!(p.next(), PumpAction::DeliverOutput);
    if p.logging() {
        log.extend_from_slice(p.fresh());
    }
    p.step(PumpEvent::Done);
    p.step(PumpEvent::Read(vec![]));
    p.step(PumpEvent::AtEnd(false));
    p.step(PumpEvent::Elapsed(0));
    log
}

#[test]
fn a_recording_receives_what_comes_meanwhile() {
    let mut p = Pump::new();
    p.step(PumpEvent::Elapsed(0));
    assert_eq!(output(&mut p, b"before"), b"");
    let spec = LogSpec { path: b"/l".to_vec(), cast: false, cols: 1, rows: 2 };
    p.step(PumpEvent::Command(SshCommand::SetLog(Some(spec))));
    p.step(PumpEvent::LogOpened(true));
    assert_eq!(output(&mut p, b"one"), b"one");
    assert_eq!(output(&mut p, b"two"), b"two");
    p.step(PumpEvent::Command(SshCommand::SetLog(None)));
    assert_eq!(output(&mut p, b"after"), b"");
}

// ---------- recordings ----------

#[test]
fn recordings_have_their_place() {
    let d = Some(b"/d".to_vec());
    let s = log_request_in(System::Unix, d.clone(), "s1", true, "cast", 80, 24, 5).unwrap();
    assert_eq!((s.cast, s.cols, s.rows), (true, 80, 24));
    assert_eq!(s.path, b"/d/ssh-workspace/casts/s1-5.cast");
    let s = log_request_in(System::Unix, d, "s1", true, "raw", 80, 24, 5).unwrap();
    assert_eq!((s.path.as_slice(), s.cast), (&b"/d/ssh-workspace/logs/s1-5.log"[..], false));
    assert!(log_request("s1", false, "cast", 80, 24, 5).is_none());
    let data = dirs::data_dir().map(|p| p.into_os_string().into_encoded_bytes());
    let want = log_request_in(system(), data, "s1", true, "raw", 1, 2, 3).unwrap().path;
    assert_eq!(log_request("s1", true, "raw", 1, 2, 3).unwrap().path, want);
}

#[test]
fn a_cast_begins_with_a_header() {
    let spec = LogSpec { path: vec![], cast: true, cols: 80, rows: 24 };
    let h = recording_start(&spec, 1700000000).unwrap();
    assert_eq!(
        h,
        "{\"env\":{\"TERM\":\"xterm-256color\"},\"height\":24,\"timestamp\":1700000000,\"version\":2,\"width\":80}\n"
    );
    let v: serde_json::Value = serde_json::from_str(&h).unwrap();
    assert_eq!(v["version"], 2);
    assert_eq!(v["width"], 80);
    assert_eq!(v["env"]["TERM"], "xterm-256color");
    assert_eq!(format!("{v}\n"), h);
    let raw = LogSpec { path: vec![], cast: false, cols: 80, rows: 24 };
    assert!(recording_start(&raw, 0).is_none());
}

#[test]
fn the_lines_of_a_cast_are_json() {
    assert_eq!(cast_event("1.5", b"a\"\x1b[0m\n"), "[1.5,\"o\",\"a\\\"\\u001b[0m\\n\"]\n");
    assert_eq!(cast_event("0.25", b"\xff"), "[0.25,\"o\",\"\u{fffd}\"]\n");
    assert_eq!(event_line("2", "\"x\""), "[2,\"o\",\"x\"]\n");
    let v: serde_json::Value = serde_json::from_str(&cast_event("3.0", "é\t".as_bytes())).unwrap();
    assert_eq!(v[2], "é\t");
    let all: String = (0..0x90u32).filter_map(char::from_u32).collect();
    let line = cast_event("4", all.as_bytes());
    assert_eq!(line.matches('\n').count(), 1);
    let want = "[4,\"o\",\"\\u0000\\u0001\\u0002\\u0003\\u0004\\u0005\\u0006\\u0007\\b\\t\\n\\u000b\\f\\r\\u000e\\u000f\\u0010";
    assert!(line.starts_with(want));
    assert!(line.contains(" !\\\"#") && line.contains("[\\\\]") && line.contains("~\u{7f}\u{80}"));
}
