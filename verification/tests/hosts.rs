use ssh_workspace::hosts::{
    check_host, default_bind, duplicate_of, require_host, resolve_jump, save_host, AuthMethod,
    Host, HostStore,
};
use keyring::credential::{Credential, CredentialApi, CredentialBuilderApi};
use ssh_workspace::auth::{authenticate, AuthAction};
use ssh_workspace::secrets::{
    delete_call, delete_host, has_marker, host_keys, key, load_call, loaded, lookup_key, protect,
    protect_with, resolve_opt, resolve_with, secret_to_store, store, store_call, stored_as,
    MARKER_PREFIX, SERVICE,
};
use ssh_workspace::vault::{done_reply, secret_reply, Keyring, KeyringCall, KeyringReply};
use std::any::Any;
use std::collections::BTreeMap;
use std::sync::{Arc, Mutex};
use ssh_workspace::ssh_config::parse_ssh_config;

fn host(id: &str, name: &str, auth: AuthMethod) -> Host {
    Host {
        id: id.to_string(),
        name: name.to_string(),
        host: "example.com".to_string(),
        port: 22,
        username: "me".to_string(),
        auth,
        x11: false,
        bookmarks: vec!["/srv".to_string()],
        group: String::new(),
        jump: None,
        tunnels: vec![],
    }
}

fn password(p: Option<&str>) -> AuthMethod {
    AuthMethod::Password { password: p.map(|s| s.to_string()) }
}

fn secret(h: &Host) -> Option<String> {
    match &h.auth {
        AuthMethod::Password { password } => password.clone(),
        AuthMethod::Key { passphrase, .. } => passphrase.clone(),
        AuthMethod::Agent => None,
    }
}

fn ids(s: &HostStore) -> Vec<String> {
    s.list().iter().map(|h| h.id.clone()).collect()
}

#[test]
fn a_saved_host_is_found() {
    let mut s = HostStore::load(None);
    assert!(s.list().is_empty());
    let saved = s.upsert(&mut Keyring::new(), host("a", "A", AuthMethod::Agent), 0);
    assert_eq!(saved.id, "a");
    assert_eq!(s.get("a").unwrap().name, "A");
    assert_eq!(s.get("a").unwrap().bookmarks, vec!["/srv".to_string()]);
    assert!(s.get("b").is_none());
}

#[test]
fn a_new_host_gets_an_id() {
    let mut s = HostStore::load(None);
    let first = s.upsert(&mut Keyring::new(), host("", "A", AuthMethod::Agent), 0x18f);
    let second = s.upsert(&mut Keyring::new(), host("", "B", AuthMethod::Agent), 0x18f);
    assert_eq!(first.id, "h18f1");
    assert_eq!(second.id, "h18f2");
    assert_eq!(ids(&s), vec!["h18f1".to_string(), "h18f2".to_string()]);
}

#[test]
fn saving_again_replaces_and_moves_to_the_end() {
    let mut s = HostStore::load(Some(vec![
        host("a", "A", AuthMethod::Agent),
        host("b", "B", AuthMethod::Agent),
    ]));
    s.upsert(&mut Keyring::new(), host("a", "A2", AuthMethod::Agent), 0);
    assert_eq!(ids(&s), vec!["b".to_string(), "a".to_string()]);
    assert_eq!(s.get("a").unwrap().name, "A2");
    s.remove("b");
    assert_eq!(ids(&s), vec!["a".to_string()]);
    s.remove("zz");
    assert_eq!(ids(&s), vec!["a".to_string()]);
}

#[test]
fn a_blank_secret_keeps_the_saved_one() {
    let marker = format!("{MARKER_PREFIX}a:password");
    let mut s = HostStore::load(Some(vec![host("a", "A", password(Some(&marker)))]));
    let kept = s.upsert(&mut Keyring::new(), host("a", "A", password(None)), 0);
    assert_eq!(secret(&kept), Some(marker.clone()));
    // Another kind of authentication starts without it.
    let key = AuthMethod::Key { path: "~/k".to_string(), passphrase: None };
    assert_eq!(secret(&s.upsert(&mut Keyring::new(), host("a", "A", key), 0)), None);
    // A marker that is given wins.
    let other = format!("{MARKER_PREFIX}x:password");
    assert_eq!(secret(&s.upsert(&mut Keyring::new(), host("a", "A", password(Some(&other))), 0)), Some(other));
}

#[test]
fn a_host_needs_a_name_an_address_a_user_and_a_port() {
    let mut s = HostStore::load(None);
    let mut h = host("a", " ", AuthMethod::Agent);
    assert_eq!(check_host(&h).unwrap_err(), "name, host and username are required");
    assert_eq!(
        save_host(&mut s, &mut Keyring::new(), h.clone(), 0).unwrap_err(),
        "name, host and username are required"
    );
    h.name = "A".to_string();
    h.port = 0;
    assert_eq!(save_host(&mut s, &mut Keyring::new(), h.clone(), 0).unwrap_err(), "invalid port");
    assert!(s.list().is_empty());
    h.port = 22;
    assert!(save_host(&mut s, &mut Keyring::new(), h, 0).is_ok());
    assert_eq!(s.list().len(), 1);
}

#[test]
fn a_copy_has_its_own_id_and_name() {
    let mut s = HostStore::load(Some(vec![host("a", "A", AuthMethod::Agent)]));
    let copy = s.duplicate(&mut Keyring::new(), "a", 0xff).unwrap();
    assert_eq!(copy.id, "hff1");
    assert_eq!(copy.name, "A copy");
    assert_eq!(s.list().len(), 2);
    assert_eq!(s.duplicate(&mut Keyring::new(), "zz", 0).unwrap_err(), "host not found");
    let c = duplicate_of(&host("a", "A", password(Some("keyring:a:password"))), Some("pw".into()));
    assert_eq!(secret(&c), Some("pw".to_string()));
}

#[test]
fn a_jump_host_is_looked_up() {
    let mut via = host("b", "B", AuthMethod::Agent);
    let s = HostStore::load(Some(vec![host("a", "A", AuthMethod::Agent)]));
    assert!(resolve_jump(&s, &via, None).is_none());
    via.jump = Some("a".to_string());
    let (h, sec) = resolve_jump(&s, &via, Some("pw".to_string())).unwrap();
    assert_eq!(h.id, "a");
    assert_eq!(sec, Some("pw".to_string()));
    via.jump = Some("gone".to_string());
    assert!(resolve_jump(&s, &via, None).is_none());
    assert_eq!(require_host(&s, "gone").unwrap_err(), "host not found");
    assert_eq!(require_host(&s, "a").unwrap().name, "A");
    assert_eq!(default_bind(), "127.0.0.1");
}

#[test]
fn markers_lead_to_their_entries() {
    assert_eq!(key("h1", "password"), "h1:password");
    assert!(has_marker("keyring:h1:password"));
    assert!(!has_marker("pw"));
    assert_eq!(lookup_key(&Some("keyring:h1:password".into())), Some("h1:password".into()));
    assert_eq!(lookup_key(&Some("pw".into())), None);
    assert_eq!(resolve_with(&Some("keyring:k".into()), Some("pw".into())), Some("pw".into()));
    assert_eq!(resolve_with(&Some("keyring:k".into()), None), None);
    assert_eq!(resolve_with(&Some("plain".into()), None), Some("plain".into()));
    assert_eq!(resolve_with(&None, Some("pw".into())), None);
}

#[test]
fn a_secret_in_the_clear_is_taken_as_it_is() {
    assert_eq!(resolve_opt(&mut Keyring::new(), &Some("plain".to_string())), Some("plain".to_string()));
    assert_eq!(resolve_opt(&mut Keyring::new(), &None), None);
}

#[test]
fn a_secret_is_swapped_for_a_marker() {
    let mut h = host("h1", "A", password(Some("pw")));
    assert_eq!(secret_to_store(&h), Some(("password".to_string(), "pw".to_string())));
    protect_with(&mut h, false);
    assert_eq!(secret(&h), Some("pw".to_string()));
    protect_with(&mut h, true);
    assert_eq!(secret(&h), Some("keyring:h1:password".to_string()));
    assert_eq!(secret_to_store(&h), None);
    protect_with(&mut h, true);
    assert_eq!(secret(&h), Some("keyring:h1:password".to_string()));
    let mut k = host(
        "h2",
        "B",
        AuthMethod::Key { path: "/k".into(), passphrase: Some("pp".into()) },
    );
    protect_with(&mut k, true);
    assert_eq!(secret(&k), Some("keyring:h2:passphrase".to_string()));
    let mut e = host("h3", "C", password(Some("")));
    protect_with(&mut e, true);
    assert_eq!(secret(&e), Some(String::new()));
}

#[test]
fn hosts_without_a_clear_secret_are_left_alone() {
    let mut h = host("h1", "A", AuthMethod::Agent);
    protect(&mut Keyring::new(), &mut h);
    assert!(matches!(h.auth, AuthMethod::Agent));
    let mut m = host("h1", "A", password(Some("keyring:h1:password")));
    protect(&mut Keyring::new(), &mut m);
    assert_eq!(secret(&m), Some("keyring:h1:password".to_string()));
}

#[test]
fn a_host_has_two_entries() {
    let want = vec!["h1:password".to_string(), "h1:passphrase".to_string()];
    assert_eq!(host_keys("h1"), want);
}

#[test]
fn the_keyring_is_asked_for_the_right_things() {
    match store_call("h1", "password", "pw") {
        KeyringCall::Store { service, user, password } => assert_eq!(
            (service.as_str(), user.as_str(), password.as_str()),
            (SERVICE, "h1:password", "pw")
        ),
        _ => panic!("not stored"),
    }
    match load_call("h1:password") {
        KeyringCall::Load { service, user } => {
            assert_eq!((service.as_str(), user.as_str()), ("dev.sshworkspace", "h1:password"))
        }
        _ => panic!("not looked up"),
    }
    assert!(matches!(delete_call("k"), KeyringCall::Delete { user, .. } if user == "k"));
    assert_eq!(
        stored_as("h1", "password", &KeyringReply::Done),
        Some("keyring:h1:password".to_string())
    );
    assert_eq!(stored_as("h1", "password", &KeyringReply::Refused), None);
    assert_eq!(loaded(KeyringReply::Secret("pw".into())), Some("pw".to_string()));
    assert_eq!(loaded(KeyringReply::Refused), None);
}

#[test]
fn the_answers_of_the_keyring_are_read() {
    assert!(matches!(done_reply(Ok(())), KeyringReply::Done));
    assert!(matches!(done_reply(Err(keyring::Error::NoEntry)), KeyringReply::Refused));
    assert!(matches!(secret_reply(Ok("pw".into())), KeyringReply::Secret(p) if p == "pw"));
    assert!(matches!(secret_reply(Err(keyring::Error::NoEntry)), KeyringReply::Refused));
}

#[test]
fn hosts_share_no_entries() {
    for a in host_keys("h1") {
        assert!(!host_keys("h12").contains(&a));
    }
}

type Entries = Arc<Mutex<BTreeMap<(String, String), String>>>;

/// A credential store in memory. It refuses to store the word `no`.
struct Memory(Entries);

struct Slot {
    entries: Entries,
    key: (String, String),
}

impl CredentialBuilderApi for Memory {
    fn build(&self, _: Option<&str>, service: &str, user: &str) -> keyring::Result<Box<Credential>> {
        let key = (service.to_string(), user.to_string());
        Ok(Box::new(Slot { entries: self.0.clone(), key }))
    }

    fn as_any(&self) -> &dyn Any {
        self
    }
}

impl CredentialApi for Slot {
    fn set_password(&self, password: &str) -> keyring::Result<()> {
        if password == "no" {
            return Err(keyring::Error::NoEntry);
        }
        self.entries.lock().unwrap().insert(self.key.clone(), password.to_string());
        Ok(())
    }

    fn set_secret(&self, _: &[u8]) -> keyring::Result<()> {
        Err(keyring::Error::NoEntry)
    }

    fn get_password(&self) -> keyring::Result<String> {
        let found = self.entries.lock().unwrap().get(&self.key).cloned();
        found.ok_or(keyring::Error::NoEntry)
    }

    fn get_secret(&self) -> keyring::Result<Vec<u8>> {
        Err(keyring::Error::NoEntry)
    }

    fn delete_credential(&self) -> keyring::Result<()> {
        let gone = self.entries.lock().unwrap().remove(&self.key);
        gone.map(|_| ()).ok_or(keyring::Error::NoEntry)
    }

    fn as_any(&self) -> &dyn Any {
        self
    }
}

fn entry(user: &str, password: &str) -> ((String, String), String) {
    (("dev.sshworkspace".to_string(), user.to_string()), password.to_string())
}

#[test]
fn secrets_go_through_the_keyring() {
    let entries: Entries = Arc::new(Mutex::new(BTreeMap::new()));
    keyring::set_default_credential_builder(Box::new(Memory(entries.clone())));
    let held = || -> Vec<_> { entries.lock().unwrap().clone().into_iter().collect() };
    let mut k = Keyring::new();
    assert_eq!(store(&mut k, "h1", "password", "pw").as_deref(), Some("keyring:h1:password"));
    assert_eq!(store(&mut k, "h2", "passphrase", "pp").as_deref(), Some("keyring:h2:passphrase"));
    assert_eq!(store(&mut k, "h3", "password", "no"), None);
    assert_eq!(held(), [entry("h1:password", "pw"), entry("h2:passphrase", "pp")]);
    let marker = |s: &str| Some(format!("keyring:{s}"));
    assert_eq!(resolve_opt(&mut k, &marker("h1:password")).as_deref(), Some("pw"));
    assert_eq!(resolve_opt(&mut k, &marker("h2:passphrase")).as_deref(), Some("pp"));
    assert_eq!(resolve_opt(&mut k, &marker("h1:passphrase")), None);
    delete_host(&mut k, "h1");
    assert_eq!(held(), [entry("h2:passphrase", "pp")]);

    // A host that is saved, copied, logged in to and forgotten.
    let mut s = HostStore::load(None);
    let saved = save_host(&mut s, &mut k, host("a", "A", password(Some("s3"))), 0).unwrap();
    assert_eq!(secret(&saved).as_deref(), Some("keyring:a:password"));
    let copy = s.duplicate(&mut k, "a", 0xff).unwrap();
    assert_eq!((copy.id.as_str(), copy.name.as_str()), ("hff1", "A copy"));
    assert_eq!(secret(&copy).as_deref(), Some("keyring:hff1:password"));
    let ids: Vec<String> = s.list().into_iter().map(|h| h.id).collect();
    assert_eq!(ids, ["a", "hff1"]);
    delete_host(&mut k, "a");
    assert_eq!(held(), [entry("h2:passphrase", "pp"), entry("hff1:password", "s3")]);
    let l = authenticate(&mut k, &copy, None, "password", true);
    assert!(matches!(l.next(), AuthAction::TryPassword(p) if p == "s3"));
    let l = authenticate(&mut k, &saved, None, "password", true);
    assert!(matches!(l.next(), AuthAction::Ask(_)));
    let kept = s.upsert(&mut k, host("b", "B", password(Some("no"))), 0);
    assert_eq!(secret(&kept).as_deref(), Some("no"));
}

#[test]
fn the_keyring_takes_a_secret_or_not() {
    let mut h = host("no-such-host-of-a-test", "A", password(Some("pw")));
    protect(&mut Keyring::new(), &mut h);
    match secret(&h) {
        Some(s) if has_marker(&s) => {
            assert_eq!(s, "keyring:no-such-host-of-a-test:password");
            assert_eq!(resolve_opt(&mut Keyring::new(), &Some(s)), Some("pw".to_string()));
        }
        other => assert_eq!(other, Some("pw".to_string())),
    }
    delete_host(&mut Keyring::new(), "no-such-host-of-a-test");
}

// ---------- the client's configuration ----------

fn names(config: &str) -> Vec<String> {
    parse_ssh_config(Some(config), "me").iter().map(|e| e.name.clone()).collect()
}

#[test]
fn a_configuration_is_read() {
    let es = parse_ssh_config(
        Some(
            "# mine\nHost web\n  HostName 10.0.0.1\n  Port 2222\n  User root\n  IdentityFile ~/.ssh/a\n  IdentityFile ~/.ssh/b\nHost *\n  Port 1\nHost db\n",
        ),
        "me",
    );
    assert_eq!(es.len(), 2);
    assert_eq!(es[0].name, "web");
    assert_eq!(es[0].host, "10.0.0.1");
    assert_eq!(es[0].port, 2222);
    assert_eq!(es[0].username, "root");
    assert_eq!(es[0].identity_file, Some("~/.ssh/a".to_string()));
    assert_eq!(es[1].name, "db");
    assert_eq!(es[1].host, "db");
    assert_eq!(es[1].port, 22);
    assert_eq!(es[1].username, "me");
    assert_eq!(es[1].identity_file, None);
}

#[test]
fn directives_may_have_an_equals_sign() {
    let es = parse_ssh_config(Some("HOST=web\nhostname = \"10.0.0.1\"\nPORT=\t23\nUser='x'\n"), "");
    assert_eq!(es.len(), 1);
    assert_eq!(es[0].name, "web");
    // "hostname = x" leaves "= x" behind the first break.
    assert_eq!(es[0].host, "= \"10.0.0.1");
    assert_eq!(es[0].port, 23);
    assert_eq!(es[0].username, "x");
}

#[test]
fn patterns_and_match_blocks_are_skipped() {
    assert_eq!(names("Host a b\n"), Vec::<String>::new());
    assert_eq!(names("Host a*\nHost ?\nHost !x\nHost\n"), Vec::<String>::new());
    assert_eq!(names("Host a\nMatch user x\n  Port 3\nHost b\n"), vec!["a", "b"]);
    let es = parse_ssh_config(Some("Host a\nMatch all\nPort 3\n"), "");
    assert_eq!(es[0].port, 22);
    assert!(parse_ssh_config(None, "me").is_empty());
}

#[test]
fn blocks_stand_for_themselves() {
    let show = |c: &str| -> Vec<String> {
        let es = parse_ssh_config(Some(c), "me");
        es.iter().map(|e| format!("{} {} {} {}", e.name, e.host, e.port, e.username)).collect()
    };
    let (a, b) = ("Port 9\nHost a\nPort 1\nUser x\n", "Host b\nHostName h\nHost *\nUser y\nHost c\n");
    let both = show(&format!("{a}{b}"));
    assert_eq!(both, ["a a 1 x", "b h 22 me", "c c 22 me"]);
    assert_eq!(both, [show(a), show(b)].concat());
}

#[test]
fn what_cannot_be_read_is_left_as_it_was() {
    let es = parse_ssh_config(Some("Host a\nPort x\nPort 70000\nHostName\nUser\n"), "me");
    assert_eq!(es[0].port, 22);
    assert_eq!(es[0].host, "a");
    assert_eq!(es[0].username, "");
}
