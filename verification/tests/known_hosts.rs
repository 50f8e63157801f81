use ssh_workspace::known_hosts::{
    check_host_key, count_found, key_error, key_name, keygen_removed, keygen_total, patterns, reset_host_key,
    reset_plan, KeyCheck, KeyStep, KeyVerdict, ResetPlan,
};

fn reset(content: &str, host: &str, port: u16) -> (usize, String) {
    let (n, text) = reset_host_key(Some(content), host, port);
    (n, text.unwrap())
}

#[test]
fn reset_removes_host_keeps_others() {
    let (removed, content) = reset(
        "# comment\nexample.com ssh-ed25519 AAAA\nother.com ssh-rsa BBBB\n[example.com]:2222 ssh-ed25519 CCCC\n",
        "example.com",
        22,
    );
    assert!(removed >= 1);
    assert!(!content.contains("example.com ssh-ed25519"));
    assert!(content.contains("other.com"));
    // [host]:port lines are a different pattern — untouched by port 22.
    assert!(content.contains("[example.com]:2222"));
    assert_eq!(
        content,
        "# comment\nother.com ssh-rsa BBBB\n[example.com]:2222 ssh-ed25519 CCCC\n"
    );
}

#[test]
fn reset_removes_port_variant() {
    let (_, content) = reset(
        "example.com ssh-ed25519 AAAA\n[example.com]:2222 ssh-ed25519 CCCC\n",
        "example.com",
        2222,
    );
    assert!(!content.contains("ssh-ed25519 AAAA"));
    assert!(!content.contains("[example.com]:2222"));
}

#[test]
fn reset_missing_file_is_zero() {
    assert_eq!(reset_host_key(None, "h", 22), (0, None));
    assert_eq!(reset_plan(false, true), ResetPlan::Nothing);
}

#[test]
fn reset_counts_what_it_removes() {
    let (n, text) = reset("h a b\nx,h c d\n  h e f\n", "h", 22);
    assert_eq!(n, 3);
    assert_eq!(text, "");
}

#[test]
fn reset_keeps_comments_blank_lines_and_hashed_entries() {
    let content = "#h a\n\n|1|abc|def h\nhh a\n";
    let (n, text) = reset(content, "h", 22);
    assert_eq!(n, 0);
    assert_eq!(text, content);
}

#[test]
fn reset_ends_the_last_line() {
    let (n, text) = reset("h a\nother b", "h", 22);
    assert_eq!(n, 1);
    assert_eq!(text, "other b\n");
}

#[test]
fn resetting_twice_removes_nothing_more() {
    let (n, once) = reset("a x\r\nh y\r\nb z", "h", 22);
    assert_eq!(n, 1);
    let (m, twice) = reset(&once, "h", 22);
    assert_eq!(m, 0);
    assert_eq!(twice, once);
}

#[test]
fn what_is_stored_is_forgotten() {
    for port in [22, 2222] {
        let line = format!("{} ssh-ed25519 AAAA\n", key_name("example.com", port));
        assert_eq!(reset(&line, "example.com", port), (1, String::new()));
    }
}

#[test]
fn ways_to_reset() {
    assert_eq!(reset_plan(true, true), ResetPlan::Keygen);
    assert_eq!(reset_plan(true, false), ResetPlan::Rewrite);
    assert_eq!(reset_plan(false, false), ResetPlan::Nothing);
    assert_eq!(patterns("h", 22), vec!["h".to_string()]);
    assert_eq!(patterns("h", 2022), vec!["h".to_string(), "[h]:2022".to_string()]);
}

#[test]
fn the_words_of_keygen_are_counted() {
    let out = b"# Host h found: line 3\n# Host h found: line 9\nh updated.\n\xff found: line\n";
    assert_eq!(keygen_removed(out), 3);
    assert_eq!(keygen_removed(b""), 0);
    assert_eq!(keygen_total(&vec![Some(out.to_vec()), None, Some(out.to_vec())]), 6);
    assert_eq!(keygen_total(&vec![]), 0);
    assert_eq!(count_found("Host h not found in file"), 0);
}

#[test]
fn a_known_key_is_trusted() {
    assert!(matches!(check_host_key(KeyCheck::Match, "h", 22, "/k"), KeyVerdict::Trusted));
}

#[test]
fn an_unknown_key_is_stored() {
    match check_host_key(KeyCheck::NotFound, "h", 2222, "/k") {
        KeyVerdict::Store { name, notice } => {
            assert_eq!(name, "[h]:2222");
            assert_eq!(notice, "First connection: stored host key for [h]:2222 in /k");
        }
        _ => panic!("not stored"),
    }
    match check_host_key(KeyCheck::NotFound, "h", 22, "/k") {
        KeyVerdict::Store { name, .. } => assert_eq!(name, "h"),
        _ => panic!("not stored"),
    }
}

#[test]
fn a_changed_key_is_refused() {
    match check_host_key(KeyCheck::Mismatch, "h", 22, "/k") {
        KeyVerdict::Refused(e) => assert_eq!(
            e,
            "HOST KEY MISMATCH for h:22.\nThe server's key differs from the one in /k.\nIf the server was reinstalled/upgraded, use \"reset key\" on the host and reconnect."
        ),
        _ => panic!("not refused"),
    }
    match check_host_key(KeyCheck::Failure, "h", 22, "/k") {
        KeyVerdict::Refused(e) => assert_eq!(e, "host key verification failed"),
        _ => panic!("not refused"),
    }
}

#[test]
fn what_goes_wrong_with_known_keys() {
    assert_eq!(key_error(KeyStep::Present, "/k", "x"), "server did not present a host key");
    assert_eq!(key_error(KeyStep::Open, "/k", "x"), "x");
    assert_eq!(key_error(KeyStep::Read, "/k", "x"), "cannot read /k: x");
    assert_eq!(key_error(KeyStep::Store, "/k", "x"), "cannot store host key: x");
    assert_eq!(key_error(KeyStep::Write, "/k", "x"), "cannot write /k: x");
}
