use ssh_workspace::files::local_stat_on;
use ssh_workspace::paths::{
    edit_file, edit_file_in, expand_tilde, expand_tilde_in, file_name, hosts_file, hosts_file_in,
    join, log_file_in, show, ssh_file, ssh_file_in, system, xauthority, xauthority_in, System,
};
use ssh_workspace::text::{
    chars_of, contains_text, decimal, ends_with, hexadecimal, hexadecimal4, is_whitespace,
    parse_u16, same, split_lines, starts_with, string_of, take_digits, to_ascii_lower, trim_class,
    CharClass,
};
use ssh_workspace::waits::{
    time_left, KEEPALIVE_MILLIS, PROMPT_MILLIS, REPORT_MILLIS, SOCKET_MILLIS, WATCH_MILLIS,
    WORKER_MILLIS,
};

#[test]
fn white_space_is_what_std_says() {
    for c in '\0'..=char::MAX {
        assert_eq!(is_whitespace(c), c.is_whitespace(), "{c:?}");
    }
}

#[test]
fn numbers_are_written_like_std() {
    for n in [0u64, 1, 9, 10, 11, 22, 99, 100, 65535, u64::MAX] {
        assert_eq!(decimal(n), n.to_string());
    }
    for n in [0u128, 15, 16, 255, 256, 0x18f3a, u128::MAX] {
        assert_eq!(hexadecimal(n), format!("{n:x}"));
    }
    for n in [0u16, 0xf, 0x10, 0x403, 0x6001, 0xffff] {
        assert_eq!(hexadecimal4(n), format!("{n:04x}"));
    }
}

#[test]
fn numbers_are_read_like_std() {
    for s in ["0", "22", "+22", "065535", "65535", "65536", "", "+", "-1", "2a", " 2", "++1"] {
        assert_eq!(parse_u16(&chars_of(s)), s.parse::<u16>().ok(), "{s:?}");
    }
}

#[test]
fn lines_are_cut_like_std() {
    for s in ["", "\n", "a", "a\n", "a\nb", "a\r\nb\r\n", "a\r", "a\r\r\n", "\n\na", "a\rb\n"] {
        let chars = chars_of(s);
        let got: Vec<String> = split_lines(&chars).iter().map(|l| string_of(l)).collect();
        let want: Vec<String> = s.lines().map(|l| l.to_string()).collect();
        assert_eq!(got, want, "{s:?}");
    }
}

#[test]
fn texts_are_compared_and_trimmed() {
    let c = chars_of("  Hello, World \t");
    assert_eq!(string_of(trim_class(&c, CharClass::Space)), "Hello, World");
    assert!(starts_with(&c, "  He"));
    assert!(!starts_with(&c, "He"));
    assert!(ends_with(&c, "World \t"));
    assert!(contains_text(&c, "lo, W"));
    assert!(contains_text(&c, ""));
    assert!(!contains_text(&c, "lo,W"));
    assert!(same("é", "é"));
    assert!(!same("é", "e"));
    assert_eq!(string_of(&to_ascii_lower(&chars_of("HoSt-É"))), "host-É");
    assert_eq!(string_of(take_digits(&chars_of("12.0"))), "12");
}

/// Joins on a system and gives the text.
fn joined(sys: System, a: &str, b: &str) -> String {
    show(sys, &join(sys, a.as_bytes(), b.as_bytes()))
}

fn named(sys: System, p: &str) -> Option<String> {
    file_name(sys, p.as_bytes()).map(|n| show(sys, &n))
}

fn bytes(p: std::path::PathBuf) -> Vec<u8> {
    p.into_os_string().into_encoded_bytes()
}

#[test]
fn paths_are_joined() {
    for (a, b, want) in [
        ("/a", "b", "/a/b"),
        ("/a/", "b", "/a/b"),
        ("", "b", "b"),
        ("/a", "/b", "/b"),
        ("/", "b", "/b"),
        ("/a", "", "/a/"),
        ("/a\\", "b", "/a\\/b"),
        ("C:", "b", "C:/b"),
    ] {
        assert_eq!(joined(System::Unix, a, b), want, "{a:?} {b:?}");
    }
}

#[test]
fn paths_are_joined_on_windows() {
    for (a, b, want) in [
        ("C:\\a", "b", "C:\\a\\b"),
        ("C:\\a\\", "b", "C:\\a\\b"),
        ("C:/a/", "b", "C:/a/b"),
        ("C:", "b", "C:b"),
        ("C:\\a", "D:\\b", "D:\\b"),
        ("C:\\a", "D:b", "D:b"),
        ("C:\\a", "\\b", "C:\\b"),
        ("\\\\srv\\share\\a", "\\b", "\\\\srv\\share\\b"),
        ("\\\\srv\\share", "b", "\\\\srv\\share\\b"),
        ("C:\\a", "\\\\srv\\share\\b", "\\\\srv\\share\\b"),
        ("a", "b", "a\\b"),
        ("", "b", "b"),
        ("\\\\.\\COM1", "b", "\\\\.\\COM1\\b"),
        // Word for word: only `\` separates, and dots are carried out.
        ("\\\\?\\C:\\a", "b", "\\\\?\\C:\\a\\b"),
        ("\\\\?\\C:\\a", "b/c", "\\\\?\\C:\\a\\b\\c"),
        ("\\\\?\\C:\\a\\", "..\\.\\b", "\\\\?\\C:\\b"),
        ("\\\\?\\C:\\a", "..\\..\\..", "\\\\?\\C:\\"),
        ("\\\\?\\C:\\a", "\\b", "\\\\?\\C:\\b"),
        ("\\\\?\\C:\\a/x\\c", "..", "\\\\?\\C:\\a/x"),
        ("\\\\?\\C:\\.\\a", "b", "\\\\?\\C:\\.\\a\\b"),
        ("\\\\?\\C:", "b", "\\\\?\\C:\\b"),
        ("\\\\?\\UNC\\srv\\share", "b", "\\\\?\\UNC\\srv\\share\\b"),
        ("\\\\?\\C:\\a", "", "\\\\?\\C:\\a\\"),
        ("\\\\?\\C:\\a", "D:\\b", "D:\\b"),
        ("//?/C:/a", "..", "//?/C:/a\\.."),
    ] {
        assert_eq!(joined(System::Windows, a, b), want, "{a:?} {b:?}");
    }
}

#[test]
fn names_are_found_like_std() {
    for p in ["/a/b", "/a/b/", "b", "/", "", ".", "..", "a/..", "a/.", "a/./", "/a/b/.", "/a//b//", "a\\b"] {
        let want = std::path::Path::new(p)
            .file_name()
            .map(|n| n.to_string_lossy().to_string());
        assert_eq!(named(system(), p), want, "{p:?}");
    }
}

#[test]
fn names_are_found_on_windows() {
    for (p, want) in [
        ("C:\\a\\b.txt", Some("b.txt")),
        ("C:/a/b.txt", Some("b.txt")),
        ("C:b.txt", Some("b.txt")),
        ("a\\b/", Some("b")),
        ("C:\\", None),
        ("C:", None),
        ("\\\\srv\\share", None),
        ("\\\\srv\\share\\f", Some("f")),
        ("\\\\?\\C:\\a", Some("a")),
        ("\\\\?\\UNC\\srv\\share", None),
        ("\\\\?\\UNC\\srv\\share\\f", Some("f")),
        ("a\\..", None),
        ("a\\.", Some("a")),
        ("\\\\?\\C:\\a/b", Some("a/b")),
        ("\\\\?\\C:/a/b", Some("a/b")),
        ("\\\\?\\C:\\a\\.", None),
        ("\\\\?\\C:", None),
        ("\\\\?\\C:x", None),
        ("\\\\?\\", None),
        ("\\\\?\\name", None),
        ("\\\\?\\UNC\\srv", None),
        ("//?/UNC/srv/share", Some("share")),
        ("\\\\.\\COM1", None),
        ("\\\\.\\COM1\\f", Some("f")),
        ("\\\\srv", Some("srv")),
    ] {
        assert_eq!(named(System::Windows, p).as_deref(), want, "{p:?}");
    }
    assert_eq!(named(System::Unix, "C:\\a\\b").as_deref(), Some("C:\\a\\b"));
}

#[test]
fn names_need_not_be_text() {
    let p = join(System::Unix, b"/d\xff", b"\xfe.txt");
    assert_eq!(p, b"/d\xff/\xfe.txt");
    assert_eq!(file_name(System::Unix, &p), Some(b"\xfe.txt".to_vec()));
    assert_eq!(show(System::Unix, &p), "/d\u{fffd}/\u{fffd}.txt");
    assert_eq!(show(System::Unix, "/é".as_bytes()), "/é");
    assert_eq!(expand_tilde_in(System::Unix, "~/x", &Some(b"/h\xff".to_vec())), b"/h\xff/x");
}

#[test]
fn half_a_pair_shows_as_one_mark() {
    // An unpaired surrogate, as a name on Windows may hold it.
    let name = b"a\xed\xa0\x80b\xed\xbf\xbf";
    assert_eq!(show(System::Windows, name), "a\u{fffd}b\u{fffd}");
    assert_eq!(show(System::Unix, name), "a\u{fffd}\u{fffd}\u{fffd}b\u{fffd}\u{fffd}\u{fffd}");
    for text in ["C:\\é", "\u{d7ff}\u{e000}\u{ffff}\u{10ffff}", "\u{fffd}", ""] {
        assert_eq!(show(System::Windows, text.as_bytes()), text);
    }
    let e = local_stat_on(System::Windows, b"C:\\\xed\xa0\x80", Err("e".into()));
    assert_eq!(e.unwrap_err(), "cannot stat C:\\\u{fffd}: e");
}

#[test]
fn joining_is_what_std_does() {
    for (a, b) in [("/a", "b"), ("/a/", "b"), ("", "b"), ("/a", "/b"), ("/", "b"), ("a", "b/c")] {
        let want = std::path::Path::new(a).join(b).display().to_string();
        assert_eq!(joined(system(), a, b), want, "{a:?} {b:?}");
    }
}

#[test]
fn a_tilde_is_expanded() {
    let expand = |p: &str, h: Option<&str>| {
        show(System::Unix, &expand_tilde_in(System::Unix, p, &h.map(|x| x.as_bytes().to_vec())))
    };
    assert_eq!(expand("~/x/y", Some("/home/u")), "/home/u/x/y");
    assert_eq!(expand("~/x", None), "~/x");
    assert_eq!(expand("~", Some("/home/u")), "~");
    assert_eq!(expand("~u/x", Some("/home/u")), "~u/x");
    assert_eq!(expand("/~/x", Some("/home/u")), "/~/x");
    let windows = expand_tilde_in(System::Windows, "~/x", &Some(b"C:\\u".to_vec()));
    assert_eq!(windows, b"C:\\u\\x");
}

#[test]
fn the_home_directory_is_asked_for() {
    let want = match dirs::home_dir() {
        Some(h) => bytes(h.join("x")),
        None => b"~/x".to_vec(),
    };
    assert_eq!(expand_tilde("~/x"), want);
    assert_eq!(expand_tilde("/etc/x"), b"/etc/x");
}

#[test]
fn files_have_their_places() {
    let u = System::Unix;
    let at = |s: &str| Some(s.as_bytes().to_vec());
    assert_eq!(hosts_file_in(u, at("/c")), b"/c/ssh-workspace/hosts.json");
    assert_eq!(hosts_file_in(u, None), b"./ssh-workspace/hosts.json");
    assert_eq!(ssh_file_in(u, at("/home/u"), "known_hosts"), b"/home/u/.ssh/known_hosts");
    assert_eq!(ssh_file_in(u, None, "config"), b"./.ssh/config");
    assert_eq!(edit_file_in(u, at("/k"), "f1", "/srv/a.txt"), "/k/ssh-workspace/edit/f1/a.txt");
    assert_eq!(edit_file_in(u, None, "f1", "/"), "/tmp/ssh-workspace/edit/f1/file");
    assert_eq!(
        edit_file_in(System::Windows, at("C:\\k"), "f1", "/srv/a\\b.txt"),
        "C:\\k\\ssh-workspace/edit\\f1\\b.txt"
    );
    assert_eq!(log_file_in(u, at("/d"), "s1", 7, true), b"/d/ssh-workspace/casts/s1-7.cast");
    assert_eq!(log_file_in(u, None, "s1", 7, false), b"./ssh-workspace/logs/s1-7.log");
}

#[test]
fn the_directories_of_the_user_are_asked_for() {
    let sys = system();
    assert_eq!(hosts_file(), hosts_file_in(sys, dirs::config_dir().map(bytes)));
    let home = dirs::home_dir().map(bytes);
    assert_eq!(ssh_file("known_hosts"), ssh_file_in(sys, home.clone(), "known_hosts"));
    let cache = dirs::cache_dir().map(bytes);
    assert_eq!(edit_file("f9", "/r/x"), edit_file_in(sys, cache, "f9", "/r/x"));
    assert_eq!(xauthority(None), xauthority_in(sys, None, home));
}

#[test]
fn cookies_have_their_place() {
    let at = |s: &str| Some(s.as_bytes().to_vec());
    let u = System::Unix;
    assert_eq!(xauthority_in(u, at("/x"), at("/home/u")), at("/x"));
    assert_eq!(xauthority_in(u, None, at("/home/u")), at("/home/u/.Xauthority"));
    assert_eq!(xauthority_in(u, None, None), None);
    assert_eq!(xauthority(at("/x")), at("/x"));
}

// ---------- waits ----------

#[test]
fn waits_run_out() {
    assert_eq!(time_left(10000, 0), 10000);
    assert_eq!(time_left(10000, 9999), 1);
    assert_eq!(time_left(10000, 10000), 0);
    assert_eq!(time_left(10000, u64::MAX), 0);
    assert_eq!((PROMPT_MILLIS, WORKER_MILLIS, WATCH_MILLIS), (300000, 10000, 1500));
    assert_eq!((KEEPALIVE_MILLIS, REPORT_MILLIS, SOCKET_MILLIS), (15000, 150, 30000));
}
