use ssh_workspace::files::{
    file_error, list_remote, local_delete, local_dir, local_dir_in, local_list, local_open,
    local_stat, local_stat_on, list_remote_on, open_cmd, real_or_given, remote_dir, sort_entries, Desktop, FileEntry, FileStep,
    ListFailure, ListResult, LocalFile, RemoteFile, Removal,
};
use ssh_workspace::hosts::{AuthMethod, Host};
use ssh_workspace::paths::{expand_tilde, system, System};
use ssh_workspace::progress::{copy_progress, progress_event, CopyAction, CopyEvent};
use ssh_workspace::sessions::Taken;
use ssh_workspace::sftp::{
    done, done_event, home_or_here, listing, rename_step, subsystem_error, synced_event, transfer_done,
    watch_edit, worker_step, ConnParams, Permit, Polled, SftpManager, SftpMsg, SftpReply,
    WatchAction, WatchEvent, WorkerAction, WorkerEvent,
};
use ssh_workspace::transfer::{
    delete_remote, download_path, upload_path, Walk, WalkAction, WalkEvent, WalkKind,
};
use ssh_workspace::text::show;

fn entry(name: &str, is_dir: bool) -> FileEntry {
    FileEntry {
        name: name.to_string(),
        path: format!("/d/{name}"),
        is_dir,
        size: 1,
        mtime: 2,
        perm: None,
        uid: None,
        gid: None,
    }
}

fn names(v: &[FileEntry]) -> Vec<String> {
    v.iter().map(|e| e.name.clone()).collect()
}

fn remote(path: &str, is_dir: bool) -> RemoteFile {
    RemoteFile {
        path: path.as_bytes().to_vec(),
        is_dir,
        size: Some(10),
        mtime: None,
        perm: Some(0o100644),
        uid: Some(1),
        gid: None,
    }
}

fn local(name: &str) -> LocalFile {
    LocalFile {
        name: name.as_bytes().to_vec(),
        path: format!("/d/{name}").into_bytes(),
        is_dir: false,
        size: 5,
        mtime: Some(9),
        owner: Some((0o100755, 1000, 100)),
    }
}

// ---------- listings ----------

#[test]
fn directories_come_first_then_names_whatever_their_case() {
    let mut v = vec![
        entry("b", false),
        entry("Z", true),
        entry("A", false),
        entry("É", false),
        entry("a", true),
        entry("ab", false),
    ];
    sort_entries(&mut v);
    assert_eq!(names(&v), ["a", "Z", "A", "ab", "b", "É"]);
}

#[test]
fn equal_names_keep_their_order() {
    let mut v: Vec<FileEntry> = vec![entry("X", false), entry("x", false), entry("a", false)];
    v[0].size = 10;
    v[1].size = 20;
    sort_entries(&mut v);
    assert_eq!(names(&v), ["a", "X", "x"]);
    let mut w = vec![entry("x", false), entry("X", false)];
    sort_entries(&mut w);
    assert_eq!(names(&w), ["x", "X"]);
}

#[test]
fn sorting_is_what_std_does() {
    let mut v: Vec<FileEntry> = Vec::new();
    let mut n: u32 = 12345;
    for i in 0..500 {
        n = n.wrapping_mul(1103515245).wrapping_add(12345);
        let c = char::from(b'A' + (n >> 16) as u8 % 58);
        let mut e = entry(&format!("{c}{}", (n >> 8) % 7), n % 3 == 0);
        e.size = i;
        v.push(e);
    }
    let mut want = v.clone();
    want.sort_by(|a, b| {
        b.is_dir
            .cmp(&a.is_dir)
            .then_with(|| a.name.to_lowercase().cmp(&b.name.to_lowercase()))
    });
    sort_entries(&mut v);
    let key = |e: &FileEntry| (e.name.clone(), e.size);
    assert_eq!(v.iter().map(key).collect::<Vec<_>>(), want.iter().map(key).collect::<Vec<_>>());
}

#[test]
fn a_remote_directory_is_listed() {
    let found = vec![remote("/srv/b", false), remote("/srv/..", true), remote("a", true)];
    let l = list_remote(b"/srv", Ok(found)).unwrap();
    assert_eq!(l.path, "/srv");
    assert_eq!(names(&l.entries), ["a", "b"]);
    let b = &l.entries[1];
    assert_eq!(b.path, "/srv/b");
    assert_eq!((b.size, b.mtime, b.perm, b.uid, b.gid), (10, 0, Some(0o100644), Some(1), None));
    assert_eq!(list_remote(b"/srv", Err("no".into())).unwrap_err(), "cannot list /srv: no");
    assert_eq!(remote_dir(""), ".");
    assert_eq!(remote_dir("/x"), "/x");
    assert_eq!(real_or_given(Some(b"/r".to_vec()), b"g".to_vec()), b"/r");
    assert_eq!(real_or_given(None, b"g".to_vec()), b"g");
}

#[test]
fn a_local_directory_is_listed() {
    let l = local_list(b"/d", Ok(vec![local("b"), local("A")])).unwrap();
    assert_eq!(names(&l.entries), ["A", "b"]);
    let e = &l.entries[0];
    assert_eq!(e.path, "/d/A");
    assert_eq!((e.size, e.mtime, e.perm, e.uid, e.gid), (5, 9, Some(0o755), Some(1000), Some(100)));
    assert_eq!(
        local_list(b"/d", Err(ListFailure::Open("e".into()))).unwrap_err(),
        "cannot list /d: e"
    );
    assert_eq!(local_list(b"/d", Err(ListFailure::Entry("e".into()))).unwrap_err(), "e");
    let u = System::Unix;
    assert_eq!(local_dir_in(u, "", Some(b"/home/u".to_vec())), b"/home/u");
    assert_eq!(local_dir_in(u, "", None), b"/");
    assert_eq!(local_dir_in(u, "~/x", Some(b"/home/u".to_vec())), b"/home/u/x");
    assert_eq!(local_dir("/x"), b"/x");
    let home = dirs::home_dir().map(|p| p.into_os_string().into_encoded_bytes());
    assert_eq!(local_dir(""), local_dir_in(system(), "", home));
}

#[test]
fn one_local_path_is_described() {
    let mut f = local("ignored");
    f.owner = None;
    f.mtime = None;
    let e = local_stat(b"/d/x", Ok(f)).unwrap();
    assert_eq!((e.name.as_str(), e.path.as_str()), ("x", "/d/x"));
    assert_eq!((e.mtime, e.perm, e.uid), (0, None, None));
    assert_eq!(local_stat(b"/", Ok(local("x"))).unwrap().name, "/");
    assert_eq!(local_stat(b"/d/x", Err("e".into())).unwrap_err(), "cannot stat /d/x: e");
    assert_eq!(local_delete(b"/d", Ok(true)), Ok(Removal::Tree));
    assert_eq!(local_delete(b"/d", Ok(false)), Ok(Removal::File));
    assert_eq!(local_delete(b"/d", Err("e".into())), Err("cannot stat /d: e".to_string()));
}

#[test]
fn steps_fail_with_their_words() {
    for (step, words) in [
        (FileStep::Stat, "cannot stat /p: e"),
        (FileStep::List, "cannot list /p: e"),
        (FileStep::RemoveDir, "cannot remove dir /p: e"),
        (FileStep::Delete, "cannot delete /p: e"),
        (FileStep::Create, "cannot create /p: e"),
        (FileStep::Rename, "cannot rename /p: e"),
        (FileStep::Chmod, "cannot chmod /p: e"),
        (FileStep::Open, "cannot open /p: e"),
        (FileStep::Resume, "cannot resume /p: e"),
        (FileStep::Named, "/p: e"),
        (FileStep::Plain, "e"),
    ] {
        assert_eq!(file_error(step, "/p", "e"), words);
    }
}

#[test]
fn a_path_is_opened_with_the_desktop() {
    let l = open_cmd(b"/p\xff", Desktop::Unix);
    assert_eq!((l.program.as_str(), l.args), ("xdg-open", vec![b"/p\xff".to_vec()]));
    let l = open_cmd(b"/p", Desktop::Mac);
    assert_eq!((l.program.as_str(), l.args), ("open", vec![b"/p".to_vec()]));
    let l = open_cmd(b"/p", Desktop::Windows);
    let want: Vec<Vec<u8>> = ["/C", "start", "", "/p"].iter().map(|s| s.as_bytes().to_vec()).collect();
    assert_eq!((l.program.as_str(), l.args), ("cmd", want));
    assert_eq!(local_open("~/p", Desktop::Unix).args, vec![expand_tilde("~/p")]);
}

// ---------- walks ----------

/// A small tree: `/t` holds `a` and `d`, which holds `b`. The local side lists
/// names, the remote side paths.
fn reply(w: &Walk, local: bool, log: &mut Vec<String>) -> WalkEvent {
    let src = show(w.source());
    let note = |what: &str| format!("{what} {src} {}", show(w.target()));
    match w.next() {
        WalkAction::Stat => WalkEvent::Found {
            is_dir: src == "/t" || src == "/t/d",
            size: Some(100),
        },
        WalkAction::List => WalkEvent::Listed {
            entries: if src == "/t" && local {
                vec!["a".into(), "d".into()]
            } else if src == "/t" {
                vec!["/t/a".into(), "/t/..".into(), "/t/d".into()]
            } else {
                vec!["b".into()]
            },
            error: None,
        },
        WalkAction::Measure => WalkEvent::Measured(if src == "/t/a" { Some(40) } else { Some(100) }),
        WalkAction::MakeDir => {
            log.push(note("mkdir"));
            WalkEvent::Done
        }
        WalkAction::Copy => {
            log.push(note(&format!("copy@{}/{}", w.offset(), w.total())));
            WalkEvent::Done
        }
        WalkAction::Unlink => {
            log.push(format!("unlink {src}"));
            WalkEvent::Done
        }
        WalkAction::RemoveDir => {
            log.push(format!("rmdir {src}"));
            WalkEvent::Done
        }
        _ => WalkEvent::Done,
    }
}

fn walk(mut w: Walk, local: bool) -> Vec<String> {
    let mut log = Vec::new();
    for _ in 0..200 {
        if w.next() == WalkAction::Finish {
            assert_eq!(w.result(), Ok(()));
            return log;
        }
        let e = reply(&w, local, &mut log);
        w.step(e);
    }
    panic!("does not end");
}

#[test]
fn a_tree_is_copied() {
    let want = ["mkdir /t /x", "copy@0/100 /t/a /x/a", "mkdir /t/d /x/d", "copy@0/100 /t/d/b /x/d/b"];
    assert_eq!(walk(upload_path("/t", "/x", false), true), want);
    assert_eq!(walk(download_path("/t", "/x", false), false), want);
}

#[test]
fn only_a_part_is_continued() {
    let want = ["mkdir /t /x", "copy@40/100 /t/a /x/a", "mkdir /t/d /x/d", "copy@0/100 /t/d/b /x/d/b"];
    assert_eq!(walk(upload_path("/t", "/x", true), true), want);
    assert_eq!(walk(download_path("/t", "/x", true), false), want);
}

#[test]
fn a_tree_is_deleted_from_its_leaves() {
    assert_eq!(
        walk(delete_remote("/t"), false),
        ["unlink /t/a", "unlink /t/d/b", "rmdir /t/d", "rmdir /t"]
    );
    assert_eq!(walk(delete_remote("/f"), false), ["unlink /f"]);
}

fn fails(mut w: Walk, local: bool, at: WalkAction) -> Result<(), String> {
    let mut log = Vec::new();
    for _ in 0..200 {
        if w.next() == WalkAction::Finish {
            return w.result();
        }
        let e = if w.next() == at { WalkEvent::Failed("e".into()) } else { reply(&w, local, &mut log) };
        w.step(e);
    }
    panic!("does not end");
}

#[test]
fn a_walk_fails_with_its_words() {
    let err = |s: &str| Err(s.to_string());
    let up = |resume| upload_path("/t", "/x", resume);
    assert_eq!(fails(up(false), true, WalkAction::Stat), err("/t: e"));
    assert_eq!(fails(up(false), true, WalkAction::MakeDir), Ok(()));
    assert_eq!(fails(up(false), true, WalkAction::List), err("e"));
    assert_eq!(fails(up(false), true, WalkAction::OpenSource), err("e"));
    assert_eq!(fails(up(true), true, WalkAction::Seek), err("e"));
    assert_eq!(fails(up(false), true, WalkAction::OpenTarget), err("cannot create /x/a: e"));
    assert_eq!(fails(up(true), true, WalkAction::OpenTarget), err("cannot resume /x/a: e"));
    assert_eq!(fails(up(false), true, WalkAction::Copy), err("e"));
    let down = |resume| download_path("/t", "/x", resume);
    assert_eq!(fails(down(false), false, WalkAction::Stat), err("cannot stat /t: e"));
    assert_eq!(fails(down(false), false, WalkAction::MakeDir), err("e"));
    assert_eq!(fails(down(false), false, WalkAction::List), err("cannot list /t: e"));
    assert_eq!(fails(down(false), false, WalkAction::OpenSource), err("cannot open /t/a: e"));
    assert_eq!(fails(down(true), false, WalkAction::OpenTarget), err("e"));
    let del = || delete_remote("/t");
    assert_eq!(fails(del(), false, WalkAction::Stat), err("cannot stat /t: e"));
    assert_eq!(fails(del(), false, WalkAction::List), err("cannot list /t: e"));
    assert_eq!(fails(del(), false, WalkAction::Unlink), err("cannot delete /t/a: e"));
    assert_eq!(fails(del(), false, WalkAction::RemoveDir), err("cannot remove dir /t/d: e"));
}

#[test]
fn a_directory_that_breaks_off_fails_after_what_was_read() {
    let mut w = upload_path("/t", "/x", false);
    w.step(WalkEvent::Found { is_dir: true, size: None });
    w.step(WalkEvent::Done);
    w.step(WalkEvent::Listed { entries: vec!["a".into()], error: Some("broken".into()) });
    assert_eq!((w.next(), w.source(), w.target()), (WalkAction::Stat, &b"/t/a"[..], &b"/x/a"[..]));
    w.step(WalkEvent::Found { is_dir: false, size: None });
    assert_eq!(w.total(), 0);
    w.step(WalkEvent::Done);
    w.step(WalkEvent::Done);
    w.step(WalkEvent::Done);
    assert_eq!(w.next(), WalkAction::Finish);
    assert_eq!(w.result(), Err("broken".to_string()));
}

#[test]
fn an_upload_keeps_names_that_are_no_text() {
    let mut w = upload_path("/t", "/x", false);
    w.step(WalkEvent::Found { is_dir: true, size: None });
    w.step(WalkEvent::Done);
    w.step(WalkEvent::Listed { entries: vec![b"a\xff".to_vec()], error: None });
    assert_eq!((w.source(), w.target()), (&b"/t/a\xff"[..], &b"/x/a\xff"[..]));
    w.step(WalkEvent::Failed("e".into()));
    assert_eq!(w.result(), Err("/t/a\u{fffd}: e".to_string()));
    let mut w = download_path("/t", "/x", false);
    w.step(WalkEvent::Found { is_dir: true, size: None });
    w.step(WalkEvent::Done);
    w.step(WalkEvent::Listed { entries: vec![b"/t/a\xff".to_vec()], error: None });
    assert_eq!((show(w.source()), show(w.target())), ("/t/a\u{fffd}".into(), "/x/a\u{fffd}".into()));
    assert_eq!(w.target(), "/x/a\u{fffd}".as_bytes());
}

#[test]
fn a_walk_writes_paths_like_its_system() {
    let mut w = Walk::begin(System::Windows, WalkKind::Upload, "C:\\t", "/x", false);
    w.step(WalkEvent::Found { is_dir: true, size: None });
    w.step(WalkEvent::Done);
    w.step(WalkEvent::Listed { entries: vec![b"a".to_vec()], error: None });
    assert_eq!((w.source(), w.target()), (&b"C:\\t\\a"[..], &b"/x\\a"[..]));
}

#[test]
fn listings_follow_their_system() {
    let l = list_remote_on(System::Windows, b"/srv", Ok(vec![remote("/srv\\b", false)])).unwrap();
    assert_eq!((l.entries[0].name.as_str(), l.entries[0].path.as_str()), ("b", "/srv\\b"));
    let l = list_remote_on(System::Unix, b"/srv", Ok(vec![remote("/srv/a\\b", false)])).unwrap();
    assert_eq!(l.entries[0].name, "a\\b");
    let e = local_stat_on(System::Windows, b"C:\\d\\x.txt", Ok(local("y"))).unwrap();
    assert_eq!((e.name.as_str(), e.path.as_str()), ("x.txt", "C:\\d\\x.txt"));
    let e = local_stat_on(System::Windows, b"C:\\", Ok(local("y"))).unwrap();
    assert_eq!(e.name, "C:\\");
}

#[test]
fn nothing_is_renamed_over_what_is_there() {
    assert_eq!(rename_step("/o", false), Ok(()));
    assert_eq!(rename_step("/o", true), Err("cannot rename /o: target exists".to_string()));
}

// ---------- progress ----------

#[test]
fn progress_is_told_now_and_then() {
    let mut c = copy_progress(40);
    c.step(CopyEvent::Read(10));
    assert_eq!(c.next(), CopyAction::Write);
    c.step(CopyEvent::Done);
    c.step(CopyEvent::Elapsed(149));
    assert_eq!(c.next(), CopyAction::Read);
    c.step(CopyEvent::Read(20));
    c.step(CopyEvent::Done);
    c.step(CopyEvent::Elapsed(150));
    assert_eq!(c.next(), CopyAction::Report);
    let p = c.progress("op", "/t/a", 100);
    assert_eq!((p.id.as_str(), p.file.as_str(), p.done, p.total), ("op", "/t/a", 70, 100));
    c.step(CopyEvent::Done);
    c.step(CopyEvent::Read(0));
    assert_eq!(c.next(), CopyAction::LastReport);
    c.step(CopyEvent::Done);
    assert_eq!(c.next(), CopyAction::Finish);
    assert_eq!(c.result(), Ok(()));
    assert_eq!(progress_event("f1"), "sftp-progress-f1");
    let mut c = copy_progress(0);
    c.step(CopyEvent::Failed("e".into()));
    assert_eq!(c.result(), Err("e".to_string()));
    let mut c = copy_progress(u64::MAX);
    c.step(CopyEvent::Read(2));
    c.step(CopyEvent::Done);
    assert_eq!(c.progress("", "", 0).done, 1);
}

// ---------- the manager ----------

fn taken(m: &mut SftpManager, id: &str) -> SftpMsg {
    match m.take(id) {
        Taken::Command(c) => c,
        _ => panic!("nothing waits"),
    }
}

#[test]
fn questions_find_their_answers() {
    let mut m = SftpManager::new();
    let id = m.open("h1");
    assert_eq!(id, "f1");
    let a = m.list(&id, "/x").unwrap();
    let b = m.mkdir(&id, "/y").unwrap();
    assert!(matches!(m.poll(a), Polled::Waiting));
    assert!(matches!(taken(&mut m, &id), SftpMsg::List { path, ticket } if path == "/x" && ticket == a));
    m.answer(b, SftpReply::Done(Err("second".into())));
    m.answer(a, SftpReply::Listing(Ok(ListResult { path: "/x".into(), entries: vec![] })));
    m.answer(a, SftpReply::Done(Ok(())));
    match m.poll(a) {
        Polled::Answered(r) => assert_eq!(listing(Some(r)).unwrap().path, "/x"),
        _ => panic!("no answer"),
    }
    match m.poll(b) {
        Polled::Answered(r) => assert_eq!(done(Some(r)), Err("second".to_string())),
        _ => panic!("no answer"),
    }
    assert!(matches!(m.poll(a), Polled::Lost));
}

#[test]
fn messages_carry_what_was_asked() {
    let mut m = SftpManager::new();
    let id = m.open("h1");
    m.delete(&id, "/d").unwrap();
    m.rename(&id, "/o", "/n").unwrap();
    m.chmod(&id, "/c", 0o640).unwrap();
    m.transfer(&id, "op".into(), true, "/s".into(), "/t".into(), true).unwrap();
    m.upload_back(&id, "/l", "/r").unwrap();
    m.close(&id);
    assert!(matches!(taken(&mut m, &id), SftpMsg::Delete { path, .. } if path == "/d"));
    assert!(matches!(taken(&mut m, &id), SftpMsg::Rename { old_path, new_path, .. } if old_path == "/o" && new_path == "/n"));
    assert!(matches!(taken(&mut m, &id), SftpMsg::Chmod { mode: 0o640, .. }));
    assert!(matches!(taken(&mut m, &id), SftpMsg::Transfer { id, upload: true, src, dst, resume: true } if id == "op" && src == "/s" && dst == "/t"));
    assert!(matches!(taken(&mut m, &id), SftpMsg::Transfer { id, upload: true, src, dst, resume: false } if id == "w1" && src == "/l" && dst == "/r"));
    assert!(matches!(taken(&mut m, &id), SftpMsg::Disconnect));
    assert!(matches!(m.take(&id), Taken::Empty));
}

#[test]
fn a_file_is_fetched_to_be_edited() {
    let mut m = SftpManager::new();
    let id = m.open("h1");
    let (ticket, local) = m.edit_open(&id, "/srv/a.txt").unwrap();
    assert!(local.ends_with("/ssh-workspace/edit/f1/a.txt"));
    match taken(&mut m, &id) {
        SftpMsg::EditOpen { remote, local: l, ticket: t } => {
            assert_eq!((remote.as_str(), l, t), ("/srv/a.txt", local, ticket))
        }
        _ => panic!("not asked"),
    }
    assert_eq!(m.edit_open("f9", "/x").unwrap_err(), "sftp session not found");
}

#[test]
fn a_session_that_is_not_there_is_an_error() {
    let mut m = SftpManager::new();
    assert_eq!(m.list("f1", "/").unwrap_err(), "sftp session not found");
    assert_eq!(
        m.transfer("f1", "o".into(), false, "a".into(), "b".into(), false).unwrap_err(),
        "sftp session not found"
    );
    let id = m.open("h1");
    let t = m.list(&id, "/").unwrap();
    m.remove(&id);
    assert!(matches!(m.poll(t), Polled::Lost));
    assert_eq!(listing(None).unwrap_err(), "receiving on a closed channel");
    assert_eq!(done(None).unwrap_err(), "receiving on a closed channel");
    assert!(matches!(m.take(&id), Taken::Gone));
}

#[test]
fn file_sessions_of_a_host_are_told_to_end() {
    let mut m = SftpManager::new();
    let (a, b) = (m.open("h1"), m.open("h2"));
    m.disconnect_host("h1");
    assert!(matches!(taken(&mut m, &a), SftpMsg::Disconnect));
    assert!(matches!(m.take(&b), Taken::Empty));
    m.disconnect_all();
    assert!(matches!(taken(&mut m, &b), SftpMsg::Disconnect));
}

#[test]
fn watches_end_with_their_session() {
    let mut m = SftpManager::new();
    let (a, b) = (m.open("h1"), m.open("h1"));
    let (w, x) = (m.watch(&a), m.watch(&b));
    assert!(m.watch("f9").is_none());
    assert!(!m.is_cancelled(w));
    m.remove(&a);
    assert!(m.is_cancelled(w));
    assert!(!m.is_cancelled(x));
    assert!(!m.is_cancelled(None));
}

fn look(first: Option<u64>, now: Option<u64>) -> (WatchAction, Option<u64>) {
    let mut w = watch_edit(first);
    w.step(WatchEvent::Cancelled(false));
    assert_eq!(w.next(), WatchAction::Sleep);
    w.step(WatchEvent::Done);
    assert_eq!(w.next(), WatchAction::Look);
    w.step(WatchEvent::Changed(now));
    (w.next(), w.last)
}

#[test]
fn a_watched_file_is_taken_back_when_it_changes() {
    assert_eq!(look(Some(1), Some(2)), (WatchAction::Upload, Some(2)));
    assert_eq!(look(Some(2), Some(2)), (WatchAction::CheckCancelled, Some(2)));
    assert_eq!(look(Some(3), Some(2)), (WatchAction::Upload, Some(2)));
    assert_eq!(look(None, Some(2)), (WatchAction::CheckCancelled, None));
    assert_eq!(look(Some(1), None), (WatchAction::Stop, Some(1)));
    let mut w = watch_edit(Some(1));
    w.step(WatchEvent::Cancelled(true));
    assert_eq!(w.next(), WatchAction::Stop);
    for (took, next) in [(true, WatchAction::Announce), (false, WatchAction::Stop)] {
        let mut w = watch_edit(Some(1));
        w.step(WatchEvent::Cancelled(false));
        w.step(WatchEvent::Done);
        w.step(WatchEvent::Changed(Some(2)));
        w.step(WatchEvent::Sent(took));
        assert_eq!(w.next(), next);
    }
}

#[test]
fn four_transfers_run_at_once() {
    let mut p = Permit::new();
    for _ in 0..4 {
        assert!(p.acquire());
    }
    assert!(!p.acquire());
    p.release();
    assert!(p.acquire());
    assert!(!p.acquire());
}

#[test]
fn a_worker_waits_serves_and_stops() {
    assert_eq!(worker_step(WorkerAction::Wait, WorkerEvent::Message), WorkerAction::Serve);
    assert_eq!(worker_step(WorkerAction::Serve, WorkerEvent::Done), WorkerAction::Wait);
    assert_eq!(worker_step(WorkerAction::Wait, WorkerEvent::Empty(9999)), WorkerAction::Wait);
    assert_eq!(worker_step(WorkerAction::Wait, WorkerEvent::Empty(10000)), WorkerAction::Keepalive);
    assert_eq!(worker_step(WorkerAction::Keepalive, WorkerEvent::WouldBlock), WorkerAction::Wait);
    assert_eq!(worker_step(WorkerAction::Keepalive, WorkerEvent::Failed), WorkerAction::Stop);
    assert_eq!(worker_step(WorkerAction::Wait, WorkerEvent::Disconnect), WorkerAction::Stop);
    assert_eq!(worker_step(WorkerAction::Wait, WorkerEvent::Gone), WorkerAction::Stop);
    assert_eq!(worker_step(WorkerAction::Stop, WorkerEvent::Message), WorkerAction::Stop);
}

#[test]
fn a_transfer_is_over() {
    let t = transfer_done("op".into(), Ok(()));
    assert_eq!((t.id.as_str(), t.ok, t.error), ("op", true, None));
    let t = transfer_done("op".into(), Err("e".into()));
    assert_eq!((t.ok, t.error), (false, Some("e".to_string())));
    assert_eq!(done_event("f1"), "sftp-done-f1");
    assert_eq!(synced_event("f1"), "sftp-edit-synced-f1");
    assert_eq!(subsystem_error("e"), "sftp subsystem failed: e");
    assert_eq!(home_or_here(None), ".");
    assert_eq!(home_or_here(Some("/root".into())), "/root");
}

#[test]
fn connection_parameters_are_copied() {
    let host = Host {
        id: "h".into(),
        name: "n".into(),
        host: "x".into(),
        port: 1,
        username: "u".into(),
        auth: AuthMethod::Agent,
        x11: true,
        bookmarks: vec![],
        group: String::new(),
        jump: None,
        tunnels: vec![],
    };
    let c = ConnParams {
        host: host.clone(),
        secret: Some("s".into()),
        jump: Some((host, None)),
        known_hosts: b"/k".to_vec(),
    };
    let d = c.clone();
    assert_eq!((d.host.id.as_str(), d.secret, d.known_hosts.as_slice()), ("h", Some("s".to_string()), &b"/k"[..]));
    assert_eq!(d.jump.unwrap().0.host, "x");
}
