//! Files and directories, on both sides of a connection.

use vstd::prelude::*;
use crate::order;
use crate::order::SortKey;
use crate::paths;
use crate::paths::System;
use crate::text;

verus! {

/// A file or directory in a listing.
#[derive(Debug)]
pub struct FileEntry {
    pub name: String,
    pub path: String,
    pub is_dir: bool,
    pub size: u64,
    pub mtime: u64,
    pub perm: Option<u32>,
    pub uid: Option<u32>,
    pub gid: Option<u32>,
}

/// What a `FileEntry` holds.
pub struct FileView {
    pub name: Seq<char>,
    pub path: Seq<char>,
    pub is_dir: bool,
    pub size: u64,
    pub mtime: u64,
    pub perm: Option<u32>,
    pub uid: Option<u32>,
    pub gid: Option<u32>,
}

impl View for FileEntry {
    type V = FileView;

    open spec fn view(&self) -> FileView {
        FileView {
            name: self.name@,
            path: self.path@,
            is_dir: self.is_dir,
            size: self.size,
            mtime: self.mtime,
            perm: self.perm,
            uid: self.uid,
            gid: self.gid,
        }
    }
}

impl Clone for FileEntry {
    fn clone(&self) -> (r: Self)
        ensures
            r@ == self@,
    {
        FileEntry {
            name: self.name.clone(),
            path: self.path.clone(),
            is_dir: self.is_dir,
            size: self.size,
            mtime: self.mtime,
            perm: self.perm,
            uid: self.uid,
            gid: self.gid,
        }
    }
}

/// A directory with what is in it.
#[derive(Debug)]
pub struct ListResult {
    pub path: String,
    pub entries: Vec<FileEntry>,
}

/// What a list of entries holds.
pub open spec fn file_views(v: Seq<FileEntry>) -> Seq<FileView> {
    Seq::new(v.len(), |i: int| v[i]@)
}

/// What entries are put in order by: directories first, then by name, whatever
/// its case.
pub open spec fn entry_keys(v: Seq<FileView>) -> Seq<order::KeyView> {
    Seq::new(
        v.len(),
        |i: int| order::KeyView { first: v[i].is_dir, text: text::lowercase(v[i].name) },
    )
}

/// The items in the given places.
pub open spec fn arranged(v: Seq<FileView>, places: Seq<usize>) -> Seq<FileView> {
    Seq::new(places.len(), |i: int| v[places[i] as int])
}

/// Whether `r` holds the entries of `v`, put in order.
pub open spec fn is_sorted_form(v: Seq<FileView>, r: Seq<FileView>) -> bool {
    exists|places: Seq<usize>|
        r == #[trigger] arranged(v, places) && order::is_order_of(entry_keys(v), places)
}

/// Puts entries in order: directories first, then by name, whatever its case.
/// Entries that do not differ in these keep their order.
pub fn sort_entries(entries: &mut Vec<FileEntry>)
    ensures
        is_sorted_form(file_views(old(entries)@), file_views(final(entries)@)),
{
    let ghost v = file_views(entries@);
    let mut keys: Vec<SortKey> = Vec::new();
    let mut i: usize = 0;
    while i < entries.len()
        invariant
            i <= entries@.len(),
            v == file_views(entries@),
            order::key_views(keys@) == entry_keys(v).take(i as int),
        decreases entries@.len() - i,
    {
        let ghost before = order::key_views(keys@);
        let lower = text::to_lower(entries[i].name.as_str());
        let key = SortKey { first: entries[i].is_dir, text: text::chars_of(lower.as_str()) };
        let ghost kv = key@;
        keys.push(key);
        proof {
            assert(v[i as int] == entries@[i as int]@);
            assert(order::key_views(keys@) =~= before.push(kv));
            assert(entry_keys(v).take(i + 1) =~= entry_keys(v).take(i as int).push(
                entry_keys(v)[i as int],
            ));
        }
        i += 1;
    }
    assert(order::key_views(keys@) == entry_keys(v));
    let places = order::sort_places(&keys);
    let mut out: Vec<FileEntry> = Vec::new();
    let mut j: usize = 0;
    while j < places.len()
        invariant
            j <= places@.len(),
            v == file_views(entries@),
            order::is_order_of(entry_keys(v), places@),
            file_views(out@) == arranged(v, places@).take(j as int),
        decreases places@.len() - j,
    {
        let ghost before = file_views(out@);
        let p: usize = places[j];
        assert(p < v.len());
        let e = entries[p].clone();
        let ghost ev = e@;
        out.push(e);
        proof {
            assert(v[p as int] == entries@[p as int]@);
            assert(file_views(out@) =~= before.push(ev));
            assert(arranged(v, places@).take(j + 1) =~= arranged(v, places@).take(j as int).push(
                arranged(v, places@)[j as int],
            ));
        }
        j += 1;
    }
    proof {
        assert(arranged(v, places@).take(j as int) =~= arranged(v, places@));
        assert(file_views(out@) == arranged(v, places@));
    }
    *entries = out;
}

// ---------- remote listings ----------

/// What the server says of a file in a directory.
#[derive(Debug)]
pub struct RemoteFile {
    pub path: Vec<u8>,
    pub is_dir: bool,
    pub size: Option<u64>,
    pub mtime: Option<u64>,
    pub perm: Option<u32>,
    pub uid: Option<u32>,
    pub gid: Option<u32>,
}

/// The number, or zero where there is none.
pub open spec fn or_zero(n: Option<u64>) -> u64 {
    match n {
        Some(x) => x,
        None => 0,
    }
}

/// The entry for a file in the remote directory `dir`, under the text of its
/// name. A file without a name has none.
pub open spec fn remote_entry(sys: System, dir: Seq<u8>, f: RemoteFile) -> Option<FileView> {
    match paths::name_of(sys, f.path@) {
        Some(name) => Some(
            FileView {
                name: paths::shown(sys, name),
                path: paths::shown(
                    sys,
                    paths::joined(sys, dir, text::utf8(paths::shown(sys, name))),
                ),
                is_dir: f.is_dir,
                size: or_zero(f.size),
                mtime: or_zero(f.mtime),
                perm: f.perm,
                uid: f.uid,
                gid: f.gid,
            },
        ),
        None => None,
    }
}

/// The entries for the files of a remote directory, in the server's order.
pub open spec fn remote_entries(sys: System, dir: Seq<u8>, files: Seq<RemoteFile>) -> Seq<FileView>
    decreases files.len(),
{
    if files.len() == 0 {
        Seq::empty()
    } else {
        match remote_entry(sys, dir, files.last()) {
            Some(e) => remote_entries(sys, dir, files.drop_last()).push(e),
            None => remote_entries(sys, dir, files.drop_last()),
        }
    }
}

fn unwrap_or_zero(n: Option<u64>) -> (r: u64)
    ensures
        r == or_zero(n),
{
    match n {
        Some(x) => x,
        None => 0,
    }
}

/// The directory to list: where none is given, the one that the session is in.
pub fn remote_dir(path: &str) -> (r: String)
    ensures
        r@ == if path@.len() == 0 {
            "."@
        } else {
            path@
        },
{
    if path.is_empty() {
        ".".to_owned()
    } else {
        path.to_owned()
    }
}

/// The resolved path, or the given one where it could not be resolved.
pub fn real_or_given(resolved: Option<Vec<u8>>, given: Vec<u8>) -> (r: Vec<u8>)
    ensures
        r == match resolved {
            Some(p) => p,
            None => given,
        },
{
    match resolved {
        Some(p) => p,
        None => given,
    }
}

/// Whether a listing of `dir` is as it should be, given the entries in the
/// order in which they were found.
pub open spec fn is_listing(
    sys: System,
    r: ListResult,
    dir: Seq<u8>,
    found: Seq<FileView>,
) -> bool {
    r.path@ == paths::shown(sys, dir) && is_sorted_form(found, file_views(r.entries@))
}

/// Whether a listing, or an error, is what comes of what the server said of
/// the directory `dir`.
pub open spec fn is_remote_answer(
    sys: System,
    dir: Seq<u8>,
    found: Result<Vec<RemoteFile>, String>,
    r: Result<ListResult, String>,
) -> bool {
    match (found, r) {
        (Ok(files), Ok(l)) => is_listing(sys, l, dir, remote_entries(sys, dir, files@)),
        (Err(e), Err(x)) => x@ == file_error_text(FileStep::List, paths::shown(sys, dir), e@),
        _ => false,
    }
}

/// The listing of the remote directory `dir`, given what the server said and
/// how paths are written.
pub fn list_remote_on(sys: System, dir: &[u8], found: Result<Vec<RemoteFile>, String>) -> (r: Result<
    ListResult,
    String,
>)
    ensures
        is_remote_answer(sys, dir@, found, r),
{
    let files: Vec<RemoteFile> = match found {
        Ok(f) => f,
        Err(e) => return Err(file_error(FileStep::List, paths::show(sys, dir).as_str(), e.as_str())),
    };
    let mut entries: Vec<FileEntry> = Vec::new();
    let mut i: usize = 0;
    assert(file_views(entries@) =~= remote_entries(sys, dir@, files@.take(0)));
    while i < files.len()
        invariant
            i <= files@.len(),
            file_views(entries@) == remote_entries(sys, dir@, files@.take(i as int)),
        decreases files@.len() - i,
    {
        let ghost before = file_views(entries@);
        proof {
            assert(files@.take(i + 1).drop_last() =~= files@.take(i as int));
            assert(files@.take(i + 1).last() == files@[i as int]);
        }
        match paths::file_name(sys, files[i].path.as_slice()) {
            Some(raw) => {
                let name = paths::show(sys, raw.as_slice());
                let path = paths::join(sys, dir, text::bytes_of(name.as_str()).as_slice());
                let e = FileEntry {
                    name,
                    path: paths::show(sys, path.as_slice()),
                    is_dir: files[i].is_dir,
                    size: unwrap_or_zero(files[i].size),
                    mtime: unwrap_or_zero(files[i].mtime),
                    perm: files[i].perm,
                    uid: files[i].uid,
                    gid: files[i].gid,
                };
                let ghost ev = e@;
                entries.push(e);
                proof {
                    assert(remote_entry(sys, dir@, files@[i as int]) == Some(ev));
                    assert(file_views(entries@) =~= before.push(ev));
                }
            },
            None => {},
        }
        i += 1;
    }
    assert(files@.take(i as int) =~= files@);
    sort_entries(&mut entries);
    Ok(ListResult { path: paths::show(sys, dir), entries })
}

/// The listing of the remote directory `dir`, given what the server said.
pub fn list_remote(dir: &[u8], found: Result<Vec<RemoteFile>, String>) -> (r: Result<
    ListResult,
    String,
>)
    ensures
        exists|sys: System| #[trigger] is_remote_answer(sys, dir@, found, r),
{
    let sys = paths::system();
    let ghost f = found;
    let out = list_remote_on(sys, dir, found);
    assert(is_remote_answer(sys, dir@, f, out));
    out
}

// ---------- the local side ----------

/// What the system says of a local file. `owner` is the mode, user and group
/// where there are such.
#[derive(Debug)]
pub struct LocalFile {
    pub name: Vec<u8>,
    pub path: Vec<u8>,
    pub is_dir: bool,
    pub size: u64,
    pub mtime: Option<u64>,
    pub owner: Option<(u32, u32, u32)>,
}

/// The permission bits of a mode.
pub open spec fn permissions(mode: u32) -> u32 {
    mode & 0o7777
}

/// The entry for a local file under a name and a path.
pub open spec fn local_entry(f: LocalFile, name: Seq<char>, path: Seq<char>) -> FileView {
    FileView {
        name,
        path,
        is_dir: f.is_dir,
        size: f.size,
        mtime: or_zero(f.mtime),
        perm: match f.owner {
            Some(o) => Some(permissions(o.0)),
            None => None,
        },
        uid: match f.owner {
            Some(o) => Some(o.1),
            None => None,
        },
        gid: match f.owner {
            Some(o) => Some(o.2),
            None => None,
        },
    }
}

/// The entries for local files, in the system's order.
pub open spec fn local_entries(sys: System, files: Seq<LocalFile>) -> Seq<FileView> {
    Seq::new(
        files.len(),
        |i: int|
            local_entry(
                files[i],
                paths::shown(sys, files[i].name@),
                paths::shown(sys, files[i].path@),
            ),
    )
}

fn entry_for(f: &LocalFile, name: String, path: String) -> (r: FileEntry)
    ensures
        r@ == local_entry(*f, name@, path@),
{
    let (perm, uid, gid) = match f.owner {
        Some(o) => (Some(o.0 & 0o7777), Some(o.1), Some(o.2)),
        None => (None, None, None),
    };
    FileEntry {
        name,
        path,
        is_dir: f.is_dir,
        size: f.size,
        mtime: unwrap_or_zero(f.mtime),
        perm,
        uid,
        gid,
    }
}

/// The local directory to list: where none is given, the home directory, or
/// the root where there is no home.
pub open spec fn local_dir_of(sys: System, path: Seq<char>, home: Option<Seq<u8>>) -> Seq<u8> {
    if path.len() == 0 {
        paths::base_or(home, "/"@)
    } else {
        paths::expanded(sys, path, home)
    }
}

/// The local directory to list, given the home directory and how paths are
/// written.
pub fn local_dir_in(sys: System, path: &str, home: Option<Vec<u8>>) -> (r: Vec<u8>)
    ensures
        r@ == local_dir_of(sys, path@, text::opt_bytes(home)),
{
    if path.is_empty() {
        paths::or_fallback(home, "/")
    } else {
        paths::expand_tilde_in(sys, path, &home)
    }
}

/// The local directory to list.
pub fn local_dir(path: &str) -> (r: Vec<u8>)
    ensures
        exists|sys: System, home: Option<Seq<u8>>|
            r@ == #[trigger] local_dir_of(sys, path@, home),
        path@.len() > 0 && !"~/"@.is_prefix_of(path@) ==> r@ == text::utf8(path@),
{
    let sys = paths::system();
    let home = paths::home_dir();
    let ghost h = text::opt_bytes(home);
    let out = local_dir_in(sys, path, home);
    assert(out@ == local_dir_of(sys, path@, h));
    out
}

/// Why a local listing could not be had: the directory could not be opened,
/// or one of its entries could not be read.
#[derive(Debug)]
pub enum ListFailure {
    Open(String),
    Entry(String),
}

/// Whether a listing, or an error, is what comes of what the system said of the
/// local directory `dir`.
pub open spec fn is_local_answer(
    sys: System,
    dir: Seq<u8>,
    found: Result<Vec<LocalFile>, ListFailure>,
    r: Result<ListResult, String>,
) -> bool {
    match (found, r) {
        (Ok(files), Ok(l)) => is_listing(sys, l, dir, local_entries(sys, files@)),
        (Err(ListFailure::Open(e)), Err(x)) => x@ == file_error_text(
            FileStep::List,
            paths::shown(sys, dir),
            e@,
        ),
        (Err(ListFailure::Entry(e)), Err(x)) => x@ == e@,
        _ => false,
    }
}

/// The listing of the local directory `dir`, given what the system said and
/// how paths are written.
pub fn local_list_on(sys: System, dir: &[u8], found: Result<Vec<LocalFile>, ListFailure>) -> (r:
    Result<ListResult, String>)
    ensures
        is_local_answer(sys, dir@, found, r),
{
    let files: Vec<LocalFile> = match found {
        Ok(f) => f,
        Err(ListFailure::Open(e)) => return Err(
            file_error(FileStep::List, paths::show(sys, dir).as_str(), e.as_str()),
        ),
        Err(ListFailure::Entry(e)) => return Err(e),
    };
    let mut entries: Vec<FileEntry> = Vec::new();
    let mut i: usize = 0;
    while i < files.len()
        invariant
            i <= files@.len(),
            file_views(entries@) == local_entries(sys, files@).take(i as int),
        decreases files@.len() - i,
    {
        let ghost before = file_views(entries@);
        let e = entry_for(
            &files[i],
            paths::show(sys, files[i].name.as_slice()),
            paths::show(sys, files[i].path.as_slice()),
        );
        let ghost ev = e@;
        entries.push(e);
        proof {
            assert(file_views(entries@) =~= before.push(ev));
            assert(local_entries(sys, files@).take(i + 1) =~= local_entries(sys, files@).take(
                i as int,
            ).push(local_entries(sys, files@)[i as int]));
        }
        i += 1;
    }
    assert(local_entries(sys, files@).take(i as int) =~= local_entries(sys, files@));
    sort_entries(&mut entries);
    Ok(ListResult { path: paths::show(sys, dir), entries })
}

/// The listing of the local directory `dir`, given what the system said.
pub fn local_list(dir: &[u8], found: Result<Vec<LocalFile>, ListFailure>) -> (r: Result<
    ListResult,
    String,
>)
    ensures
        exists|sys: System| #[trigger] is_local_answer(sys, dir@, found, r),
{
    let sys = paths::system();
    let ghost f = found;
    let out = local_list_on(sys, dir, found);
    assert(is_local_answer(sys, dir@, f, out));
    out
}

/// The name that a local path is shown under: its last part, or all of it.
pub open spec fn shown_name(sys: System, path: Seq<u8>) -> Seq<char> {
    match paths::name_of(sys, path) {
        Some(n) => paths::shown(sys, n),
        None => paths::shown(sys, path),
    }
}

/// Whether an entry, or an error, is what comes of what the system said of a
/// local path.
pub open spec fn is_stat_answer(
    sys: System,
    path: Seq<u8>,
    found: Result<LocalFile, String>,
    r: Result<FileEntry, String>,
) -> bool {
    match (found, r) {
        (Ok(f), Ok(e)) => e@ == local_entry(f, shown_name(sys, path), paths::shown(sys, path)),
        (Err(e), Err(x)) => x@ == file_error_text(FileStep::Stat, paths::shown(sys, path), e@),
        _ => false,
    }
}

/// The entry for one local path, given what the system said of it and how
/// paths are written.
pub fn local_stat_on(sys: System, path: &[u8], found: Result<LocalFile, String>) -> (r: Result<
    FileEntry,
    String,
>)
    ensures
        is_stat_answer(sys, path@, found, r),
{
    match found {
        Ok(f) => {
            let name: String = match paths::file_name(sys, path) {
                Some(n) => paths::show(sys, n.as_slice()),
                None => paths::show(sys, path),
            };
            Ok(entry_for(&f, name, paths::show(sys, path)))
        },
        Err(e) => Err(file_error(FileStep::Stat, paths::show(sys, path).as_str(), e.as_str())),
    }
}

/// The entry for one local path, given what the system said of it.
pub fn local_stat(path: &[u8], found: Result<LocalFile, String>) -> (r: Result<FileEntry, String>)
    ensures
        exists|sys: System| #[trigger] is_stat_answer(sys, path@, found, r),
{
    let sys = paths::system();
    let ghost f = found;
    let out = local_stat_on(sys, path, found);
    assert(is_stat_answer(sys, path@, f, out));
    out
}

/// How a local path is deleted.
#[derive(Debug, Clone, Copy, PartialEq, Eq, Structural)]
pub enum Removal {
    /// As a directory, with all that is in it.
    Tree,
    File,
}

/// Whether a way to delete, or an error, is what comes of what the system said
/// of a local path.
pub open spec fn is_removal_answer(
    sys: System,
    path: Seq<u8>,
    is_dir: Result<bool, String>,
    r: Result<Removal, String>,
) -> bool {
    match (is_dir, r) {
        (Ok(d), Ok(how)) => how == (if d {
            Removal::Tree
        } else {
            Removal::File
        }),
        (Err(e), Err(x)) => x@ == file_error_text(FileStep::Stat, paths::shown(sys, path), e@),
        _ => false,
    }
}

/// How a local path is to be deleted, given how paths are written and whether
/// it is a directory. A link to a directory is none.
pub fn local_delete_on(sys: System, path: &[u8], is_dir: Result<bool, String>) -> (r: Result<
    Removal,
    String,
>)
    ensures
        is_removal_answer(sys, path@, is_dir, r),
{
    match is_dir {
        Ok(d) => Ok(
            if d {
                Removal::Tree
            } else {
                Removal::File
            },
        ),
        Err(e) => Err(file_error(FileStep::Stat, paths::show(sys, path).as_str(), e.as_str())),
    }
}

/// How a local path is to be deleted, given whether it is a directory. A link
/// to a directory is none.
pub fn local_delete(path: &[u8], is_dir: Result<bool, String>) -> (r: Result<Removal, String>)
    ensures
        exists|sys: System| #[trigger] is_removal_answer(sys, path@, is_dir, r),
        is_dir is Ok ==> r == Ok::<Removal, String>(
            if is_dir->Ok_0 {
                Removal::Tree
            } else {
                Removal::File
            },
        ),
{
    let sys = paths::system();
    let ghost d = is_dir;
    let out = local_delete_on(sys, path, is_dir);
    assert(is_removal_answer(sys, path@, d, out));
    out
}

// ---------- errors ----------

/// What was tried with a path.
#[derive(Debug, Clone, Copy, PartialEq, Eq, Structural)]
pub enum FileStep {
    Stat,
    List,
    RemoveDir,
    Delete,
    Create,
    Rename,
    Chmod,
    Open,
    Resume,
    /// Something that the error itself tells of, after the path.
    Named,
    /// Something that the error itself tells of.
    Plain,
}

/// What a step failed with, in words.
pub open spec fn file_error_text(step: FileStep, path: Seq<char>, error: Seq<char>) -> Seq<char> {
    match step {
        FileStep::Stat => "cannot stat "@ + path + ": "@ + error,
        FileStep::List => "cannot list "@ + path + ": "@ + error,
        FileStep::RemoveDir => "cannot remove dir "@ + path + ": "@ + error,
        FileStep::Delete => "cannot delete "@ + path + ": "@ + error,
        FileStep::Create => "cannot create "@ + path + ": "@ + error,
        FileStep::Rename => "cannot rename "@ + path + ": "@ + error,
        FileStep::Chmod => "cannot chmod "@ + path + ": "@ + error,
        FileStep::Open => "cannot open "@ + path + ": "@ + error,
        FileStep::Resume => "cannot resume "@ + path + ": "@ + error,
        FileStep::Named => path + ": "@ + error,
        FileStep::Plain => error,
    }
}

/// Says what a step failed with.
pub fn file_error(step: FileStep, path: &str, error: &str) -> (r: String)
    ensures
        r@ == file_error_text(step, path@, error@),
{
    let mut out: String = match step {
        FileStep::Stat => "cannot stat ".to_owned(),
        FileStep::List => "cannot list ".to_owned(),
        FileStep::RemoveDir => "cannot remove dir ".to_owned(),
        FileStep::Delete => "cannot delete ".to_owned(),
        FileStep::Create => "cannot create ".to_owned(),
        FileStep::Rename => "cannot rename ".to_owned(),
        FileStep::Chmod => "cannot chmod ".to_owned(),
        FileStep::Open => "cannot open ".to_owned(),
        FileStep::Resume => "cannot resume ".to_owned(),
        FileStep::Named => {
            let mut out: String = path.to_owned();
            out.append(": ");
            out.append(error);
            return out;
        },
        FileStep::Plain => return error.to_owned(),
    };
    out.append(path);
    out.append(": ");
    out.append(error);
    out
}

// ---------- opening with the desktop ----------

/// The kinds of desktop.
#[derive(Debug, Clone, Copy, PartialEq, Eq, Structural)]
pub enum Desktop {
    Unix,
    Mac,
    Windows,
}

/// A program to start, with its arguments.
#[derive(Debug)]
pub struct Launch {
    pub program: String,
    pub args: Vec<Vec<u8>>,
}

/// What is started to open a path with the desktop's default application: the
/// program first, then its arguments.
pub open spec fn launch_words(desktop: Desktop, path: Seq<u8>) -> (Seq<char>, Seq<Seq<u8>>) {
    match desktop {
        Desktop::Unix => ("xdg-open"@, seq![path]),
        Desktop::Mac => ("open"@, seq![path]),
        Desktop::Windows => (
            "cmd"@,
            seq![text::utf8("/C"@), text::utf8("start"@), Seq::empty(), path],
        ),
    }
}

/// What to start to open a path, with the leading `~/` of it replaced already.
pub fn open_cmd(path: &[u8], desktop: Desktop) -> (r: Launch)
    ensures
        r.program@ == launch_words(desktop, path@).0,
        text::runs(r.args@) == launch_words(desktop, path@).1,
{
    let mut args: Vec<Vec<u8>> = Vec::new();
    let program: String = match desktop {
        Desktop::Unix => "xdg-open".to_owned(),
        Desktop::Mac => "open".to_owned(),
        Desktop::Windows => {
            let none: Vec<u8> = Vec::new();
            assert(none@ =~= Seq::<u8>::empty());
            args.push(text::bytes_of("/C"));
            args.push(text::bytes_of("start"));
            args.push(none);
            "cmd".to_owned()
        },
    };
    args.push(text::copy_bytes(path));
    assert(text::runs(args@) =~= launch_words(desktop, path@).1);
    Launch { program, args }
}

/// What to start to open a local path with the desktop's default application.
pub fn local_open(path: &str, desktop: Desktop) -> (r: Launch)
    ensures
        exists|sys: System, home: Option<Seq<u8>>|
            {
                let p = #[trigger] paths::expanded(sys, path@, home);
                &&& r.program@ == launch_words(desktop, p).0
                &&& text::runs(r.args@) == launch_words(desktop, p).1
            },
{
    let p = paths::expand_tilde(path);
    open_cmd(p.as_slice(), desktop)
}

// ---------- laws ----------

/// A listing loses nothing and makes nothing up: every entry that was found is
/// in it, and as many. (A list in memory is no longer than the largest `usize`.)
pub proof fn law_sorting_keeps_the_entries(v: Seq<FileView>, r: Seq<FileView>, e: FileView)
    requires
        is_sorted_form(v, r),
        v.len() <= usize::MAX,
    ensures
        r.len() == v.len(),
        v.contains(e) <==> r.contains(e),
{
    let places = choose|places: Seq<usize>|
        r == #[trigger] arranged(v, places) && order::is_order_of(entry_keys(v), places);
    if v.contains(e) {
        let i = choose|i: int| 0 <= i < v.len() && v[i] == e;
        assert(places.contains(i as usize));
        let a = choose|a: int| 0 <= a < places.len() && places[a] == i as usize;
        assert(r[a] == e);
    }
    if r.contains(e) {
        let a = choose|a: int| 0 <= a < r.len() && r[a] == e;
        assert(v[places[a] as int] == e);
    }
}

/// Directories come first.
pub proof fn law_directories_come_first(v: Seq<FileView>, r: Seq<FileView>, i: int, j: int)
    requires
        is_sorted_form(v, r),
        0 <= i < j < r.len(),
        r[j].is_dir,
    ensures
        r[i].is_dir,
{
    let places = choose|places: Seq<usize>|
        r == #[trigger] arranged(v, places) && order::is_order_of(entry_keys(v), places);
    assert(order::goes_before(entry_keys(v), places[i] as int, places[j] as int));
}

/// Within directories, and within files, names are in order whatever their
/// case.
pub proof fn law_names_are_in_order(v: Seq<FileView>, r: Seq<FileView>, i: int, j: int)
    requires
        is_sorted_form(v, r),
        0 <= i < j < r.len(),
        r[i].is_dir == r[j].is_dir,
    ensures
        !order::text_before(text::lowercase(r[j].name), text::lowercase(r[i].name)),
{
    let places = choose|places: Seq<usize>|
        r == #[trigger] arranged(v, places) && order::is_order_of(entry_keys(v), places);
    assert(order::goes_before(entry_keys(v), places[i] as int, places[j] as int));
    let a = text::lowercase(r[i].name);
    let b = text::lowercase(r[j].name);
    order::lemma_irreflexive(a);
    if order::text_before(a, b) && order::text_before(b, a) {
        order::lemma_transitive(a, b, a);
    }
}

/// A remote file is listed under its own name, below the directory that was
/// asked for, with all that is known of it; what is not known counts as none.
pub proof fn law_a_remote_file_is_listed_by_its_name(
    sys: System,
    dir: Seq<u8>,
    f: RemoteFile,
    stem: Seq<u8>,
    name: Seq<char>,
)
    requires
        f.path@ == stem + text::utf8(name),
        paths::is_plain(sys, text::utf8(name)),
        paths::leads_to(sys, stem, text::utf8(name)),
    ensures
        ({
            let r = remote_entry(sys, dir, f);
            let e = r->Some_0;
            &&& r is Some
            &&& e.name == name
            &&& e.path == paths::shown(sys, paths::joined(sys, dir, text::utf8(name)))
            &&& e.is_dir == f.is_dir
            &&& e.size == (match f.size {
                Some(n) => n,
                None => 0,
            })
            &&& e.mtime == (match f.mtime {
                Some(n) => n,
                None => 0,
            })
            &&& e.perm == f.perm
            &&& e.uid == f.uid
            &&& e.gid == f.gid
        }),
{
    paths::law_what_follows_the_separator_is_the_name(sys, stem, text::utf8(name));
    paths::law_a_text_path_shows_as_it_is(sys, name);
}

/// Every remote file with a name is listed, in the order that the server gave,
/// and one without a name is not.
pub proof fn law_every_remote_file_is_listed(
    sys: System,
    dir: Seq<u8>,
    files: Seq<RemoteFile>,
    f: RemoteFile,
)
    ensures
        remote_entries(sys, dir, Seq::empty()).len() == 0,
        remote_entry(sys, dir, f) is Some ==> remote_entries(sys, dir, files.push(f))
            == remote_entries(sys, dir, files).push(remote_entry(sys, dir, f)->Some_0),
        remote_entry(sys, dir, f) is None ==> remote_entries(sys, dir, files.push(f))
            == remote_entries(sys, dir, files),
        match paths::name_of(sys, f.path@) {
            Some(n) => {
                let e = remote_entry(sys, dir, f)->Some_0;
                &&& remote_entry(sys, dir, f) is Some
                &&& e.name == paths::shown(sys, n)
                &&& e.path == paths::shown(sys, paths::joined(sys, dir, text::utf8(e.name)))
            },
            None => remote_entry(sys, dir, f) is None,
        },
{
    assert(files.push(f).drop_last() =~= files);
}

/// Every local file is listed as it is: its name, its path, and what the system
/// knows of it, with the permissions alone out of its mode.
pub proof fn law_every_local_file_is_listed(sys: System, files: Seq<LocalFile>, i: int)
    requires
        0 <= i < files.len(),
    ensures
        ({
            let r = local_entries(sys, files);
            let (e, f) = (r[i], files[i]);
            &&& r.len() == files.len()
            &&& e.name == paths::shown(sys, f.name@)
            &&& e.path == paths::shown(sys, f.path@)
            &&& e.is_dir == f.is_dir
            &&& e.size == f.size
            &&& e.mtime == (match f.mtime {
                Some(n) => n,
                None => 0,
            })
            &&& f.owner is None ==> e.perm is None && e.uid is None && e.gid is None
            &&& f.owner is Some ==> {
                let o = f.owner->Some_0;
                e.perm == Some(permissions(o.0)) && e.uid == Some(o.1) && e.gid == Some(o.2)
            }
        }),
{
}

/// The permissions are the last twelve bits of a mode.
pub proof fn law_permissions_are_the_last_twelve_bits(mode: u32)
    ensures
        permissions(mode) == mode % 4096,
        permissions(mode) <= 0o7777,
{
    assert(mode & 0o7777 == mode % 4096) by (bit_vector);
}

/// A directory that is not named is the home directory, or the root where that
/// is not known; a named one is taken as it is, but for a tilde in front.
pub proof fn law_the_home_directory_comes_first(
    sys: System,
    path: Seq<char>,
    home: Seq<u8>,
)
    ensures
        local_dir_of(sys, Seq::empty(), Some(home)) == home,
        local_dir_of(sys, Seq::empty(), None) == text::utf8("/"@),
        path.len() > 0 && !"~/"@.is_prefix_of(path) ==> local_dir_of(sys, path, Some(home))
            == text::utf8(path),
        path.len() > 0 ==> local_dir_of(sys, path, None) == text::utf8(path),
        local_dir_of(sys, "~/"@ + path, Some(home)) == paths::joined(sys, home, text::utf8(path)),
{
    paths::law_a_tilde_is_the_home(sys, path, home);
    reveal_strlit("~/");
    assert(("~/"@ + path).len() > 0);
}

/// A file is shown by its name, and by its whole path where it has none.
pub proof fn law_a_file_is_shown_by_its_name(sys: System, stem: Seq<u8>, name: Seq<char>)
    requires
        paths::is_plain(sys, text::utf8(name)),
        paths::leads_to(sys, stem, text::utf8(name)),
    ensures
        shown_name(sys, stem + text::utf8(name)) == name,
        paths::name_of(sys, stem) is None ==> shown_name(sys, stem) == paths::shown(sys, stem),
{
    paths::law_what_follows_the_separator_is_the_name(sys, stem, text::utf8(name));
    paths::law_a_text_path_shows_as_it_is(sys, name);
}

/// An error says what could not be done with which path, and why.
pub proof fn law_an_error_says_what_failed(path: Seq<char>, error: Seq<char>)
    ensures
        file_error_text(FileStep::Stat, path, error) == "cannot stat "@ + path + ": "@ + error,
        file_error_text(FileStep::List, path, error) == "cannot list "@ + path + ": "@ + error,
        file_error_text(FileStep::RemoveDir, path, error) == "cannot remove dir "@ + path + ": "@
            + error,
        file_error_text(FileStep::Delete, path, error) == "cannot delete "@ + path + ": "@ + error,
        file_error_text(FileStep::Create, path, error) == "cannot create "@ + path + ": "@ + error,
        file_error_text(FileStep::Rename, path, error) == "cannot rename "@ + path + ": "@ + error,
        file_error_text(FileStep::Chmod, path, error) == "cannot chmod "@ + path + ": "@ + error,
        file_error_text(FileStep::Open, path, error) == "cannot open "@ + path + ": "@ + error,
        file_error_text(FileStep::Resume, path, error) == "cannot resume "@ + path + ": "@ + error,
        file_error_text(FileStep::Named, path, error) == path + ": "@ + error,
        file_error_text(FileStep::Plain, path, error) == error,
{
}

/// Each desktop opens a file with its own program, which is given the path as
/// its last argument.
pub proof fn law_each_desktop_has_its_opener(desktop: Desktop, path: Seq<u8>)
    ensures
        launch_words(desktop, path).1.last() == path,
        desktop == Desktop::Unix ==> launch_words(desktop, path) == ("xdg-open"@, seq![path]),
        desktop == Desktop::Mac ==> launch_words(desktop, path) == ("open"@, seq![path]),
        desktop == Desktop::Windows ==> launch_words(desktop, path) == (
            "cmd"@,
            seq![text::utf8("/C"@), text::utf8("start"@), Seq::empty(), path],
        ),
{
}

/// Entries are ordered by their kind and by their names in small letters.
pub proof fn law_entries_are_ordered_by_kind_and_name(v: Seq<FileView>, i: int)
    requires
        0 <= i < v.len(),
    ensures
        entry_keys(v).len() == v.len(),
        entry_keys(v)[i].first == v[i].is_dir,
        entry_keys(v)[i].text == text::lowercase(v[i].name),
{
}

/// A directory that the server listed is answered with its path and its
/// entries, in order; one that it could not list, with what went wrong.
pub proof fn law_a_remote_listing_is_answered(
    sys: System,
    dir: Seq<u8>,
    found: Result<Vec<RemoteFile>, String>,
    r: Result<ListResult, String>,
)
    requires
        is_remote_answer(sys, dir, found, r),
    ensures
        found is Ok ==> {
            &&& r is Ok
            &&& r->Ok_0.path@ == paths::shown(sys, dir)
            &&& is_sorted_form(
                remote_entries(sys, dir, found->Ok_0@),
                file_views(r->Ok_0.entries@),
            )
        },
        found is Err ==> {
            &&& r is Err
            &&& r->Err_0@ == "cannot list "@ + paths::shown(sys, dir) + ": "@ + found->Err_0@
        },
{
}

/// A local directory is answered in the same way; where only an entry could not
/// be read, its error stands for itself.
pub proof fn law_a_local_listing_is_answered(
    sys: System,
    dir: Seq<u8>,
    found: Result<Vec<LocalFile>, ListFailure>,
    r: Result<ListResult, String>,
)
    requires
        is_local_answer(sys, dir, found, r),
    ensures
        found is Ok ==> {
            &&& r is Ok
            &&& r->Ok_0.path@ == paths::shown(sys, dir)
            &&& is_sorted_form(local_entries(sys, found->Ok_0@), file_views(r->Ok_0.entries@))
        },
        found is Err && found->Err_0 is Open ==> {
            &&& r is Err
            &&& r->Err_0@ == "cannot list "@ + paths::shown(sys, dir) + ": "@
                + found->Err_0->Open_0@
        },
        found is Err && found->Err_0 is Entry ==> {
            &&& r is Err
            &&& r->Err_0@ == found->Err_0->Entry_0@
        },
{
}

/// A file is answered with what is known of it, under its own name and path; a
/// directory is removed with all it holds, a file alone; and what cannot be
/// looked at is an error either way.
pub proof fn law_a_file_is_answered(
    sys: System,
    path: Seq<u8>,
    found: Result<LocalFile, String>,
    entry: Result<FileEntry, String>,
    is_dir: Result<bool, String>,
    removal: Result<Removal, String>,
)
    requires
        is_stat_answer(sys, path, found, entry),
        is_removal_answer(sys, path, is_dir, removal),
    ensures
        found is Ok ==> {
            let f = found->Ok_0;
            &&& entry is Ok
            &&& entry->Ok_0@.name == shown_name(sys, path)
            &&& entry->Ok_0@.path == paths::shown(sys, path)
            &&& entry->Ok_0@.is_dir == f.is_dir
            &&& entry->Ok_0@.size == f.size
            &&& entry->Ok_0@.mtime == or_zero(f.mtime)
        },
        found is Err ==> entry is Err && entry->Err_0@ == "cannot stat "@ + paths::shown(sys, path)
            + ": "@ + found->Err_0@,
        is_dir == Ok::<bool, String>(true) ==> removal == Ok::<Removal, String>(Removal::Tree),
        is_dir == Ok::<bool, String>(false) ==> removal == Ok::<Removal, String>(Removal::File),
        is_dir is Err ==> removal is Err && removal->Err_0@ == "cannot stat "@ + paths::shown(
            sys,
            path,
        ) + ": "@ + is_dir->Err_0@,
{
}

/// Sorting only moves entries: every place of the sorted list holds the entry
/// of one place of the list before, and no two places hold that of the same.
pub proof fn law_sorting_only_moves_entries(v: Seq<FileView>, r: Seq<FileView>)
    requires
        is_sorted_form(v, r),
    ensures
        exists|places: Seq<usize>|
            {
                &&& r == #[trigger] arranged(v, places)
                &&& places.len() == v.len()
                &&& r.len() == v.len()
                &&& forall|a: int|
                    0 <= a < r.len() ==> #[trigger] r[a] == v[places[a] as int] && places[a]
                        < v.len()
                &&& forall|a: int, b: int|
                    0 <= a < b < places.len() ==> #[trigger] places[a] != #[trigger] places[b]
            },
{
    let keys = entry_keys(v);
    let places = choose|places: Seq<usize>|
        r == #[trigger] arranged(v, places) && order::is_order_of(keys, places);
    assert forall|a: int, b: int| 0 <= a < b < places.len() implies #[trigger] places[a]
        != #[trigger] places[b] by {
        assert(order::goes_before(keys, places[a] as int, places[b] as int));
        order::lemma_irreflexive(keys[places[a] as int].text);
    }
    assert forall|a: int| 0 <= a < r.len() implies #[trigger] r[a] == v[places[a] as int]
        && places[a] < v.len() by {
        assert(places[a] < keys.len());
    }
    assert(r == arranged(v, places));
}

/// Entries of the same kind whose names differ in their letter case alone keep
/// the order that they had.
pub proof fn law_equal_names_keep_their_order(v: Seq<FileView>, r: Seq<FileView>, i: int, j: int)
    requires
        is_sorted_form(v, r),
        0 <= i < j < v.len(),
        v.len() <= usize::MAX,
        v[i].is_dir == v[j].is_dir,
        text::lowercase(v[i].name) == text::lowercase(v[j].name),
    ensures
        exists|a: int, b: int|
            0 <= a < b < r.len() && #[trigger] r[a] == v[i] && #[trigger] r[b] == v[j],
{
    let keys = entry_keys(v);
    let places = choose|places: Seq<usize>|
        r == #[trigger] arranged(v, places) && order::is_order_of(keys, places);
    assert(places.contains(i as usize) && places.contains(j as usize));
    let a = choose|a: int| 0 <= a < places.len() && places[a] == i as usize;
    let b = choose|b: int| 0 <= b < places.len() && places[b] == j as usize;
    order::lemma_irreflexive(keys[i].text);
    if b < a {
        assert(order::goes_before(keys, places[b] as int, places[a] as int));
    }
    assert(r[a] == v[i] && r[b] == v[j]);
}

/// An entry stands for all of its fields, and a list for its entries.
pub proof fn law_an_entry_stands_for_its_fields(e: FileEntry, v: Seq<FileEntry>, i: int)
    ensures
        e@.name == e.name@,
        e@.path == e.path@,
        e@.is_dir == e.is_dir,
        e@.size == e.size,
        e@.mtime == e.mtime,
        e@.perm == e.perm,
        e@.uid == e.uid,
        e@.gid == e.gid,
        file_views(v).len() == v.len(),
        0 <= i < v.len() ==> file_views(v)[i] == v[i]@,
{
}

} // verus!
