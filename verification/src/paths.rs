//! Paths: how they are put together, and what they name.
//!
//! A path is a run of bytes, since not every name in a file system is text.
//! Texts stand in it as UTF-8. A path that is put before the user is turned
//! into text by `show`.

use vstd::prelude::*;
use vstd::slice::slice_subrange;
use crate::text;

verus! {

/// `dirs::home_dir`: the user's home directory, where the system knows one.
/// It depends on the environment, so nothing is claimed of it.
#[verifier::external_body]
pub(crate) fn home_dir() -> (r: Option<Vec<u8>>) {
    dirs::home_dir().map(|p| p.into_os_string().into_encoded_bytes())
}

/// `dirs::cache_dir`: the user's cache directory, where the system knows one.
/// It depends on the environment, so nothing is claimed of it.
#[verifier::external_body]
fn cache_dir() -> (r: Option<Vec<u8>>) {
    dirs::cache_dir().map(|p| p.into_os_string().into_encoded_bytes())
}

/// `dirs::data_dir`: the user's data directory, where the system knows one.
/// It depends on the environment, so nothing is claimed of it.
#[verifier::external_body]
pub(crate) fn data_dir() -> (r: Option<Vec<u8>>) {
    dirs::data_dir().map(|p| p.into_os_string().into_encoded_bytes())
}

/// `dirs::config_dir`: the user's configuration directory, where the system
/// knows one. It depends on the environment, so nothing is claimed of it.
#[verifier::external_body]
fn config_dir() -> (r: Option<Vec<u8>>) {
    dirs::config_dir().map(|p| p.into_os_string().into_encoded_bytes())
}

/// `std::path::is_separator`: whether a backslash separates the parts of a
/// path on this machine. That depends on the machine, so nothing is claimed of
/// it.
#[verifier::external_body]
fn backslash_separates() -> (r: bool) {
    std::path::is_separator('\\')
}

/// The systems, by how their paths are written.
#[derive(Debug, Clone, Copy, PartialEq, Eq, Structural)]
pub enum System {
    /// `/` separates.
    Unix,
    /// `\` separates, and so does `/`; a drive such as `C:`, or a server and a
    /// share such as `\\server\share`, may stand before everything else. Names
    /// that are no text are held in WTF-8.
    Windows,
}

/// The system that this is. It depends on the machine, so nothing is claimed
/// of it; what follows from it is said where a system is an argument.
pub fn system() -> (r: System) {
    if backslash_separates() {
        System::Windows
    } else {
        System::Unix
    }
}

// ---------- the parts of a path ----------

/// Whether a byte separates the parts of a path.
pub open spec fn is_sep(sys: System, b: u8) -> bool {
    b == 0x2f || (sys == System::Windows && b == 0x5c)
}

/// The separator that is put between two parts.
pub open spec fn main_sep(sys: System) -> u8 {
    match sys {
        System::Unix => 0x2f,
        System::Windows => 0x5c,
    }
}

fn separates(sys: System, b: u8) -> (r: bool)
    ensures
        r == is_sep(sys, b),
{
    match sys {
        System::Unix => b == 0x2f,
        System::Windows => b == 0x2f || b == 0x5c,
    }
}

/// Whether a path is taken word for word: it begins with `\\?\`, and only `\`
/// separates its parts.
pub open spec fn is_verbatim(sys: System, p: Seq<u8>) -> bool {
    sys == System::Windows && p.len() >= 4 && p[0] == 0x5c && p[1] == 0x5c && p[2] == 0x3f && p[3]
        == 0x5c
}

fn verbatim(sys: System, p: &[u8]) -> (r: bool)
    ensures
        r == is_verbatim(sys, p@),
{
    sys == System::Windows && p.len() >= 4 && p[0] == 0x5c && p[1] == 0x5c && p[2] == 0x3f && p[3]
        == 0x5c
}

/// Whether a byte separates the parts of a path that is verbatim or not.
pub open spec fn cuts(sys: System, verb: bool, b: u8) -> bool {
    if verb {
        b == 0x5c
    } else {
        is_sep(sys, b)
    }
}

fn is_cut(sys: System, verb: bool, b: u8) -> (r: bool)
    ensures
        r == cuts(sys, verb, b),
{
    if verb {
        b == 0x5c
    } else {
        separates(sys, b)
    }
}

/// Where the part of a path ends that begins at `i`.
pub open spec fn part_end(sys: System, verb: bool, p: Seq<u8>, i: int) -> int
    decreases p.len() - i,
{
    if i >= p.len() {
        p.len() as int
    } else if cuts(sys, verb, p[i]) {
        i
    } else {
        part_end(sys, verb, p, i + 1)
    }
}

fn end_of_part(sys: System, verb: bool, p: &[u8], i: usize) -> (r: usize)
    requires
        i <= p@.len(),
    ensures
        r == part_end(sys, verb, p@, i as int),
        i <= r <= p@.len(),
{
    let mut j: usize = i;
    while j < p.len()
        invariant
            i <= j <= p@.len(),
            part_end(sys, verb, p@, i as int) == part_end(sys, verb, p@, j as int),
        decreases p@.len() - j,
    {
        if is_cut(sys, verb, p[j]) {
            return j;
        }
        j += 1;
    }
    j
}

/// Whether `UNC` stands behind `\\?\`, for a server and a share that follow.
pub open spec fn is_long_share(sys: System, p: Seq<u8>) -> bool {
    p.len() >= 8 && p[4] == 0x55 && p[5] == 0x4e && p[6] == 0x43 && is_sep(sys, p[7])
}

/// Whether a drive stands at `i`, such as `C:`.
pub open spec fn is_drive(p: Seq<u8>, i: int) -> bool {
    i + 1 < p.len() && is_letter(p[i]) && p[i + 1] == 0x3a
}

/// Whether a byte is a letter from `A` to `Z`, in either case.
pub open spec fn is_letter(b: u8) -> bool {
    0x41 <= b <= 0x5a || 0x61 <= b <= 0x7a
}

fn drive_at(p: &[u8], i: usize) -> (r: bool)
    requires
        i < p@.len(),
    ensures
        r == is_drive(p@, i as int),
{
    let b: u8 = p[i];
    i + 1 < p.len() && ((0x41 <= b && b <= 0x5a) || (0x61 <= b && b <= 0x7a)) && p[i + 1] == 0x3a
}

/// The length of the prefix of a verbatim path: a server and a share, a drive,
/// or a name.
pub open spec fn verbatim_prefix_len(sys: System, p: Seq<u8>) -> int {
    if is_long_share(sys, p) {
        let a = part_end(sys, true, p, 8);
        let b = part_end(sys, true, p, a + 1);
        if a < p.len() && a + 1 < b {
            b
        } else {
            a
        }
    } else if is_drive(p, 4) && (p.len() == 6 || is_sep(sys, p[6])) {
        6
    } else {
        part_end(sys, true, p, 4)
    }
}

fn length_of_verbatim_prefix(sys: System, p: &[u8]) -> (r: usize)
    requires
        p@.len() >= 4,
    ensures
        r == verbatim_prefix_len(sys, p@),
        4 <= r <= p@.len(),
{
    if p.len() >= 8 && p[4] == 0x55 && p[5] == 0x4e && p[6] == 0x43 && separates(sys, p[7]) {
        let a: usize = end_of_part(sys, true, p, 8);
        if a < p.len() {
            let b: usize = end_of_part(sys, true, p, a + 1);
            if a + 1 < b {
                return b;
            }
        }
        return a;
    }
    if p.len() >= 6 && drive_at(p, 4) && (p.len() == 6 || separates(sys, p[6])) {
        return 6;
    }
    end_of_part(sys, true, p, 4)
}

/// The length of what stands before everything else in a path: a drive, a
/// device, or a server and a share, of which there have to be both.
pub open spec fn prefix_len(sys: System, p: Seq<u8>) -> int {
    if sys == System::Unix || p.len() < 2 {
        0
    } else if is_verbatim(sys, p) {
        verbatim_prefix_len(sys, p)
    } else if is_sep(sys, p[0]) && is_sep(sys, p[1]) {
        if p.len() >= 4 && p[2] == 0x2e && is_sep(sys, p[3]) {
            part_end(sys, false, p, 4)
        } else {
            let a = part_end(sys, false, p, 2);
            let b = part_end(sys, false, p, a + 1);
            if 2 < a < p.len() && a + 1 < b {
                b
            } else {
                0
            }
        }
    } else if is_drive(p, 0) {
        2
    } else {
        0
    }
}

fn length_of_prefix(sys: System, p: &[u8]) -> (r: usize)
    ensures
        r == prefix_len(sys, p@),
        r <= p@.len(),
        is_verbatim(sys, p@) ==> 4 <= r,
{
    if sys == System::Unix || p.len() < 2 {
        return 0;
    }
    if verbatim(sys, p) {
        return length_of_verbatim_prefix(sys, p);
    }
    if separates(sys, p[0]) && separates(sys, p[1]) {
        if p.len() >= 4 && p[2] == 0x2e && separates(sys, p[3]) {
            return end_of_part(sys, false, p, 4);
        }
        let a: usize = end_of_part(sys, false, p, 2);
        if a == 2 || a >= p.len() {
            return 0;
        }
        let b: usize = end_of_part(sys, false, p, a + 1);
        if a + 1 < b {
            b
        } else {
            0
        }
    } else if drive_at(p, 0) {
        2
    } else {
        0
    }
}

/// Whether a path begins at the root, behind its prefix.
pub open spec fn has_root(sys: System, p: Seq<u8>) -> bool {
    prefix_len(sys, p) < p.len() && is_sep(sys, p[prefix_len(sys, p)])
}

/// Where the parts of a path begin, behind its prefix and its root.
pub open spec fn body_start(sys: System, p: Seq<u8>) -> int {
    if has_root(sys, p) {
        prefix_len(sys, p) + 1
    } else {
        prefix_len(sys, p)
    }
}

fn start_of_body(sys: System, p: &[u8]) -> (r: usize)
    ensures
        r == body_start(sys, p@),
        r <= p@.len(),
{
    let k: usize = length_of_prefix(sys, p);
    if k < p.len() && separates(sys, p[k]) {
        k + 1
    } else {
        k
    }
}

/// The parts of a path from `i` on that are not empty.
pub open spec fn parts_from(sys: System, verb: bool, p: Seq<u8>, i: int) -> Seq<Seq<u8>>
    decreases p.len() - i,
{
    let a = part_end(sys, verb, p, i);
    let rest = if i <= a < p.len() {
        parts_from(sys, verb, p, a + 1)
    } else {
        Seq::empty()
    };
    if i < a {
        seq![p.subrange(i, a)] + rest
    } else {
        rest
    }
}

fn split_parts(sys: System, verb: bool, p: &[u8], start: usize) -> (r: Vec<Vec<u8>>)
    requires
        start <= p@.len(),
    ensures
        text::runs(r@) == parts_from(sys, verb, p@, start as int),
{
    let mut out: Vec<Vec<u8>> = Vec::new();
    let mut i: usize = start;
    let ghost whole = parts_from(sys, verb, p@, start as int);
    assert(text::runs(out@) + whole =~= whole);
    loop
        invariant_except_break
            text::runs(out@) + parts_from(sys, verb, p@, i as int) == whole,
        invariant
            i <= p@.len(),
        ensures
            text::runs(out@) == whole,
        decreases p@.len() - i,
    {
        let a: usize = end_of_part(sys, verb, p, i);
        let ghost before = text::runs(out@);
        let ghost rest = if a < p@.len() {
            parts_from(sys, verb, p@, a + 1)
        } else {
            Seq::empty()
        };
        if i < a {
            let part = text::copy_bytes(slice_subrange(p, i, a));
            let ghost pv = part@;
            out.push(part);
            proof {
                assert(text::runs(out@) =~= before.push(pv));
                assert(before.push(pv) + rest =~= before + (seq![pv] + rest));
            }
        } else {
            assert(text::runs(out@) + rest == whole);
        }
        if a >= p.len() {
            assert(text::runs(out@) + rest =~= text::runs(out@));
            break;
        }
        i = a + 1;
    }
    out
}

/// The path `.`.
pub open spec fn dot() -> Seq<u8> {
    seq![0x2eu8]
}

/// The path `..`.
pub open spec fn dot_dot() -> Seq<u8> {
    seq![0x2eu8, 0x2eu8]
}

fn is_dot(p: &[u8]) -> (r: bool)
    ensures
        r == (p@ == dot()),
{
    assert((p@.len() == 1 && p@[0] == 0x2e) <==> p@ =~= dot());
    p.len() == 1 && p[0] == 0x2e
}

fn is_dot_dot(p: &[u8]) -> (r: bool)
    ensures
        r == (p@ == dot_dot()),
{
    assert((p@.len() == 2 && p@[0] == 0x2e && p@[1] == 0x2e) <==> p@ =~= dot_dot());
    p.len() == 2 && p[0] == 0x2e && p[1] == 0x2e
}

/// The parts of a path after more steps: `.` stays, and `..` leaves the last
/// part that names something.
pub open spec fn followed(parts: Seq<Seq<u8>>, steps: Seq<Seq<u8>>) -> Seq<Seq<u8>>
    decreases steps.len(),
{
    if steps.len() == 0 {
        parts
    } else {
        let at = followed(parts, steps.drop_last());
        let s = steps.last();
        if s == dot() {
            at
        } else if s == dot_dot() {
            if at.len() > 0 && at.last() != dot() && at.last() != dot_dot() {
                at.drop_last()
            } else {
                at
            }
        } else {
            at.push(s)
        }
    }
}

fn follow(parts: Vec<Vec<u8>>, steps: &Vec<Vec<u8>>) -> (r: Vec<Vec<u8>>)
    ensures
        text::runs(r@) == followed(text::runs(parts@), text::runs(steps@)),
{
    let ghost all = text::runs(steps@);
    let ghost own = text::runs(parts@);
    let mut at: Vec<Vec<u8>> = parts;
    let mut i: usize = 0;
    assert(all.take(0) =~= Seq::<Seq<u8>>::empty());
    while i < steps.len()
        invariant
            i <= steps@.len(),
            all == text::runs(steps@),
            text::runs(at@) == followed(own, all.take(i as int)),
        decreases steps@.len() - i,
    {
        let ghost before = at@;
        proof {
            assert(all.take(i + 1).drop_last() =~= all.take(i as int));
            assert(all.take(i + 1).last() == steps@[i as int]@);
        }
        let s = steps[i].as_slice();
        if is_dot_dot(s) {
            assert(dot_dot().len() != dot().len());
            if at.len() > 0 {
                let n: usize = at.len();
                assert(text::runs(before).last() == before[n - 1]@);
                if !is_dot(at[n - 1].as_slice()) && !is_dot_dot(at[n - 1].as_slice()) {
                    at.pop();
                    assert(text::runs(at@) =~= text::runs(before).drop_last());
                }
            }
        } else if !is_dot(s) {
            at.push(text::copy_bytes(s));
            assert(text::runs(at@) =~= text::runs(before).push(s@));
        }
        i += 1;
    }
    assert(all.take(i as int) =~= all);
    at
}

/// The parts of a Windows path, each behind a separator.
pub open spec fn strung(parts: Seq<Seq<u8>>) -> Seq<u8>
    decreases parts.len(),
{
    if parts.len() == 0 {
        Seq::empty()
    } else {
        strung(parts.drop_last()).push(0x5c) + parts.last()
    }
}

/// `rel` below the verbatim path `base`: what `rel` says of `.` and `..` is
/// carried out, since it would be taken word for word.
pub open spec fn verbatim_joined(sys: System, base: Seq<u8>, rel: Seq<u8>) -> Seq<u8> {
    let own = if has_root(sys, rel) {
        Seq::empty()
    } else {
        parts_from(sys, true, base, body_start(sys, base))
    };
    let parts = followed(own, parts_from(sys, false, rel, 0));
    let prefix = base.take(prefix_len(sys, base));
    if parts.len() > 0 {
        prefix + strung(parts)
    } else if has_root(sys, base) || has_root(sys, rel) {
        prefix.push(0x5c)
    } else {
        prefix
    }
}

fn join_verbatim(sys: System, base: &[u8], rel: &[u8]) -> (r: Vec<u8>)
    requires
        prefix_len(sys, rel@) == 0,
    ensures
        r@ == verbatim_joined(sys, base@, rel@),
{
    let k: usize = length_of_prefix(sys, base);
    let start: usize = start_of_body(sys, base);
    let rooted: bool = rel.len() > 0 && separates(sys, rel[0]);
    let own: Vec<Vec<u8>> = if rooted {
        Vec::new()
    } else {
        split_parts(sys, true, base, start)
    };
    assert(rooted ==> text::runs(own@) =~= Seq::<Seq<u8>>::empty());
    let parts = follow(own, &split_parts(sys, false, rel, 0));
    let mut out: Vec<u8> = text::copy_bytes(slice_subrange(base, 0, k));
    let ghost prefix = base@.take(k as int);
    let ghost all = text::runs(parts@);
    assert(out@ =~= prefix);
    if parts.len() == 0 && (rooted || start > k) {
        out.push(0x5c);
        return out;
    }
    let mut i: usize = 0;
    assert(prefix + strung(all.take(0)) =~= prefix);
    while i < parts.len()
        invariant
            i <= parts@.len(),
            all == text::runs(parts@),
            out@ == prefix + strung(all.take(i as int)),
        decreases parts@.len() - i,
    {
        proof {
            assert(all.take(i + 1).drop_last() =~= all.take(i as int));
            assert(all.take(i + 1).last() == parts@[i as int]@);
        }
        out.push(0x5c);
        text::push_bytes(&mut out, parts[i].as_slice());
        assert(out@ =~= prefix + strung(all.take(i + 1)));
        i += 1;
    }
    assert(all.take(i as int) =~= all);
    assert(parts@.len() == 0 ==> prefix + strung(all) =~= prefix);
    out
}

/// `rel` below `base`: a path with a prefix replaces the base, one that begins
/// at the root keeps only the prefix of the base, and any other is appended
/// after exactly one separator, or after a drive alone. A verbatim base takes
/// a path part by part.
pub open spec fn joined(sys: System, base: Seq<u8>, rel: Seq<u8>) -> Seq<u8> {
    if prefix_len(sys, rel) > 0 {
        rel
    } else if is_verbatim(sys, base) && rel.len() > 0 {
        verbatim_joined(sys, base, rel)
    } else if has_root(sys, rel) {
        base.take(prefix_len(sys, base)) + rel
    } else if base.len() == 0 || is_sep(sys, base.last()) || (base.len() == 2 && prefix_len(
        sys,
        base,
    ) == 2) {
        base + rel
    } else {
        base.push(main_sep(sys)) + rel
    }
}

/// Puts one path below another.
pub fn join(sys: System, base: &[u8], rel: &[u8]) -> (r: Vec<u8>)
    ensures
        r@ == joined(sys, base@, rel@),
{
    if length_of_prefix(sys, rel) > 0 {
        return text::copy_bytes(rel);
    }
    if rel.len() > 0 && verbatim(sys, base) {
        return join_verbatim(sys, base, rel);
    }
    let prefix: usize = length_of_prefix(sys, base);
    if rel.len() > 0 && separates(sys, rel[0]) {
        let mut out: Vec<u8> = text::copy_bytes(slice_subrange(base, 0, prefix));
        assert(out@ =~= base@.take(prefix as int));
        text::push_bytes(&mut out, rel);
        return out;
    }
    let mut out: Vec<u8> = text::copy_bytes(base);
    if !(base.len() == 0 || separates(sys, base[base.len() - 1]) || (base.len() == 2 && prefix
        == 2)) {
        out.push(
            match sys {
                System::Unix => 0x2f,
                System::Windows => 0x5c,
            },
        );
    }
    text::push_bytes(&mut out, rel);
    out
}

/// Puts a text below a path.
fn below(sys: System, base: &Vec<u8>, rel: &str) -> (r: Vec<u8>)
    ensures
        r@ == joined(sys, base@, text::utf8(rel@)),
{
    let bytes = text::bytes_of(rel);
    join(sys, base.as_slice(), bytes.as_slice())
}

/// Where the last part of a path begins.
pub open spec fn last_start(sys: System, verb: bool, p: Seq<u8>) -> int
    decreases p.len(),
{
    if p.len() == 0 || cuts(sys, verb, p.last()) {
        p.len() as int
    } else {
        last_start(sys, verb, p.drop_last())
    }
}

/// The last part of a path that counts: empty parts do not, nor does `.` where
/// it is not taken word for word.
pub open spec fn last_part(sys: System, verb: bool, p: Seq<u8>) -> Option<Seq<u8>>
    decreases p.len(),
{
    let n = last_start(sys, verb, p);
    let part = p.skip(n);
    if part.len() > 0 && (verb || part != dot()) {
        Some(part)
    } else if 0 < n <= p.len() {
        last_part(sys, verb, p.take(n - 1))
    } else {
        None
    }
}

/// The name of what a path points at: its last part, unless that is `.` or
/// `..`.
pub open spec fn name_of(sys: System, path: Seq<u8>) -> Option<Seq<u8>> {
    match last_part(sys, is_verbatim(sys, path), path.skip(body_start(sys, path))) {
        Some(p) => if p == dot() || p == dot_dot() {
            None
        } else {
            Some(p)
        },
        None => None,
    }
}

proof fn lemma_last_start(sys: System, verb: bool, p: Seq<u8>, n: int)
    requires
        0 <= n <= p.len(),
        n == 0 || cuts(sys, verb, p[n - 1]),
        forall|i: int| n <= i < p.len() ==> !cuts(sys, verb, #[trigger] p[i]),
    ensures
        last_start(sys, verb, p) == n,
    decreases p.len(),
{
    if n < p.len() {
        assert(!cuts(sys, verb, p[p.len() - 1]));
        lemma_last_start(sys, verb, p.drop_last(), n);
    } else if n > 0 {
        assert(cuts(sys, verb, p.last()));
    }
}

/// The name of what a path points at.
pub fn file_name(sys: System, path: &[u8]) -> (r: Option<Vec<u8>>)
    ensures
        text::opt_bytes(r) == name_of(sys, path@),
{
    let verb: bool = verbatim(sys, path);
    let start: usize = start_of_body(sys, path);
    let mut end: usize = path.len();
    assert(path@.subrange(start as int, end as int) =~= path@.skip(start as int));
    loop
        invariant
            start <= end <= path@.len(),
            start == body_start(sys, path@),
            verb == is_verbatim(sys, path@),
            last_part(sys, verb, path@.subrange(start as int, end as int)) == last_part(
                sys,
                verb,
                path@.skip(start as int),
            ),
        decreases end,
    {
        let mut n: usize = end;
        while n > start && !is_cut(sys, verb, path[n - 1])
            invariant
                start <= n <= end <= path@.len(),
                forall|i: int| n <= i < end ==> !cuts(sys, verb, #[trigger] path@[i]),
            decreases n,
        {
            n -= 1;
        }
        let part = slice_subrange(path, n, end);
        proof {
            let p = path@.subrange(start as int, end as int);
            assert forall|i: int| n - start <= i < p.len() implies !cuts(
                sys,
                verb,
                #[trigger] p[i],
            ) by {
                assert(p[i] == path@[i + start]);
            }
            lemma_last_start(sys, verb, p, n - start);
            assert(p.skip(n - start) =~= part@);
            if n > start {
                assert(p.take(n - start - 1) =~= path@.subrange(start as int, n - 1));
            }
        }
        if part.len() > 0 && (verb || !is_dot(part)) {
            if is_dot(part) || is_dot_dot(part) {
                return None;
            }
            return Some(text::copy_bytes(part));
        }
        if n == start {
            return None;
        }
        end = n - 1;
    }
}

// ---------- paths as text ----------

/// Whether half of a pair stands at `i`, as names on Windows may hold it. It is
/// no text.
pub open spec fn is_half(b: Seq<u8>, i: int) -> bool {
    0 <= i && i + 2 < b.len() && b[i] == 0xed && b[i + 1] >= 0xa0
}

/// A byte of a path after each half of a pair was replaced by U+FFFD, which
/// takes three bytes too.
pub open spec fn patched_byte(b: Seq<u8>, i: int) -> u8 {
    if is_half(b, i) {
        0xef
    } else if is_half(b, i - 1) {
        0xbf
    } else if is_half(b, i - 2) {
        0xbd
    } else {
        b[i]
    }
}

/// A path with U+FFFD in place of each half of a pair.
pub open spec fn patched(b: Seq<u8>) -> Seq<u8> {
    Seq::new(b.len(), |i: int| patched_byte(b, i))
}

/// A path as text: one U+FFFD stands for what is no text, and on Windows for
/// each half of a pair.
pub open spec fn shown(sys: System, path: Seq<u8>) -> Seq<char> {
    match sys {
        System::Unix => text::shown(path),
        System::Windows => text::shown(patched(path)),
    }
}

fn half_at(b: &[u8], i: usize) -> (r: bool)
    requires
        i < b@.len(),
    ensures
        r == is_half(b@, i as int),
{
    b.len() - i > 2 && b[i] == 0xed && b[i + 1] >= 0xa0
}

/// A path as text.
pub fn show(sys: System, path: &[u8]) -> (r: String)
    ensures
        r@ == shown(sys, path@),
{
    if sys == System::Unix {
        return text::show(path);
    }
    let mut out: Vec<u8> = Vec::new();
    let mut i: usize = 0;
    while i < path.len()
        invariant
            i <= path@.len(),
            out@.len() == i,
            forall|j: int| 0 <= j < i ==> #[trigger] out@[j] == patched_byte(path@, j),
        decreases path@.len() - i,
    {
        let b: u8 = if half_at(path, i) {
            0xef
        } else if i >= 1 && half_at(path, i - 1) {
            0xbf
        } else if i >= 2 && half_at(path, i - 2) {
            0xbd
        } else {
            path[i]
        };
        out.push(b);
        i += 1;
    }
    assert(out@ =~= patched(path@));
    text::show(out.as_slice())
}

// ---------- the places of files ----------

/// A path with a leading `~/` replaced by the home directory, where there is
/// one.
pub open spec fn expanded(sys: System, path: Seq<char>, home: Option<Seq<u8>>) -> Seq<u8> {
    match home {
        Some(h) => if "~/"@.is_prefix_of(path) {
            joined(sys, h, text::utf8(path.skip(2)))
        } else {
            text::utf8(path)
        },
        None => text::utf8(path),
    }
}

/// Replaces a leading `~/` by the given home directory.
pub fn expand_tilde_in(sys: System, path: &str, home: &Option<Vec<u8>>) -> (r: Vec<u8>)
    ensures
        r@ == expanded(sys, path@, text::opt_bytes(*home)),
{
    let chars = text::chars_of(path);
    proof {
        reveal_strlit("~/");
    }
    if text::starts_with(chars.as_slice(), "~/") {
        if let Some(h) = home {
            let rest = text::string_of(slice_subrange(chars.as_slice(), 2, chars.len()));
            assert(rest@ == path@.skip(2));
            return below(sys, h, rest.as_str());
        }
    }
    text::bytes_of(path)
}

/// Replaces a leading `~/` by the user's home directory. A path that does not
/// start so is kept as it is.
pub fn expand_tilde(path: &str) -> (r: Vec<u8>)
    ensures
        exists|sys: System, home: Option<Seq<u8>>| r@ == #[trigger] expanded(sys, path@, home),
        !"~/"@.is_prefix_of(path@) ==> r@ == text::utf8(path@),
{
    let sys = system();
    let home = home_dir();
    let out = expand_tilde_in(sys, path, &home);
    assert(out@ == expanded(sys, path@, text::opt_bytes(home)));
    out
}

/// The given directory, or a fallback where there is none.
pub open spec fn base_or(dir: Option<Seq<u8>>, fallback: Seq<char>) -> Seq<u8> {
    match dir {
        Some(d) => d,
        None => text::utf8(fallback),
    }
}

pub(crate) fn or_fallback(dir: Option<Vec<u8>>, fallback: &str) -> (r: Vec<u8>)
    ensures
        r@ == base_or(text::opt_bytes(dir), fallback@),
{
    match dir {
        Some(d) => d,
        None => text::bytes_of(fallback),
    }
}

/// Where the saved hosts are kept, below a configuration directory.
pub open spec fn hosts_file_of(sys: System, config: Option<Seq<u8>>) -> Seq<u8> {
    joined(
        sys,
        joined(sys, base_or(config, "."@), text::utf8("ssh-workspace"@)),
        text::utf8("hosts.json"@),
    )
}

/// Where the saved hosts are kept, below the given configuration directory or
/// the working directory.
pub fn hosts_file_in(sys: System, config: Option<Vec<u8>>) -> (r: Vec<u8>)
    ensures
        r@ == hosts_file_of(sys, text::opt_bytes(config)),
{
    let base = or_fallback(config, ".");
    below(sys, &below(sys, &base, "ssh-workspace"), "hosts.json")
}

/// Where the saved hosts are kept.
pub fn hosts_file() -> (r: Vec<u8>)
    ensures
        exists|sys: System, config: Option<Seq<u8>>| r@ == #[trigger] hosts_file_of(sys, config),
{
    let sys = system();
    let config = config_dir();
    let ghost c = text::opt_bytes(config);
    let out = hosts_file_in(sys, config);
    assert(out@ == hosts_file_of(sys, c));
    out
}

/// A file below the `.ssh` directory of a home directory.
pub open spec fn ssh_file_of(sys: System, home: Option<Seq<u8>>, name: Seq<char>) -> Seq<u8> {
    joined(sys, joined(sys, base_or(home, "."@), text::utf8(".ssh"@)), text::utf8(name))
}

/// A file below the `.ssh` directory of the given home directory, or of the
/// working directory.
pub fn ssh_file_in(sys: System, home: Option<Vec<u8>>, name: &str) -> (r: Vec<u8>)
    ensures
        r@ == ssh_file_of(sys, text::opt_bytes(home), name@),
{
    let base = or_fallback(home, ".");
    below(sys, &below(sys, &base, ".ssh"), name)
}

/// A file below the user's `.ssh` directory: `known_hosts` or `config`.
pub fn ssh_file(name: &str) -> (r: Vec<u8>)
    ensures
        exists|sys: System, home: Option<Seq<u8>>| r@ == #[trigger] ssh_file_of(sys, home, name@),
{
    let sys = system();
    let home = home_dir();
    let ghost h = text::opt_bytes(home);
    let out = ssh_file_in(sys, home, name);
    assert(out@ == ssh_file_of(sys, h, name@));
    out
}

/// Where a remote file is kept while it is edited, as text.
pub open spec fn edit_file_of(
    sys: System,
    cache: Option<Seq<u8>>,
    session: Seq<char>,
    remote: Seq<char>,
) -> Seq<char> {
    let name = match name_of(sys, text::utf8(remote)) {
        Some(n) => shown(sys, n),
        None => "file"@,
    };
    let dir = joined(
        sys,
        joined(sys, base_or(cache, "/tmp"@), text::utf8("ssh-workspace/edit"@)),
        text::utf8(session),
    );
    shown(sys, joined(sys, dir, text::utf8(name)))
}

/// Where a remote file is kept while it is edited, below the given cache
/// directory or `/tmp`.
pub fn edit_file_in(sys: System, cache: Option<Vec<u8>>, session: &str, remote: &str) -> (r: String)
    ensures
        r@ == edit_file_of(sys, text::opt_bytes(cache), session@, remote@),
{
    let remote_bytes = text::bytes_of(remote);
    let name: String = match file_name(sys, remote_bytes.as_slice()) {
        Some(n) => show(sys, n.as_slice()),
        None => "file".to_owned(),
    };
    let base = or_fallback(cache, "/tmp");
    let dir = below(sys, &below(sys, &base, "ssh-workspace/edit"), session);
    show(sys, below(sys, &dir, name.as_str()).as_slice())
}

/// Where a remote file is kept while it is edited.
pub fn edit_file(session: &str, remote: &str) -> (r: String)
    ensures
        exists|sys: System, cache: Option<Seq<u8>>|
            r@ == #[trigger] edit_file_of(sys, cache, session@, remote@),
{
    let sys = system();
    let cache = cache_dir();
    let ghost c = text::opt_bytes(cache);
    let out = edit_file_in(sys, cache, session, remote);
    assert(out@ == edit_file_of(sys, c, session@, remote@));
    out
}

/// Where the output of a session is recorded.
pub open spec fn log_file_of(
    sys: System,
    data: Option<Seq<u8>>,
    session: Seq<char>,
    seconds: u64,
    cast: bool,
) -> Seq<u8> {
    let dir = joined(
        sys,
        joined(sys, base_or(data, "."@), text::utf8("ssh-workspace"@)),
        text::utf8(
            if cast {
                "casts"@
            } else {
                "logs"@
            },
        ),
    );
    let name = session + "-"@ + text::dec(seconds as nat) + "."@ + if cast {
        "cast"@
    } else {
        "log"@
    };
    joined(sys, dir, text::utf8(name))
}

/// Where the output of a session is recorded, below the given data directory
/// or the working directory.
pub fn log_file_in(sys: System, data: Option<Vec<u8>>, session: &str, seconds: u64, cast: bool) -> (r:
    Vec<u8>)
    ensures
        r@ == log_file_of(sys, text::opt_bytes(data), session@, seconds, cast),
{
    let base = or_fallback(data, ".");
    let dir = below(
        sys,
        &below(sys, &base, "ssh-workspace"),
        if cast {
            "casts"
        } else {
            "logs"
        },
    );
    let mut name: String = session.to_owned();
    name.append("-");
    name.append(text::decimal(seconds).as_str());
    name.append(".");
    name.append(
        if cast {
            "cast"
        } else {
            "log"
        },
    );
    below(sys, &dir, name.as_str())
}

/// Where the cookies of X displays are kept: where the environment says so, or
/// in the home directory.
pub open spec fn xauthority_of(
    sys: System,
    named: Option<Seq<u8>>,
    home: Option<Seq<u8>>,
) -> Option<Seq<u8>> {
    match (named, home) {
        (Some(p), _) => Some(p),
        (None, Some(h)) => Some(joined(sys, h, text::utf8(".Xauthority"@))),
        (None, None) => None,
    }
}

/// Where the cookies of X displays are kept, given the home directory.
pub fn xauthority_in(sys: System, named: Option<Vec<u8>>, home: Option<Vec<u8>>) -> (r: Option<
    Vec<u8>,
>)
    ensures
        text::opt_bytes(r) == xauthority_of(sys, text::opt_bytes(named), text::opt_bytes(home)),
{
    match (named, home) {
        (Some(p), _) => Some(p),
        (None, Some(h)) => Some(below(sys, &h, ".Xauthority")),
        (None, None) => None,
    }
}

/// Where the cookies of X displays are kept, if anywhere.
pub fn xauthority(named: Option<Vec<u8>>) -> (r: Option<Vec<u8>>)
    ensures
        exists|sys: System, home: Option<Seq<u8>>|
            text::opt_bytes(r) == #[trigger] xauthority_of(sys, text::opt_bytes(named), home),
        named is Some ==> text::opt_bytes(r) == text::opt_bytes(named),
{
    let sys = system();
    let home = home_dir();
    let ghost n = text::opt_bytes(named);
    let ghost h = text::opt_bytes(home);
    let out = xauthority_in(sys, named, home);
    assert(text::opt_bytes(out) == xauthority_of(sys, n, h));
    out
}

// ---------- laws ----------

/// A path without `~/` in front means the same whatever the home directory is.
pub proof fn law_only_a_tilde_is_expanded(sys: System, path: Seq<char>, home: Option<Seq<u8>>)
    requires
        !"~/"@.is_prefix_of(path),
    ensures
        expanded(sys, path, home) == text::utf8(path),
{
}

proof fn lemma_part_end(sys: System, verb: bool, p: Seq<u8>, i: int)
    requires
        0 <= i <= p.len(),
    ensures
        i <= part_end(sys, verb, p, i) <= p.len(),
        (forall|j: int| i <= j < p.len() ==> !cuts(sys, verb, #[trigger] p[j])) ==> part_end(
            sys,
            verb,
            p,
            i,
        ) == p.len(),
    decreases p.len() - i,
{
    if i < p.len() && !cuts(sys, verb, p[i]) {
        lemma_part_end(sys, verb, p, i + 1);
    }
}

proof fn lemma_prefix_len(sys: System, p: Seq<u8>)
    ensures
        0 <= prefix_len(sys, p) <= p.len(),
        is_verbatim(sys, p) ==> prefix_len(sys, p) >= 4,
{
    if p.len() >= 8 {
        lemma_part_end(sys, true, p, 8);
        let a = part_end(sys, true, p, 8);
        if a < p.len() {
            lemma_part_end(sys, true, p, a + 1);
        }
    }
    if p.len() >= 4 {
        lemma_part_end(sys, true, p, 4);
        lemma_part_end(sys, false, p, 4);
    }
    if p.len() >= 2 {
        lemma_part_end(sys, false, p, 2);
        let a = part_end(sys, false, p, 2);
        if a < p.len() {
            lemma_part_end(sys, false, p, a + 1);
        }
    }
}

proof fn lemma_verbatim_join(sys: System, base: Seq<u8>, name: Seq<u8>)
    requires
        is_verbatim(sys, base),
        forall|i: int| 0 <= i < name.len() ==> !is_sep(sys, #[trigger] name[i]),
        name.len() > 0,
        name != dot(),
        name != dot_dot(),
        prefix_len(sys, name) == 0,
    ensures
        exists|stem: Seq<u8>|
            joined(sys, base, name) == #[trigger] stem.push(0x5c) + name && stem.len() >= 4
                && stem.take(4) == base.take(4),
{
    lemma_prefix_len(sys, base);
    lemma_part_end(sys, false, name, 0);
    assert(!is_sep(sys, name[0]));
    assert(name.subrange(0, name.len() as int) =~= name);
    let steps = parts_from(sys, false, name, 0);
    assert(steps =~= seq![name]);
    let own = parts_from(sys, true, base, body_start(sys, base));
    assert(steps.drop_last() =~= Seq::<Seq<u8>>::empty());
    assert(followed(own, Seq::<Seq<u8>>::empty()) == own);
    assert(followed(own, steps) == own.push(name));
    assert(own.push(name).drop_last() =~= own);
    let prefix = base.take(prefix_len(sys, base));
    let stem = prefix + strung(own);
    assert(prefix + strung(own.push(name)) =~= stem.push(0x5c) + name);
    assert(stem.take(4) =~= base.take(4));
}

/// What stands below a directory has the name that it was given, whether that
/// is text or not, as long as it does not complete the prefix that the
/// directory begins with.
pub proof fn law_join_keeps_the_name(sys: System, base: Seq<u8>, name: Seq<u8>)
    requires
        forall|i: int| 0 <= i < name.len() ==> !is_sep(sys, #[trigger] name[i]),
        name.len() > 0,
        name != dot(),
        name != dot_dot(),
        prefix_len(sys, name) == 0,
        prefix_len(sys, joined(sys, base, name)) + name.len() <= joined(sys, base, name).len(),
    ensures
        name_of(sys, joined(sys, base, name)) == Some(name),
{
    let p = joined(sys, base, name);
    let verb = is_verbatim(sys, p);
    assert(!is_sep(sys, name[0]));
    lemma_prefix_len(sys, p);
    lemma_prefix_len(sys, base);
    if is_verbatim(sys, base) {
        lemma_verbatim_join(sys, base, name);
        let stem = choose|stem: Seq<u8>|
            p == #[trigger] stem.push(0x5c) + name && stem.len() >= 4 && stem.take(4) == base.take(
                4,
            );
        assert(base.take(4)[0] == stem[0] && base.take(4)[1] == stem[1]);
        assert(base.take(4)[2] == stem[2] && base.take(4)[3] == stem[3]);
        assert(p[p.len() - name.len() - 1] == 0x5c);
    }
    let m = p.len() - name.len();
    assert(p.skip(m) =~= name);
    let k = body_start(sys, p);
    assert(prefix_len(sys, p) == m ==> p[m] == name[0]);
    assert(k <= m);
    let q = p.skip(k);
    let n = q.len() - name.len();
    assert(q.skip(n) =~= name);
    assert forall|i: int| n <= i < q.len() implies !cuts(sys, verb, #[trigger] q[i]) by {
        assert(q[i] == name[i - n]);
        assert(!is_sep(sys, name[i - n]));
    }
    if n > 0 {
        assert(q[n - 1] == p[m - 1]);
        assert(cuts(sys, verb, p[m - 1]));
    }
    lemma_last_start(sys, verb, q, n);
}

proof fn lemma_no_halves(s: Seq<char>)
    ensures
        forall|i: int| !#[trigger] is_half(text::utf8(s), i),
    decreases s.len(),
{
    let b = text::utf8(s);
    if s.len() > 0 {
        let rest = s.drop_first();
        lemma_no_halves(rest);
        let c = s[0] as u32;
        let w = vstd::utf8::encode_scalar(c);
        vstd::utf8::char_is_scalar(s[0]);
        assert(b == w + text::utf8(rest));
        lemma_scalar(c);
        assert forall|i: int| !#[trigger] is_half(b, i) by {
            if i >= w.len() {
                assert(!is_half(text::utf8(rest), i - w.len()));
                if i + 2 < b.len() {
                    assert(b[i] == text::utf8(rest)[i - w.len()]);
                    assert(b[i + 1] == text::utf8(rest)[i + 1 - w.len()]);
                }
            } else if 0 <= i {
                assert(b[i] == w[i]);
            }
        }
    }
}

/// A byte of 0xED begins a character of three bytes, and then the second is
/// below 0xA0.
proof fn lemma_scalar(c: u32)
    requires
        vstd::utf8::is_scalar(c),
    ensures
        ({
            let w = vstd::utf8::encode_scalar(c);
            forall|i: int|
                0 <= i < w.len() && #[trigger] w[i] == 0xed ==> i == 0 && w.len() == 3 && w[1]
                    < 0xa0
        }),
{
    assert(((c & 0x7f) as u8) < 0x80) by (bit_vector);
    assert((0xc0u8 | ((c >> 6) & 0x1f) as u8) < 0xe0) by (bit_vector);
    assert((0x80u8 | (c & 0x3f) as u8) < 0xc0) by (bit_vector);
    assert((0x80u8 | ((c >> 6) & 0x3f) as u8) < 0xc0) by (bit_vector);
    assert((0x80u8 | ((c >> 12) & 0x3f) as u8) < 0xc0) by (bit_vector);
    assert((0xf0u8 | ((c >> 18) & 0x7) as u8) >= 0xf0) by (bit_vector);
    assert(0x800 <= c <= 0xffff && !(0xd800 <= c <= 0xdfff) && (0xe0u8 | ((c >> 12) & 0xf) as u8)
        == 0xed ==> (0x80u8 | ((c >> 6) & 0x3f) as u8) < 0xa0) by (bit_vector);
}

/// A path that is text shows as it is, on every system.
pub proof fn law_a_text_path_shows_as_it_is(sys: System, path: Seq<char>)
    ensures
        shown(sys, text::utf8(path)) == path,
{
    text::law_text_shows_as_it_is(path);
    lemma_no_halves(path);
    assert(patched(text::utf8(path)) =~= text::utf8(path)) by {
        let b = text::utf8(path);
        assert forall|i: int| 0 <= i < b.len() implies patched_byte(b, i) == b[i] by {
            assert(!is_half(b, i) && !is_half(b, i - 1) && !is_half(b, i - 2));
        }
    }
}

/// Whether a name can stand in a directory: not empty, without a separator,
/// and neither `.` nor `..`.
pub open spec fn is_plain(sys: System, name: Seq<u8>) -> bool {
    &&& name.len() > 0
    &&& forall|i: int| 0 <= i < name.len() ==> !is_sep(sys, #[trigger] name[i])
    &&& name != seq![0x2eu8]
    &&& name != seq![0x2eu8, 0x2eu8]
}

/// Whether a name may follow a stem to make a path: the stem is empty or ends
/// in a separator (behind `\\?\` that is the backslash alone), and the path's
/// prefix is no longer than the stem.
pub open spec fn leads_to(sys: System, stem: Seq<u8>, name: Seq<u8>) -> bool {
    let p = stem + name;
    &&& stem.len() > 0 ==> if is_verbatim(sys, p) {
        stem.last() == 0x5c
    } else {
        is_sep(sys, stem.last())
    }
    &&& prefix_len(sys, p) <= stem.len()
}

/// A path that ends in a separator and a name has that name, and so has the
/// bare name.
pub proof fn law_what_follows_the_separator_is_the_name(
    sys: System,
    stem: Seq<u8>,
    name: Seq<u8>,
)
    requires
        is_plain(sys, name),
        leads_to(sys, stem, name),
    ensures
        name_of(sys, stem + name) == Some(name),
{
    let p = stem + name;
    let verb = is_verbatim(sys, p);
    let m = stem.len() as int;
    assert(!is_sep(sys, name[0]));
    lemma_prefix_len(sys, p);
    assert(p.skip(m) =~= name);
    let k = body_start(sys, p);
    assert(prefix_len(sys, p) == m ==> p[m] == name[0]);
    assert(k <= m);
    let q = p.skip(k);
    let n = q.len() - name.len();
    assert(q.skip(n) =~= name);
    assert forall|i: int| n <= i < q.len() implies !cuts(sys, verb, #[trigger] q[i]) by {
        assert(q[i] == name[i - n]);
        assert(!is_sep(sys, name[i - n]));
    }
    if n > 0 {
        assert(q[n - 1] == p[m - 1]);
        assert(p[m - 1] == stem.last());
        assert(cuts(sys, verb, p[m - 1]));
    }
    lemma_last_start(sys, verb, q, n);
    assert(name != dot() && name != dot_dot());
}

/// On a system with one separator, any directory and name make a path with
/// that name.
pub proof fn law_a_unix_path_has_its_last_part_as_name(dir: Seq<u8>, name: Seq<u8>)
    requires
        is_plain(System::Unix, name),
    ensures
        name_of(System::Unix, name) == Some(name),
        name_of(System::Unix, dir.push(0x2f) + name) == Some(name),
{
    let sys = System::Unix;
    assert(Seq::<u8>::empty() + name =~= name);
    law_what_follows_the_separator_is_the_name(sys, Seq::empty(), name);
    law_what_follows_the_separator_is_the_name(sys, dir.push(0x2f), name);
}

/// A separator behind a path changes nothing of its name, and neither does a
/// single dot behind that.
pub proof fn law_a_separator_at_the_end_changes_no_name(p: Seq<u8>)
    requires
        p.len() > 0,
    ensures
        name_of(System::Unix, p.push(0x2f)) == name_of(System::Unix, p),
        name_of(System::Unix, p + seq![0x2fu8, 0x2eu8]) == name_of(System::Unix, p),
{
    lemma_behind_the_name(p, p.push(0x2f), 0);
    lemma_behind_the_name(p, p + seq![0x2fu8, 0x2eu8], 1);
}

/// `more` is a path followed by a separator and, after it, by nothing or by a
/// single dot.
proof fn lemma_behind_the_name(p: Seq<u8>, more: Seq<u8>, n: int)
    requires
        p.len() > 0,
        0 <= n <= 1,
        more == if n == 0 {
            p.push(0x2f)
        } else {
            p + seq![0x2fu8, 0x2eu8]
        },
    ensures
        name_of(System::Unix, more) == name_of(System::Unix, p),
{
    let sys = System::Unix;
    let k = body_start(sys, p);
    assert(body_start(sys, more) == k) by {
        assert(more[0] == p[0]);
    }
    let q = p.skip(k);
    let r = more.skip(k);
    let end = q.len() + 1;
    assert(r[end - 1] == 0x2f);
    lemma_last_start(sys, false, r, end as int);
    assert(r.take(end - 1) =~= q);
    if n == 0 {
        assert(r.skip(end as int) =~= Seq::empty());
    } else {
        assert(r.skip(end as int) =~= dot());
    }
}

/// On every system, a path that ends in a separator and two dots has no name.
pub proof fn law_the_directory_above_has_no_name(sys: System, stem: Seq<u8>)
    requires
        leads_to(sys, stem, dot_dot()),
    ensures
        name_of(sys, stem + dot_dot()) is None,
{
    let name = dot_dot();
    let p = stem + name;
    let verb = is_verbatim(sys, p);
    let m = stem.len() as int;
    lemma_prefix_len(sys, p);
    assert(p[m] == 0x2e && p[m + 1] == 0x2e);
    let k = body_start(sys, p);
    assert(k <= m);
    let q = p.skip(k);
    let n = q.len() - 2;
    assert(q.skip(n) =~= name);
    assert(q[n] == 0x2e && q[n + 1] == 0x2e);
    if n > 0 {
        assert(q[n - 1] == stem.last());
    }
    lemma_last_start(sys, verb, q, n);
    assert(dot().len() == 1);
}

/// The root, the directory above and a path without any part have no name.
pub proof fn law_some_paths_have_no_name(dir: Seq<u8>)
    ensures
        name_of(System::Unix, Seq::empty()) is None,
        name_of(System::Unix, seq![0x2fu8]) is None,
        name_of(System::Unix, dot()) is None,
        name_of(System::Unix, dot_dot()) is None,
        name_of(System::Unix, dir.push(0x2f) + dot_dot()) is None,
{
    let sys = System::Unix;
    let empty = Seq::<u8>::empty();
    assert(empty.skip(0) =~= empty);
    assert(last_part(sys, false, empty) is None);
    assert(seq![0x2fu8].skip(1) =~= empty);
    lemma_last_start(sys, false, dot(), 0);
    assert(dot().skip(0) =~= dot());
    lemma_last_start(sys, false, dot_dot(), 0);
    assert(dot_dot().skip(0) =~= dot_dot());
    let p = dir.push(0x2f) + dot_dot();
    let q = p.skip(body_start(sys, p));
    let n = q.len() - 2;
    assert(p[p.len() - 3] == 0x2f);
    if n > 0 {
        assert(q[n - 1] == p[p.len() - 3]);
    }
    lemma_last_start(sys, false, q, n);
    assert(q.skip(n) =~= dot_dot());
}

/// On a system with one separator, a path that begins with it replaces the
/// directory that it is joined to; any other path goes behind the directory
/// and one separator.
pub proof fn law_unix_paths_are_joined_with_one_separator(base: Seq<u8>, rel: Seq<u8>)
    ensures
        rel.len() > 0 && rel[0] == 0x2f ==> joined(System::Unix, base, rel) == rel,
        (rel.len() == 0 || rel[0] != 0x2f) && base.len() > 0 && base.last() != 0x2f ==> joined(
            System::Unix,
            base,
            rel,
        ) == base + seq![0x2fu8] + rel,
        (rel.len() == 0 || rel[0] != 0x2f) && (base.len() == 0 || base.last() == 0x2f) ==> joined(
            System::Unix,
            base,
            rel,
        ) == base + rel,
{
    assert(base.take(0) + rel =~= rel);
    assert(base.push(0x2f) + rel =~= base + seq![0x2fu8] + rel);
}

/// Where the backslash separates, a path with a prefix of its own replaces the
/// directory that it is joined to; one that begins at the root keeps only the
/// directory's prefix; any other path goes behind the directory, with a
/// backslash between them unless the directory ends in a separator or is a
/// bare drive.
pub proof fn law_windows_paths_are_joined_with_a_backslash(base: Seq<u8>, rel: Seq<u8>)
    requires
        !is_verbatim(System::Windows, base),
    ensures
        ({
            let sys = System::Windows;
            let r = joined(sys, base, rel);
            let drive = base.len() == 2 && is_letter(base[0]) && base[1] == 0x3a;
            let rooted = rel.len() > 0 && (rel[0] == 0x2f || rel[0] == 0x5c);
            let ended = base.len() == 0 || base.last() == 0x2f || base.last() == 0x5c;
            &&& prefix_len(sys, rel) > 0 ==> r == rel
            &&& prefix_len(sys, rel) == 0 && rooted ==> r == base.take(prefix_len(sys, base)) + rel
            &&& prefix_len(sys, rel) == 0 && !rooted && (ended || drive) ==> r == base + rel
            &&& prefix_len(sys, rel) == 0 && !rooted && !ended && !drive ==> r == base + seq![
                0x5cu8,
            ] + rel
        }),
{
    let sys = System::Windows;
    lemma_prefix_len(sys, rel);
    if base.len() == 2 {
        lemma_part_end(sys, false, base, 2);
    }
    assert(base.push(0x5c) + rel =~= base + seq![0x5cu8] + rel);
}

/// The prefix of a path is its drive, or the share that it stands on.
pub proof fn law_a_drive_is_a_prefix(p: Seq<u8>)
    ensures
        prefix_len(System::Unix, p) == 0,
        p.len() >= 2 && is_letter(p[0]) && p[1] == 0x3a ==> prefix_len(System::Windows, p) == 2,
        p.len() >= 2 && p[1] != 0x3a && !is_sep(System::Windows, p[0]) ==> prefix_len(
            System::Windows,
            p,
        ) == 0,
        p.len() == 1 ==> prefix_len(System::Windows, p) == 0,
        p.len() >= 2 && is_sep(System::Windows, p[0]) && !is_sep(System::Windows, p[1])
            ==> prefix_len(System::Windows, p) == 0,
        p.len() >= 2 && !is_letter(p[0]) && !is_sep(System::Windows, p[0]) ==> prefix_len(
            System::Windows,
            p,
        ) == 0,
        p.len() == 0 ==> prefix_len(System::Windows, p) == 0,
{
}

/// A tilde and a separator stand for the home directory, where one is known.
pub proof fn law_a_tilde_is_the_home(sys: System, rest: Seq<char>, home: Seq<u8>)
    ensures
        expanded(sys, "~/"@ + rest, Some(home)) == joined(sys, home, text::utf8(rest)),
        expanded(sys, "~/"@ + rest, None) == text::utf8("~/"@ + rest),
{
    let p = "~/"@ + rest;
    reveal_strlit("~/");
    assert(p.take(2) =~= "~/"@);
    assert("~/"@.is_prefix_of(p));
    assert(p.skip(2) =~= rest);
}

spec fn is_simple(c: char) -> bool {
    let u = c as u32;
    0x7f >= u && u != 0x2f
}

proof fn lemma_simple(c: char)
    requires
        is_simple(c),
    ensures
        '\0' <= c <= '\u{7f}',
{
}

proof fn lemma_literal(s: Seq<char>)
    requires
        s.len() > 0,
        forall|i: int| 0 <= i < s.len() ==> is_simple(#[trigger] s[i]),
    ensures
        text::utf8(s).len() == s.len(),
        text::utf8(s)[0] != 0x2f,
        text::utf8(s).last() != 0x2f,
{
    assert(vstd::utf8::is_ascii_chars(s)) by {
        assert forall|i: int| 0 <= i < s.len() implies '\0' <= #[trigger] s[i] <= '\u{7f}' by {
            lemma_simple(s[i]);
        }
    }
    vstd::utf8::is_ascii_chars_encode_utf8(s);
    assert(s[0] as u8 == text::utf8(s)[0]);
    assert(s[s.len() - 1] as u8 == text::utf8(s)[s.len() - 1]);
}

/// The hosts are kept in `ssh-workspace/hosts.json` of the configuration
/// directory, and of the current one where that is not known.
pub proof fn law_the_hosts_have_their_place(sys: System, config: Seq<u8>)
    requires
        config.len() > 0,
        config.last() != 0x2f,
    ensures
        hosts_file_of(System::Unix, Some(config)) == config + seq![0x2fu8] + text::utf8(
            "ssh-workspace"@,
        ) + seq![0x2fu8] + text::utf8("hosts.json"@),
        hosts_file_of(sys, None) == hosts_file_of(sys, Some(text::utf8("."@))),
        hosts_file_of(sys, Some(config)) == joined(
            sys,
            joined(sys, config, text::utf8("ssh-workspace"@)),
            text::utf8("hosts.json"@),
        ),
{
    reveal_strlit("ssh-workspace");
    reveal_strlit("hosts.json");
    lemma_literal("ssh-workspace"@);
    lemma_literal("hosts.json"@);
    let a = config.push(0x2f) + text::utf8("ssh-workspace"@);
    assert(a.last() == text::utf8("ssh-workspace"@).last());
    assert(a =~= config + seq![0x2fu8] + text::utf8("ssh-workspace"@));
    assert(a.push(0x2f) + text::utf8("hosts.json"@) =~= a + seq![0x2fu8] + text::utf8(
        "hosts.json"@,
    ));
}

/// A file of OpenSSH stands in `.ssh` of the home directory, and of the current
/// one where that is not known.
pub proof fn law_openssh_has_its_place(sys: System, home: Seq<u8>, name: Seq<char>)
    requires
        home.len() > 0,
        home.last() != 0x2f,
        name.len() > 0 ==> text::utf8(name)[0] != 0x2f,
    ensures
        ssh_file_of(System::Unix, Some(home), name) == home + seq![0x2fu8] + text::utf8(".ssh"@)
            + seq![0x2fu8] + text::utf8(name),
        ssh_file_of(sys, None, name) == ssh_file_of(sys, Some(text::utf8("."@)), name),
        ssh_file_of(sys, Some(home), name) == joined(
            sys,
            joined(sys, home, text::utf8(".ssh"@)),
            text::utf8(name),
        ),
{
    reveal_strlit(".ssh");
    lemma_literal(".ssh"@);
    let a = home.push(0x2f) + text::utf8(".ssh"@);
    assert(a.last() == text::utf8(".ssh"@).last());
    assert(a =~= home + seq![0x2fu8] + text::utf8(".ssh"@));
    assert(a.push(0x2f) + text::utf8(name) =~= a + seq![0x2fu8] + text::utf8(name));
}

/// The cookies are where the environment says, else in `.Xauthority` of the
/// home directory, and nowhere if neither is known.
pub proof fn law_the_cookies_have_their_place(sys: System, named: Seq<u8>, home: Option<Seq<u8>>)
    ensures
        xauthority_of(sys, Some(named), home) == Some(named),
        home is Some ==> xauthority_of(sys, None, home) == Some(
            joined(sys, home->Some_0, text::utf8(".Xauthority"@)),
        ),
        home is None ==> xauthority_of(sys, None, home) is None,
{
}

/// A recording with times is a `.cast` file below `casts`, a plain one a `.log`
/// file below `logs`; both are named after the session and the time and stand
/// below `ssh-workspace` of the data directory.
pub proof fn law_recordings_have_their_place(
    sys: System,
    data: Seq<u8>,
    session: Seq<char>,
    seconds: u64,
    cast: bool,
)
    ensures
        ({
            let dir = joined(sys, data, text::utf8("ssh-workspace"@));
            let stem = session + "-"@ + text::dec(seconds as nat) + "."@;
            &&& log_file_of(sys, Some(data), session, seconds, true) == joined(
                sys,
                joined(sys, dir, text::utf8("casts"@)),
                text::utf8(stem + "cast"@),
            )
            &&& log_file_of(sys, Some(data), session, seconds, false) == joined(
                sys,
                joined(sys, dir, text::utf8("logs"@)),
                text::utf8(stem + "log"@),
            )
            &&& log_file_of(sys, None, session, seconds, cast) == log_file_of(
                sys,
                Some(text::utf8("."@)),
                session,
                seconds,
                cast,
            )
        }),
{
}

/// A remote file that is edited keeps its name, below a directory of its own
/// session; sessions do not share files, and a path without a name becomes
/// `file`.
pub proof fn law_an_edited_file_keeps_its_name(
    sys: System,
    cache: Option<Seq<u8>>,
    session: Seq<char>,
    stem: Seq<char>,
    name: Seq<char>,
)
    requires
        is_plain(sys, text::utf8(name)),
        leads_to(sys, text::utf8(stem), text::utf8(name)),
    ensures
        ({
            let top = match cache {
                Some(c) => c,
                None => text::utf8("/tmp"@),
            };
            let dir = joined(
                sys,
                joined(sys, top, text::utf8("ssh-workspace/edit"@)),
                text::utf8(session),
            );
            &&& edit_file_of(sys, cache, session, stem + name) == shown(
                sys,
                joined(sys, dir, text::utf8(name)),
            )
            &&& edit_file_of(sys, cache, session, Seq::empty()) == shown(
                sys,
                joined(sys, dir, text::utf8("file"@)),
            )
        }),
{
    text::lemma_utf8_concat(stem, name);
    law_what_follows_the_separator_is_the_name(sys, text::utf8(stem), text::utf8(name));
    law_a_text_path_shows_as_it_is(sys, name);
    let empty = Seq::<u8>::empty();
    assert(text::utf8(Seq::empty()) =~= empty);
    assert(empty.skip(0) =~= empty);
    assert(last_part(sys, false, empty) is None);
}

proof fn lemma_part_end_is(sys: System, verb: bool, p: Seq<u8>, i: int, e: int)
    requires
        0 <= i <= e <= p.len(),
        forall|j: int| i <= j < e ==> !cuts(sys, verb, #[trigger] p[j]),
        e < p.len() ==> cuts(sys, verb, p[e]),
    ensures
        part_end(sys, verb, p, i) == e,
    decreases p.len() - i,
{
    if i < e {
        assert(!cuts(sys, verb, p[i]));
        lemma_part_end_is(sys, verb, p, i + 1, e);
    }
}

/// A share is named by its server and its own name; both belong to the prefix
/// of a path that stands on it, and what follows does not.
pub proof fn law_a_share_is_a_prefix(server: Seq<u8>, share: Seq<u8>, rest: Seq<u8>)
    requires
        server.len() > 0,
        share.len() > 0,
        forall|i: int| 0 <= i < server.len() ==> !is_sep(System::Windows, #[trigger] server[i]),
        forall|i: int| 0 <= i < share.len() ==> !is_sep(System::Windows, #[trigger] share[i]),
        rest.len() > 0 ==> is_sep(System::Windows, rest[0]),
        server != seq![0x2eu8],
        server != seq![0x3fu8],
    ensures
        prefix_len(
            System::Windows,
            seq![0x5cu8, 0x5cu8] + server + seq![0x5cu8] + share + rest,
        ) == 3 + server.len() + share.len(),
{
    let sys = System::Windows;
    let p = seq![0x5cu8, 0x5cu8] + server + seq![0x5cu8] + share + rest;
    let a: int = 2 + server.len() as int;
    let b: int = 3 + server.len() as int + share.len() as int;
    assert forall|j: int| 2 <= j < a implies !cuts(sys, false, #[trigger] p[j]) by {
        assert(p[j] == server[j - 2]);
    }
    assert(p[a] == 0x5c);
    lemma_part_end_is(sys, false, p, 2, a);
    assert forall|j: int| a + 1 <= j < b implies !cuts(sys, false, #[trigger] p[j]) by {
        assert(p[j] == share[j - a - 1]);
    }
    if rest.len() > 0 {
        assert(p[b] == rest[0]);
    }
    lemma_part_end_is(sys, false, p, a + 1, b);
    assert(p[2] == server[0]);
    assert(!is_sep(sys, server[0]));
    if p[2] == 0x2e && is_sep(sys, p[3]) {
        if server.len() > 1 {
            assert(p[3] == server[1]);
            assert(!is_sep(sys, server[1]));
        } else {
            assert(server =~= seq![0x2eu8]);
        }
    }
    if is_verbatim(sys, p) {
        if server.len() > 1 {
            assert(p[3] == server[1]);
            assert(!is_sep(sys, server[1]));
        } else {
            assert(server =~= seq![0x3fu8]);
        }
    }
}

/// Behind `\\?\` a drive is a prefix too, together with that mark.
pub proof fn law_a_long_drive_is_a_prefix(letter: u8, rest: Seq<u8>)
    requires
        is_letter(letter),
        rest.len() > 0 ==> is_sep(System::Windows, rest[0]),
    ensures
        prefix_len(
            System::Windows,
            seq![0x5cu8, 0x5cu8, 0x3fu8, 0x5cu8, letter, 0x3au8] + rest,
        ) == 6,
{
    let p = seq![0x5cu8, 0x5cu8, 0x3fu8, 0x5cu8, letter, 0x3au8] + rest;
    assert(p[4] == letter && p[5] == 0x3a);
    if rest.len() > 0 {
        assert(p[6] == rest[0]);
    }
}

/// The parts of a path stand between its separators; an empty one is none.
pub proof fn law_parts_stand_between_separators(
    sys: System,
    verb: bool,
    first: Seq<u8>,
    sep: u8,
    rest: Seq<u8>,
)
    requires
        forall|i: int| 0 <= i < first.len() ==> !cuts(sys, verb, #[trigger] first[i]),
        cuts(sys, verb, sep),
    ensures
        first.len() > 0 ==> parts_from(sys, verb, first, 0) == seq![first],
        first.len() > 0 ==> parts_from(sys, verb, first + seq![sep] + rest, 0) == seq![first]
            + parts_from(sys, verb, rest, 0),
        parts_from(sys, verb, seq![sep] + rest, 0) == parts_from(sys, verb, rest, 0),
        parts_from(sys, verb, Seq::empty(), 0).len() == 0,
{
    let n = first.len() as int;
    lemma_part_end_is(sys, verb, first, 0, n);
    assert(first.subrange(0, n) =~= first);
    assert(seq![first] + Seq::<Seq<u8>>::empty() =~= seq![first]);
    let p = first + seq![sep] + rest;
    assert forall|j: int| 0 <= j < n implies !cuts(sys, verb, #[trigger] p[j]) by {
        assert(p[j] == first[j]);
    }
    lemma_part_end_is(sys, verb, p, 0, n);
    assert(p.subrange(0, n) =~= first);
    lemma_parts_shift(sys, verb, first + seq![sep], rest, 0);
    let q = seq![sep] + rest;
    lemma_part_end_is(sys, verb, q, 0, 0);
    lemma_parts_shift(sys, verb, seq![sep], rest, 0);
}

proof fn lemma_end_shift(sys: System, verb: bool, stem: Seq<u8>, p: Seq<u8>, i: int)
    requires
        0 <= i <= p.len(),
    ensures
        part_end(sys, verb, stem + p, stem.len() + i) == stem.len() + part_end(sys, verb, p, i),
    decreases p.len() - i,
{
    if i < p.len() {
        assert((stem + p)[stem.len() + i] == p[i]);
        if !cuts(sys, verb, p[i]) {
            lemma_end_shift(sys, verb, stem, p, i + 1);
        }
    }
}

proof fn lemma_parts_shift(sys: System, verb: bool, stem: Seq<u8>, p: Seq<u8>, i: int)
    requires
        0 <= i <= p.len(),
    ensures
        parts_from(sys, verb, stem + p, stem.len() + i) == parts_from(sys, verb, p, i),
    decreases p.len() - i,
{
    lemma_end_shift(sys, verb, stem, p, i);
    lemma_part_end(sys, verb, p, i);
    let a = part_end(sys, verb, p, i);
    let s = stem.len() as int;
    assert((stem + p).subrange(s + i, s + a) =~= p.subrange(i, a));
    if a < p.len() {
        lemma_parts_shift(sys, verb, stem, p, a + 1);
    }
}

/// A path behind `\\?\` is followed step by step: a dot stays, two dots go up
/// where there is something to leave, and any other part goes down.
pub proof fn law_steps_are_followed_one_by_one(
    parts: Seq<Seq<u8>>,
    steps: Seq<Seq<u8>>,
    step: Seq<u8>,
)
    ensures
        followed(parts, Seq::empty()) == parts,
        ({
            let at = followed(parts, steps);
            let next = followed(parts, steps.push(step));
            let stuck = at.len() == 0 || at.last() == dot() || at.last() == dot_dot();
            &&& step == seq![0x2eu8] ==> next == at
            &&& step == seq![0x2eu8, 0x2eu8] && stuck ==> next == at
            &&& step == seq![0x2eu8, 0x2eu8] && !stuck ==> next == at.drop_last()
            &&& step != seq![0x2eu8] && step != seq![0x2eu8, 0x2eu8] ==> next == at.push(step)
        }),
{
    assert(steps.push(step).drop_last() =~= steps);
    assert(dot() == seq![0x2eu8] && dot_dot() == seq![0x2eu8, 0x2eu8]);
    if step == dot_dot() && step == dot() {
        assert(dot().len() == 1 && dot_dot().len() == 2);
    }
}

/// A path behind `\\?\` that is joined to another keeps its prefix, and its
/// parts are strung together with backslashes.
pub proof fn law_a_long_path_is_strung_with_backslashes(
    base: Seq<u8>,
    rel: Seq<u8>,
    parts: Seq<Seq<u8>>,
    part: Seq<u8>,
)
    requires
        is_verbatim(System::Windows, base),
        rel.len() > 0,
        prefix_len(System::Windows, rel) == 0,
    ensures
        strung(Seq::empty()).len() == 0,
        strung(parts.push(part)) == strung(parts) + seq![0x5cu8] + part,
        ({
            let sys = System::Windows;
            let rooted = rel[0] == 0x2f || rel[0] == 0x5c;
            let own = if rooted {
                Seq::<Seq<u8>>::empty()
            } else {
                parts_from(sys, true, base, body_start(sys, base))
            };
            let all = followed(own, parts_from(sys, false, rel, 0));
            let prefix = base.take(prefix_len(sys, base));
            all.len() > 0 ==> joined(sys, base, rel) == prefix + strung(all)
        }),
{
    assert(parts.push(part).drop_last() =~= parts);
    assert(strung(parts).push(0x5c) + part =~= strung(parts) + seq![0x5cu8] + part);
}

/// Half a character, which a Windows path can hold, shows as one replacement
/// character; the text round it shows as it is.
pub proof fn law_half_a_character_is_replaced(a: Seq<char>, x: u8, y: u8, b: Seq<char>)
    requires
        0xa0 <= x <= 0xbf,
        0x80 <= y <= 0xbf,
    ensures
        shown(System::Windows, text::utf8(a) + seq![0xedu8, x, y] + text::utf8(b)) == a + seq![
            '\u{fffd}',
        ] + b,
{
    let mid = seq!['\u{fffd}'];
    let good = a + mid + b;
    let p = text::utf8(a) + seq![0xedu8, x, y] + text::utf8(b);
    let n = text::utf8(a).len() as int;
    text::lemma_utf8_concat(a + mid, b);
    text::lemma_utf8_concat(a, mid);
    lemma_replacement();
    let q = text::utf8(good);
    assert(q =~= text::utf8(a) + seq![0xefu8, 0xbfu8, 0xbdu8] + text::utf8(b));
    lemma_no_halves(good);
    assert(q[n] == 0xef && q[n + 1] == 0xbf && q[n + 2] == 0xbd);
    assert(p[n] == 0xed && p[n + 1] == x && p[n + 2] == y);
    assert forall|i: int| 0 <= i < p.len() && i != n && i != n + 1 && i != n + 2 implies p[i]
        == #[trigger] q[i] by {}
    assert forall|i: int| i != n implies !#[trigger] is_half(p, i) by {
        if 0 <= i && i + 2 < p.len() {
            assert(!is_half(q, i));
            assert(i < n || i > n + 2 ==> p[i] == q[i]);
            assert(i + 1 < n || i > n + 2 ==> p[i + 1] == q[i + 1]);
        }
    }
    assert(is_half(p, n));
    assert(patched(p) =~= q);
    text::law_text_shows_as_it_is(good);
}

proof fn lemma_replacement()
    ensures
        text::utf8(seq!['\u{fffd}']) == seq![0xefu8, 0xbfu8, 0xbdu8],
{
    let s = seq!['\u{fffd}'];
    let c = '\u{fffd}' as u32;
    assert(s.drop_first() =~= Seq::empty());
    assert(text::utf8(s.drop_first()) =~= Seq::empty());
    let w = vstd::utf8::encode_scalar(c);
    assert((0xe0u8 | ((0xfffdu32 >> 12) & 0x0f) as u8) == 0xef) by (bit_vector);
    assert((0x80u8 | ((0xfffdu32 >> 6) & 0x3f) as u8) == 0xbf) by (bit_vector);
    assert((0x80u8 | (0xfffdu32 & 0x3f) as u8) == 0xbd) by (bit_vector);
    assert(w =~= seq![0xefu8, 0xbfu8, 0xbdu8]);
}

} // verus!
