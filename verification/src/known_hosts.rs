//! Host keys: what a `known_hosts` check comes to, and how a host is
//! forgotten again.

use vstd::prelude::*;
use vstd::slice::slice_subrange;
use crate::text;
use crate::text::CharClass;

verus! {

/// The name that the key of a host is kept under.
pub open spec fn key_id(host: Seq<char>, port: u16) -> Seq<char> {
    if port == 22 {
        host
    } else {
        "["@ + host + "]:"@ + text::dec(port as nat)
    }
}

/// The name that the key of a host is kept under: the host itself, with the
/// port unless that is 22.
pub fn key_name(host: &str, port: u16) -> (r: String)
    ensures
        r@ == key_id(host@, port),
{
    if port == 22 {
        return host.to_owned();
    }
    let mut out: String = "[".to_owned();
    out.append(host);
    out.append("]:");
    out.append(text::decimal(port as u64).as_str());
    out
}

/// What a look into the known keys found.
#[derive(Debug, Clone, Copy, PartialEq, Eq, Structural)]
pub enum KeyCheck {
    Match,
    NotFound,
    Mismatch,
    Failure,
}

/// What to do about the key of a host. Texts are of the type `S`.
#[derive(Debug)]
pub enum KeyVerdict<S> {
    /// The key is the known one.
    Trusted,
    /// The host is new: keep its key under the name, and tell the user.
    Store { name: S, notice: S },
    /// Break the connection off and say why.
    Refused(S),
}

impl View for KeyVerdict<String> {
    type V = KeyVerdict<Seq<char>>;

    open spec fn view(&self) -> KeyVerdict<Seq<char>> {
        match *self {
            KeyVerdict::Trusted => KeyVerdict::Trusted,
            KeyVerdict::Store { name, notice } => KeyVerdict::Store {
                name: name@,
                notice: notice@,
            },
            KeyVerdict::Refused(e) => KeyVerdict::Refused(e@),
        }
    }
}

/// What to do about the key of a host: an unknown host is trusted on first
/// use, and a changed key never is. `file` is where keys are kept.
pub open spec fn verdict(check: KeyCheck, host: Seq<char>, port: u16, file: Seq<char>) -> KeyVerdict<
    Seq<char>,
> {
    match check {
        KeyCheck::Match => KeyVerdict::Trusted,
        KeyCheck::NotFound => KeyVerdict::Store {
            name: key_id(host, port),
            notice: "First connection: stored host key for "@ + key_id(host, port) + " in "@ + file,
        },
        KeyCheck::Mismatch => KeyVerdict::Refused(
            "HOST KEY MISMATCH for "@ + host + ":"@ + text::dec(port as nat)
                + ".\nThe server's key differs from the one in "@ + file
                + ".\nIf the server was reinstalled/upgraded, use \"reset key\" on the host and reconnect."@,
        ),
        KeyCheck::Failure => KeyVerdict::Refused("host key verification failed"@),
    }
}

/// Decides about the key of a host.
pub fn check_host_key(check: KeyCheck, host: &str, port: u16, file: &str) -> (r: KeyVerdict<String>)
    ensures
        r@ == verdict(check, host@, port, file@),
{
    match check {
        KeyCheck::Match => KeyVerdict::Trusted,
        KeyCheck::NotFound => {
            let name = key_name(host, port);
            let mut notice: String = "First connection: stored host key for ".to_owned();
            notice.append(name.as_str());
            notice.append(" in ");
            notice.append(file);
            KeyVerdict::Store { name, notice }
        },
        KeyCheck::Mismatch => {
            let mut e: String = "HOST KEY MISMATCH for ".to_owned();
            e.append(host);
            e.append(":");
            e.append(text::decimal(port as u64).as_str());
            e.append(".\nThe server's key differs from the one in ");
            e.append(file);
            e.append(
                ".\nIf the server was reinstalled/upgraded, use \"reset key\" on the host and reconnect.",
            );
            KeyVerdict::Refused(e)
        },
        KeyCheck::Failure => KeyVerdict::Refused("host key verification failed".to_owned()),
    }
}

/// What can go wrong with the known keys.
#[derive(Debug, Clone, Copy, PartialEq, Eq, Structural)]
pub enum KeyStep {
    /// The server shows its key.
    Present,
    /// The list of known keys is set up.
    Open,
    Read,
    Store,
    Write,
}

/// What went wrong with the known keys, in words.
pub open spec fn key_error_text(step: KeyStep, file: Seq<char>, error: Seq<char>) -> Seq<char> {
    match step {
        KeyStep::Present => "server did not present a host key"@,
        KeyStep::Open => error,
        KeyStep::Read => "cannot read "@ + file + ": "@ + error,
        KeyStep::Store => "cannot store host key: "@ + error,
        KeyStep::Write => "cannot write "@ + file + ": "@ + error,
    }
}

/// Says what went wrong with the known keys.
pub fn key_error(step: KeyStep, file: &str, error: &str) -> (r: String)
    ensures
        r@ == key_error_text(step, file@, error@),
{
    match step {
        KeyStep::Present => "server did not present a host key".to_owned(),
        KeyStep::Open => error.to_owned(),
        KeyStep::Read => {
            let mut out: String = "cannot read ".to_owned();
            out.append(file);
            out.append(": ");
            out.append(error);
            out
        },
        KeyStep::Store => {
            let mut out: String = "cannot store host key: ".to_owned();
            out.append(error);
            out
        },
        KeyStep::Write => {
            let mut out: String = "cannot write ".to_owned();
            out.append(file);
            out.append(": ");
            out.append(error);
            out
        },
    }
}

/// The names under which the keys of a host are looked for.
pub open spec fn patterns_of(host: Seq<char>, port: u16) -> Seq<Seq<char>> {
    if port == 22 {
        seq![host]
    } else {
        seq![host, key_id(host, port)]
    }
}

/// The names under which the keys of a host are looked for.
pub fn patterns(host: &str, port: u16) -> (r: Vec<String>)
    ensures
        text::texts(r@) == patterns_of(host@, port),
{
    let mut out: Vec<String> = Vec::new();
    out.push(host.to_owned());
    if port != 22 {
        out.push(key_name(host, port));
    }
    assert(text::texts(out@) =~= patterns_of(host@, port));
    out
}

/// The names that a line of the file, trimmed, gives a key for.
pub open spec fn names_on(line: Seq<char>) -> Seq<Seq<char>> {
    text::split(line.take(text::find(line, CharClass::Space)), CharClass::Comma)
}

/// Whether one of the names is one of the patterns.
pub open spec fn any_matches(names: Seq<Seq<char>>, pats: Seq<Seq<char>>) -> bool {
    exists|i: int| 0 <= i < names.len() && pats.contains(#[trigger] names[i])
}

/// Whether a line of the file is kept: empty lines, comments and hashed
/// entries always are, others unless they name one of the patterns.
pub open spec fn is_kept(raw: Seq<char>, pats: Seq<Seq<char>>) -> bool {
    let line = text::trim(raw, CharClass::Space);
    ||| line.len() == 0
    ||| line[0] == '#'
    ||| "|1|"@.is_prefix_of(line)
    ||| !any_matches(names_on(line), pats)
}

/// The lines with a line break between them.
pub open spec fn joined_lines(ls: Seq<Seq<char>>) -> Seq<char>
    decreases ls.len(),
{
    if ls.len() == 0 {
        Seq::empty()
    } else if ls.len() == 1 {
        ls[0]
    } else {
        joined_lines(ls.drop_last()) + seq!['\n'] + ls.last()
    }
}

/// The text of a file with the given lines: it ends with a line break unless
/// it is empty.
pub open spec fn file_text(ls: Seq<Seq<char>>) -> Seq<char> {
    let t = joined_lines(ls);
    if t.len() == 0 {
        t
    } else {
        t.push('\n')
    }
}

/// The lines that are kept.
pub open spec fn kept_lines(content: Seq<char>, pats: Seq<Seq<char>>) -> Seq<Seq<char>> {
    text::lines(content).filter(|l: Seq<char>| is_kept(l, pats))
}

fn is_one_of(name: &[char], pats: &Vec<String>) -> (r: bool)
    ensures
        r == text::texts(pats@).contains(name@),
{
    let mut i: usize = 0;
    while i < pats.len()
        invariant
            i <= pats@.len(),
            forall|j: int| 0 <= j < i ==> (#[trigger] pats@[j])@ != name@,
        decreases pats@.len() - i,
    {
        if text::is_word(name, pats[i].as_str()) {
            assert(text::texts(pats@)[i as int] == name@);
            return true;
        }
        i += 1;
    }
    assert forall|j: int| 0 <= j < text::texts(pats@).len() implies text::texts(pats@)[j]
        != name@ by {
        assert(pats@[j]@ != name@);
    }
    false
}

/// Whether a line of the file is kept when the patterns are forgotten.
pub fn keeps_line(raw: &[char], pats: &Vec<String>) -> (r: bool)
    ensures
        r == is_kept(raw@, text::texts(pats@)),
{
    let line = text::trim_class(raw, CharClass::Space);
    if line.len() == 0 || line[0] == '#' || text::starts_with(line, "|1|") {
        return true;
    }
    let end: usize = text::find_class(line, CharClass::Space);
    let field = slice_subrange(line, 0, end);
    assert(field@ =~= line@.take(end as int));
    let names = text::split_at_class(field, CharClass::Comma);
    let ghost all = names_on(line@);
    let mut i: usize = 0;
    while i < names.len()
        invariant
            i <= names@.len(),
            all == names_on(line@),
            all == text::views(names@),
            line@ == text::trim(raw@, CharClass::Space),
            line@.len() > 0,
            line@[0] != '#',
            !"|1|"@.is_prefix_of(line@),
            forall|j: int| 0 <= j < i ==> !text::texts(pats@).contains(#[trigger] all[j]),
        decreases names@.len() - i,
    {
        assert(all[i as int] == names@[i as int]@);
        if is_one_of(names[i], pats) {
            return false;
        }
        i += 1;
    }
    true
}

/// Forgets the keys of a host: drops every line that names it and says how
/// many there were, with the new text of the file. Where there is no file
/// there is nothing to forget.
pub fn reset_host_key(content: Option<&str>, host: &str, port: u16) -> (r: (usize, Option<String>))
    ensures
        match content {
            None => r.0 == 0 && r.1 is None,
            Some(c) => {
                let kept = kept_lines(c@, patterns_of(host@, port));
                &&& r.0 == text::lines(c@).len() - kept.len()
                &&& r.1 is Some
                &&& r.1->Some_0@ == file_text(kept)
            },
        },
{
    let content: &str = match content {
        Some(c) => c,
        None => return (0, None),
    };
    let pats = patterns(host, port);
    let chars = text::chars_of(content);
    let all = text::split_lines(chars.as_slice());
    let ghost p = patterns_of(host@, port);
    let ghost keep = |l: Seq<char>| is_kept(l, p);
    let ghost lines = text::lines(content@);
    let mut out: String = String::new();
    let mut first: bool = true;
    let mut removed: usize = 0;
    let mut i: usize = 0;
    proof {
        reveal(Seq::filter);
        assert(lines.take(0).filter(keep) =~= Seq::<Seq<char>>::empty());
    }
    while i < all.len()
        invariant
            i <= all@.len(),
            lines == text::views(all@),
            p == text::texts(pats@),
            keep == (|l: Seq<char>| is_kept(l, p)),
            removed == i - lines.take(i as int).filter(keep).len(),
            first <==> lines.take(i as int).filter(keep).len() == 0,
            out@ == joined_lines(lines.take(i as int).filter(keep)),
        decreases all@.len() - i,
    {
        let ghost so_far = lines.take(i as int).filter(keep);
        proof {
            reveal(Seq::filter);
            assert(lines.take(i + 1).drop_last() == lines.take(i as int));
            assert(lines.take(i + 1).last() == all@[i as int]@);
            lines.take(i as int).lemma_filter_len(keep);
            assert(so_far.push(all@[i as int]@).drop_last() =~= so_far);
        }
        if keeps_line(all[i], &pats) {
            if !first {
                out.push('\n');
                assert(out@ == joined_lines(so_far) + seq!['\n']);
            }
            first = false;
            out.append(text::string_of(all[i]).as_str());
            assert(out@ =~= joined_lines(so_far.push(all@[i as int]@)));
        } else {
            removed += 1;
        }
        i += 1;
    }
    assert(lines.take(i as int) == lines);
    if !out.as_str().is_empty() {
        out.push('\n');
    }
    (removed, Some(out))
}

/// How a host is forgotten.
#[derive(Debug, Clone, Copy, PartialEq, Eq, Structural)]
pub enum ResetPlan {
    /// There is no file, so nothing is to be done.
    Nothing,
    /// With `ssh-keygen -R`, which also finds hashed entries.
    Keygen,
    /// By writing the file anew without the host.
    Rewrite,
}

/// How to forget a host: there may be no file, and `ssh-keygen` may be missing.
pub fn reset_plan(file_exists: bool, has_keygen: bool) -> (r: ResetPlan)
    ensures
        r == if !file_exists {
            ResetPlan::Nothing
        } else if has_keygen {
            ResetPlan::Keygen
        } else {
            ResetPlan::Rewrite
        },
{
    if !file_exists {
        ResetPlan::Nothing
    } else if has_keygen {
        ResetPlan::Keygen
    } else {
        ResetPlan::Rewrite
    }
}

/// How many lines say that a key was found.
pub open spec fn found_lines(ls: Seq<Seq<char>>) -> nat {
    ls.filter(|l: Seq<char>| text::occurs_in("found: line"@, l)).len()
}

/// How many keys `ssh-keygen -R` says it removed: it prints a line for each.
pub fn keygen_removed(stdout: &[u8]) -> (r: usize)
    ensures
        r == found_lines(text::lines(text::shown(stdout@))),
{
    let shown = text::show(stdout);
    count_found(shown.as_str())
}

/// How many keys several runs of `ssh-keygen -R` say they removed. A run that
/// could not be started removed none.
pub open spec fn total_found(outputs: Seq<Option<Vec<u8>>>) -> nat
    decreases outputs.len(),
{
    if outputs.len() == 0 {
        0
    } else {
        total_found(outputs.drop_last()) + match outputs.last() {
            Some(o) => found_lines(text::lines(text::shown(o@))),
            None => 0,
        }
    }
}

/// How many keys were removed, given what `ssh-keygen -R` printed for each of
/// the patterns. No more are counted than a number can hold.
pub fn keygen_total(outputs: &Vec<Option<Vec<u8>>>) -> (r: usize)
    ensures
        r == if total_found(outputs@) <= usize::MAX {
            total_found(outputs@)
        } else {
            usize::MAX as nat
        },
{
    let mut total: usize = 0;
    let mut i: usize = 0;
    while i < outputs.len()
        invariant
            i <= outputs@.len(),
            total == if total_found(outputs@.take(i as int)) <= usize::MAX {
                total_found(outputs@.take(i as int))
            } else {
                usize::MAX as nat
            },
        decreases outputs@.len() - i,
    {
        proof {
            assert(outputs@.take(i + 1).drop_last() =~= outputs@.take(i as int));
        }
        if let Some(o) = &outputs[i] {
            let n: usize = keygen_removed(o.as_slice());
            total = if n <= usize::MAX - total {
                total + n
            } else {
                usize::MAX
            };
        }
        i += 1;
    }
    assert(outputs@.take(i as int) =~= outputs@);
    total
}

/// How many lines of a text say that a key was found.
pub fn count_found(shown: &str) -> (r: usize)
    ensures
        r == found_lines(text::lines(shown@)),
{
    let chars = text::chars_of(shown);
    let all = text::split_lines(chars.as_slice());
    let ghost lines = text::lines(shown@);
    let ghost says = |l: Seq<char>| text::occurs_in("found: line"@, l);
    let mut n: usize = 0;
    let mut i: usize = 0;
    proof {
        reveal(Seq::filter);
        assert(lines.take(0).filter(says).len() == 0);
    }
    while i < all.len()
        invariant
            i <= all@.len(),
            lines == text::views(all@),
            says == (|l: Seq<char>| text::occurs_in("found: line"@, l)),
            n <= i,
            n == lines.take(i as int).filter(says).len(),
        decreases all@.len() - i,
    {
        proof {
            reveal(Seq::filter);
            assert(lines.take(i + 1).drop_last() == lines.take(i as int));
            assert(lines.take(i + 1).last() == all@[i as int]@);
        }
        if text::contains_text(all[i], "found: line") {
            n += 1;
        }
        i += 1;
    }
    assert(lines.take(i as int) == lines);
    n
}

// ---------- laws ----------

/// A changed key is never accepted, and a failed check neither.
pub proof fn law_a_changed_key_is_refused(host: Seq<char>, port: u16, file: Seq<char>)
    ensures
        verdict(KeyCheck::Mismatch, host, port, file) is Refused,
        verdict(KeyCheck::Failure, host, port, file) is Refused,
{
}

/// The name that a key is stored under is one that resetting looks for.
pub proof fn law_reset_looks_for_the_stored_name(host: Seq<char>, port: u16)
    ensures
        patterns_of(host, port).contains(key_id(host, port)),
{
    let p = patterns_of(host, port);
    if port == 22 {
        assert(p[0] == key_id(host, port));
    } else {
        assert(p[1] == key_id(host, port));
    }
}

/// With port 22 a key of the same host under another port is kept.
pub proof fn law_port_22_keeps_other_ports(host: Seq<char>, other: Seq<char>, port: u16)
    requires
        other == key_id(host, port),
        port != 22,
    ensures
        !patterns_of(host, 22).contains(other),
{
    reveal_strlit("[");
    reveal_strlit("]:");
    assert(other.len() > host.len());
}

proof fn lemma_trim_space(s: Seq<char>, c: char)
    requires
        text::is_space(c),
    ensures
        text::trim(s.push(c), CharClass::Space) == text::trim(s, CharClass::Space),
    decreases s.len(),
{
    let k = CharClass::Space;
    let t = s.push(c);
    if s.len() == 0 {
        assert(t.drop_first() =~= Seq::<char>::empty());
        reveal_with_fuel(text::trim_start, 2);
        reveal_with_fuel(text::trim_end, 2);
        assert(s =~= Seq::<char>::empty());
    } else if text::in_class(k, s[0]) {
        assert(t.drop_first() =~= s.drop_first().push(c));
        lemma_trim_space(s.drop_first(), c);
    } else {
        assert(t.drop_last() =~= s);
    }
}

proof fn lemma_chop_kept(l: Seq<char>, pats: Seq<Seq<char>>)
    ensures
        is_kept(text::chop_cr(l), pats) == is_kept(l, pats),
{
    if l.len() > 0 && l.last() == '\r' {
        assert(l.drop_last().push('\r') =~= l);
        lemma_trim_space(l.drop_last(), '\r');
    }
}

/// Whether a line holds no line break.
pub open spec fn one_line(l: Seq<char>) -> bool {
    text::find(l, CharClass::Newline) == l.len()
}

proof fn lemma_lines_are_lines(s: Seq<char>, j: int)
    requires
        0 <= j < text::lines(s).len(),
    ensures
        one_line(text::lines(s)[j]),
    decreases s.len(),
{
    let k = CharClass::Newline;
    let i = text::find(s, k);
    text::lemma_find(s, k);
    if s.len() > 0 && i < s.len() {
        if j == 0 {
            let l = text::chop_cr(s.take(i));
            assert forall|m: int| 0 <= m < l.len() implies !text::in_class(k, #[trigger] l[m]) by {
                assert(l[m] == s[m]);
            }
            text::lemma_find_is(l, k, l.len() as int);
        } else {
            lemma_lines_are_lines(s.skip(i + 1), j - 1);
            assert(text::lines(s)[j] == text::lines(s.skip(i + 1))[j - 1]);
        }
    }
}

/// A text of lines, each with its line break.
pub open spec fn terminated(ls: Seq<Seq<char>>) -> Seq<char>
    decreases ls.len(),
{
    if ls.len() == 0 {
        Seq::empty()
    } else {
        ls[0] + seq!['\n'] + terminated(ls.drop_first())
    }
}

proof fn lemma_terminated_push(ls: Seq<Seq<char>>, l: Seq<char>)
    ensures
        terminated(ls.push(l)) == terminated(ls) + l + seq!['\n'],
    decreases ls.len(),
{
    reveal_with_fuel(terminated, 2);
    if ls.len() == 0 {
        assert(ls.push(l).drop_first() =~= Seq::<Seq<char>>::empty());
        assert(terminated(ls.push(l)) =~= terminated(ls) + l + seq!['\n']);
    } else {
        assert(ls.push(l).drop_first() =~= ls.drop_first().push(l));
        lemma_terminated_push(ls.drop_first(), l);
        assert(terminated(ls.push(l)) =~= terminated(ls) + l + seq!['\n']);
    }
}

proof fn lemma_joined_terminated(ls: Seq<Seq<char>>)
    requires
        ls.len() > 0,
    ensures
        joined_lines(ls).push('\n') == terminated(ls),
    decreases ls.len(),
{
    let init = ls.drop_last();
    assert(ls =~= init.push(ls.last()));
    lemma_terminated_push(init, ls.last());
    if ls.len() == 1 {
        assert(init =~= Seq::<Seq<char>>::empty());
        assert(joined_lines(ls).push('\n') =~= terminated(init) + ls.last() + seq!['\n']);
    } else {
        lemma_joined_terminated(init);
        assert(joined_lines(ls).push('\n') =~= joined_lines(init).push('\n') + ls.last()
            + seq!['\n']);
    }
}

proof fn lemma_lines_of_terminated(ls: Seq<Seq<char>>, j: int)
    requires
        forall|i: int| 0 <= i < ls.len() ==> one_line(#[trigger] ls[i]),
        0 <= j < text::lines(terminated(ls)).len(),
    ensures
        j < ls.len(),
        text::lines(terminated(ls))[j] == text::chop_cr(ls[j]),
    decreases ls.len(),
{
    let k = CharClass::Newline;
    let t = terminated(ls);
    if ls.len() > 0 {
        let l = ls[0];
        let rest = ls.drop_first();
        assert(one_line(ls[0]));
        text::lemma_find(l, k);
        assert forall|m: int| 0 <= m < l.len() implies !text::in_class(k, #[trigger] t[m]) by {
            assert(t[m] == l[m]);
        }
        text::lemma_find_is(t, k, l.len() as int);
        assert(t.take(l.len() as int) =~= l);
        assert(t.skip(l.len() as int + 1) =~= terminated(rest));
        assert forall|i: int| 0 <= i < rest.len() implies one_line(#[trigger] rest[i]) by {
            assert(rest[i] == ls[i + 1]);
        }
        if j > 0 {
            assert(text::lines(t)[j] == text::lines(terminated(rest))[j - 1]);
            lemma_lines_of_terminated(rest, j - 1);
        }
    }
}

proof fn lemma_kept_members(ls: Seq<Seq<char>>, pats: Seq<Seq<char>>, j: int)
    requires
        forall|i: int| 0 <= i < ls.len() ==> one_line(#[trigger] ls[i]),
        0 <= j < ls.filter(|l: Seq<char>| is_kept(l, pats)).len(),
    ensures
        one_line(ls.filter(|l: Seq<char>| is_kept(l, pats))[j]),
        is_kept(ls.filter(|l: Seq<char>| is_kept(l, pats))[j], pats),
    decreases ls.len(),
{
    reveal(Seq::filter);
    let keep = |l: Seq<char>| is_kept(l, pats);
    let init = ls.drop_last();
    assert forall|i: int| 0 <= i < init.len() implies one_line(#[trigger] init[i]) by {
        assert(init[i] == ls[i]);
    }
    if j < init.filter(keep).len() {
        lemma_kept_members(init, pats, j);
    } else {
        assert(one_line(ls[ls.len() - 1]));
    }
}

/// After a reset no line of the file names the host any more.
pub proof fn law_reset_leaves_no_match(content: Seq<char>, pats: Seq<Seq<char>>, j: int)
    requires
        0 <= j < text::lines(file_text(kept_lines(content, pats))).len(),
    ensures
        is_kept(text::lines(file_text(kept_lines(content, pats)))[j], pats),
{
    let ls = text::lines(content);
    let kept = kept_lines(content, pats);
    assert forall|i: int| 0 <= i < ls.len() implies one_line(#[trigger] ls[i]) by {
        lemma_lines_are_lines(content, i);
    }
    assert forall|i: int| 0 <= i < kept.len() implies one_line(#[trigger] kept[i]) && is_kept(
        kept[i],
        pats,
    ) by {
        lemma_kept_members(ls, pats, i);
    }
    if kept.len() > 0 && joined_lines(kept).len() > 0 {
        lemma_joined_terminated(kept);
        lemma_lines_of_terminated(kept, j);
        lemma_chop_kept(kept[j], pats);
    }
}

/// A line that names none of the patterns is kept as it is: what is removed
/// are matching lines only.
pub proof fn law_reset_keeps_other_lines(content: Seq<char>, pats: Seq<Seq<char>>, i: int)
    requires
        0 <= i < text::lines(content).len(),
        is_kept(text::lines(content)[i], pats),
    ensures
        kept_lines(content, pats).contains(text::lines(content)[i]),
{
    let keep = |l: Seq<char>| is_kept(l, pats);
    assert(keep(text::lines(content)[i]));
    text::lines(content).lemma_filter_contains(keep, i);
}

proof fn lemma_trim_end_prefix(s: Seq<char>, k: CharClass, n: int)
    requires
        0 < n <= s.len(),
        !text::in_class(k, s[n - 1]),
    ensures
        n <= text::trim_end(s, k).len() <= s.len(),
        text::trim_end(s, k) == s.take(text::trim_end(s, k).len() as int),
    decreases s.len(),
{
    if text::in_class(k, s.last()) {
        lemma_trim_end_prefix(s.drop_last(), k, n);
        let m = text::trim_end(s, k).len() as int;
        assert(s.drop_last().take(m) =~= s.take(m));
    } else {
        assert(s.take(s.len() as int) =~= s);
    }
}

/// What was stored for a host is removed when it is reset: a line that starts
/// with the stored name does not survive. A host name that holds a space or a
/// comma, or that starts like a comment or a hashed entry, is not covered.
pub proof fn law_reset_forgets_what_was_stored(host: Seq<char>, port: u16, rest: Seq<char>)
    requires
        host.len() > 0,
        host[0] != '#',
        host[0] != '|',
        text::find(host, CharClass::Space) == host.len(),
        text::find(host, CharClass::Comma) == host.len(),
    ensures
        !is_kept(key_id(host, port) + seq![' '] + rest, patterns_of(host, port)),
{
    let id = key_id(host, port);
    let raw = id + seq![' '] + rest;
    let k = CharClass::Space;
    lemma_id_plain(host, port);
    let n = id.len() as int;
    assert(raw[0] == id[0]);
    assert(!text::in_class(k, id[0]));
    assert(text::trim_start(raw, k) == raw);
    assert(raw[n - 1] == id[n - 1]);
    assert(!text::in_class(k, id[n - 1]));
    lemma_trim_end_prefix(raw, k, n);
    let line = text::trim(raw, k);
    assert forall|j: int| 0 <= j < n implies !text::in_class(k, #[trigger] line[j]) by {
        assert(line[j] == id[j]);
    }
    if line.len() > n {
        assert(line[n] == ' ');
    }
    text::lemma_find_is(line, k, n);
    assert(line.take(n) =~= id);
    assert(line[0] == id[0]);
    reveal_strlit("|1|");
    reveal_strlit("[");
    if "|1|"@.is_prefix_of(line) {
        assert("|1|"@[0] == line.subrange(0, 3)[0]);
    }
    let names = text::split(id, CharClass::Comma);
    assert(names =~= seq![id]);
    law_reset_looks_for_the_stored_name(host, port);
    assert(patterns_of(host, port).contains(names[0]));
}

proof fn lemma_id_plain(host: Seq<char>, port: u16)
    requires
        host.len() > 0,
        host[0] != '#',
        host[0] != '|',
        text::find(host, CharClass::Space) == host.len(),
        text::find(host, CharClass::Comma) == host.len(),
    ensures
        key_id(host, port).len() > 0,
        key_id(host, port)[0] != '#',
        key_id(host, port)[0] != '|',
        forall|j: int|
            0 <= j < key_id(host, port).len() ==> !text::in_class(
                CharClass::Space,
                #[trigger] key_id(host, port)[j],
            ),
        text::find(key_id(host, port), CharClass::Comma) == key_id(host, port).len(),
{
    let id = key_id(host, port);
    text::lemma_find(host, CharClass::Space);
    text::lemma_find(host, CharClass::Comma);
    if port != 22 {
        reveal_strlit("[");
        reveal_strlit("]:");
        let d = text::dec(port as nat);
        lemma_dec_digits(port as nat);
        assert(id[0] == '[');
        assert forall|j: int| 0 <= j < id.len() implies !text::in_class(
            CharClass::Space,
            #[trigger] id[j],
        ) && !text::in_class(CharClass::Comma, id[j]) by {
            if j == 0 {
            } else if j < 1 + host.len() {
                assert(id[j] == host[j - 1]);
            } else if j == 1 + host.len() {
                assert(id[j] == ']');
            } else if j == 2 + host.len() {
                assert(id[j] == ':');
            } else {
                assert(id[j] == d[j - 3 - host.len()]);
                assert(text::is_digit(d[j - 3 - host.len()]));
            }
        }
    }
    text::lemma_find_is(id, CharClass::Comma, id.len() as int);
}

proof fn lemma_dec_digits(n: nat)
    ensures
        text::all_digits(text::dec(n)),
    decreases n,
{
    if n >= 10 {
        lemma_dec_digits(n / 10);
        let d = text::dec(n);
        let e = text::dec(n / 10);
        assert forall|i: int| 0 <= i < d.len() implies text::is_digit(#[trigger] d[i]) by {
            if i < e.len() {
                assert(d[i] == e[i]);
            }
        }
    }
}

/// A known key is trusted; an unknown one is stored under the host's name,
/// with the port where it is not the usual one, and the user is told so.
pub proof fn law_a_first_key_is_stored(host: Seq<char>, port: u16, file: Seq<char>)
    ensures
        ({
            let name = if port == 22 {
                host
            } else {
                "["@ + host + "]:"@ + text::dec(port as nat)
            };
            &&& verdict(KeyCheck::Match, host, port, file) == KeyVerdict::<Seq<char>>::Trusted
            &&& verdict(KeyCheck::NotFound, host, port, file) == (KeyVerdict::Store {
                name,
                notice: "First connection: stored host key for "@ + name + " in "@ + file,
            })
            &&& verdict(KeyCheck::Failure, host, port, file) == KeyVerdict::Refused(
                "host key verification failed"@,
            )
            &&& verdict(KeyCheck::Mismatch, host, port, file) == KeyVerdict::Refused(
                "HOST KEY MISMATCH for "@ + host + ":"@ + text::dec(port as nat)
                    + ".\nThe server's key differs from the one in "@ + file
                    + ".\nIf the server was reinstalled/upgraded, use \"reset key\" on the host and reconnect."@,
            )
            &&& key_id(host, port) == name
        }),
{
}

/// What goes wrong with the keys is named by its step.
pub proof fn law_a_key_error_names_its_step(file: Seq<char>, error: Seq<char>)
    ensures
        key_error_text(KeyStep::Present, file, error) == "server did not present a host key"@,
        key_error_text(KeyStep::Open, file, error) == error,
        key_error_text(KeyStep::Read, file, error) == "cannot read "@ + file + ": "@ + error,
        key_error_text(KeyStep::Store, file, error) == "cannot store host key: "@ + error,
        key_error_text(KeyStep::Write, file, error) == "cannot write "@ + file + ": "@ + error,
{
}

/// A reset looks for the bare name of the host, and for the name with the port
/// where that is not the usual one; for nothing else.
pub proof fn law_reset_looks_for_the_host_alone(host: Seq<char>, port: u16, other: Seq<char>)
    ensures
        patterns_of(host, port).contains(other) <==> other == host || (port != 22 && other
            == "["@ + host + "]:"@ + text::dec(port as nat)),
        patterns_of(host, port)[0] == host,
{
    let p = patterns_of(host, port);
    assert(p[0] == host);
    if port != 22 {
        assert(p[1] == key_id(host, port));
    }
}

/// A line stays or goes by the names before its first space, whatever spaces
/// stand before them and whatever follows: it goes exactly if one of them,
/// between commas, is looked for.
pub proof fn law_a_line_goes_by_its_names(
    left: Seq<char>,
    names: Seq<char>,
    rest: Seq<char>,
    pats: Seq<Seq<char>>,
    i: int,
)
    requires
        text::all_spaces(left),
        names.len() > 0,
        forall|j: int| 0 <= j < names.len() ==> !text::is_space(#[trigger] names[j]),
        names[0] != '#',
        !"|1|"@.is_prefix_of(names),
        rest.len() > 0 ==> text::is_space(rest[0]),
    ensures
        ({
            let line = left + names + rest;
            let pieces = text::split(names, CharClass::Comma);
            &&& 0 <= i < pieces.len() && pats.contains(pieces[i]) ==> !is_kept(line, pats)
            &&& (forall|j: int| 0 <= j < pieces.len() ==> !pats.contains(#[trigger] pieces[j]))
                ==> is_kept(line, pats)
        }),
{
    let raw = left + names + rest;
    let k = CharClass::Space;
    let n = names.len() as int;
    let bare = names + rest;
    assert(!text::is_space(names[0]) && !text::is_space(names[n - 1]));
    assert(left + bare =~= raw);
    lemma_spaces_in_front(left, bare);
    assert(bare[0] == names[0] && bare[n - 1] == names[n - 1]);
    lemma_trim_end_prefix(bare, k, n);
    let line = text::trim(raw, k);
    assert forall|j: int| 0 <= j < n implies !text::in_class(k, #[trigger] line[j]) by {
        assert(line[j] == names[j]);
    }
    if line.len() > n {
        assert(line[n] == rest[0]);
    }
    text::lemma_find_is(line, k, n);
    assert(line.take(n) =~= names);
    assert(line[0] == names[0]);
    reveal_strlit("|1|");
    if "|1|"@.is_prefix_of(line) {
        let m = "|1|"@;
        assert(m.len() == 3 && m[0] == '|' && m[1] == '1' && m[2] == '|');
        assert(line.subrange(0, 3) =~= m);
        assert(line[0] == m[0] && line[1] == m[1] && line[2] == m[2]);
        if n < 3 {
            assert(line[n] == m[n]);
            assert(text::is_space(line[n]));
        } else {
            assert(names.subrange(0, 3) =~= m);
        }
    }
}

proof fn lemma_spaces_in_front(left: Seq<char>, s: Seq<char>)
    requires
        text::all_spaces(left),
        s.len() > 0,
        !text::is_space(s[0]),
    ensures
        text::trim_start(left + s, CharClass::Space) == s,
    decreases left.len(),
{
    if left.len() > 0 {
        let rest = left.drop_first();
        assert(text::is_space(left[0]));
        assert forall|i: int| 0 <= i < rest.len() implies text::is_space(#[trigger] rest[i]) by {
            assert(rest[i] == left[i + 1]);
        }
        lemma_spaces_in_front(rest, s);
        assert((left + s).drop_first() =~= rest + s);
        assert((left + s)[0] == left[0]);
    } else {
        assert(left + s =~= s);
    }
}

/// Empty lines, comments and hashed names always stay.
pub proof fn law_comments_and_hashed_names_stay(
    blank: Seq<char>,
    rest: Seq<char>,
    pats: Seq<Seq<char>>,
)
    requires
        text::all_spaces(blank),
    ensures
        is_kept(blank, pats),
        is_kept(seq!['#'] + rest, pats),
        is_kept("|1|"@ + rest, pats),
{
    let k = CharClass::Space;
    text::law_only_spaces_trim_to_nothing(blank);
    let a = seq!['#'] + rest;
    assert(a[0] == '#');
    assert(text::trim_start(a, k) == a);
    lemma_trim_end_prefix(a, k, 1);
    reveal_strlit("|1|");
    let b = "|1|"@ + rest;
    assert(b[0] == '|' && b[1] == '1' && b[2] == '|');
    assert(text::trim_start(b, k) == b);
    lemma_trim_end_prefix(b, k, 3);
    let line = text::trim(b, k);
    assert(line.take(3) =~= "|1|"@);
    assert("|1|"@.is_prefix_of(line));
}

/// Lines are kept in their order, as often as they are there, and no other line
/// is.
pub proof fn law_kept_lines_keep_their_order(
    line: Seq<char>,
    rest: Seq<char>,
    pats: Seq<Seq<char>>,
)
    requires
        forall|i: int| 0 <= i < line.len() ==> #[trigger] line[i] != '\n',
        line.len() > 0 ==> line.last() != '\r',
    ensures
        kept_lines(Seq::empty(), pats).len() == 0,
        is_kept(line, pats) ==> kept_lines(line + seq!['\n'] + rest, pats) == seq![line]
            + kept_lines(rest, pats),
        !is_kept(line, pats) ==> kept_lines(line + seq!['\n'] + rest, pats) == kept_lines(
            rest,
            pats,
        ),
{
    let keep = |l: Seq<char>| is_kept(l, pats);
    text::law_lines_end_at_newlines(line, rest);
    Seq::filter_distributes_over_add(seq![line], text::lines(rest), keep);
    reveal(Seq::filter);
    let one = seq![line];
    let none = Seq::<Seq<char>>::empty();
    assert(one.drop_last() =~= none);
    assert(none.filter(keep) =~= none);
    assert(one.last() == line);
    assert(none.push(line) =~= one);
    assert(none + kept_lines(rest, pats) =~= kept_lines(rest, pats));
    assert(text::lines(Seq::empty()) =~= none);
}

/// The lines that are kept are written back one below the other, each with its
/// newline, and nothing is written where nothing is left.
pub proof fn law_kept_lines_are_written_back(ls: Seq<Seq<char>>)
    ensures
        ls.len() == 0 ==> file_text(ls).len() == 0,
        ls.len() == 1 && ls[0].len() == 0 ==> file_text(ls).len() == 0,
        ls.len() > 1 || (ls.len() == 1 && ls[0].len() > 0) ==> file_text(ls) == terminated(ls),
{
    if ls.len() > 0 {
        lemma_joined_terminated(ls);
    }
}

/// The tool reports each entry that it removed in a line of its own: those
/// lines are counted, and no others.
pub proof fn law_each_removed_entry_is_counted(ls: Seq<Seq<char>>, line: Seq<char>)
    ensures
        found_lines(Seq::empty()) == 0,
        text::occurs_in("found: line"@, line) ==> found_lines(ls.push(line)) == found_lines(ls) + 1,
        !text::occurs_in("found: line"@, line) ==> found_lines(ls.push(line)) == found_lines(ls),
{
    reveal(Seq::filter);
    assert(ls.push(line).drop_last() =~= ls);
}

/// What several runs of the tool removed adds up, and a run that did not come
/// about adds nothing.
pub proof fn law_removed_entries_add_up(outputs: Seq<Option<Vec<u8>>>, more: Vec<u8>)
    ensures
        total_found(Seq::empty()) == 0,
        total_found(outputs.push(None)) == total_found(outputs),
        total_found(outputs.push(Some(more))) == total_found(outputs) + found_lines(
            text::lines(text::shown(more@)),
        ),
{
    assert(outputs.push(None).drop_last() =~= outputs);
    assert(outputs.push(Some(more)).drop_last() =~= outputs);
}

/// A verdict stands for what it says.
pub proof fn law_a_verdict_stands_for_what_it_says(v: KeyVerdict<String>)
    ensures
        match v {
            KeyVerdict::Trusted => v@ == KeyVerdict::<Seq<char>>::Trusted,
            KeyVerdict::Store { name, notice } => v@ == (KeyVerdict::Store {
                name: name@,
                notice: notice@,
            }),
            KeyVerdict::Refused(e) => v@ == KeyVerdict::Refused(e@),
        },
{
}

} // verus!
