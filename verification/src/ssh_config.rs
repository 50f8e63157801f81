//! Importable hosts from an OpenSSH client configuration.

use vstd::prelude::*;
use vstd::slice::slice_subrange;
use crate::text;
use crate::text::CharClass;

verus! {

/// One importable entry, read from a `Host` block. Wildcard and negated
/// patterns and `Match` blocks are skipped; options of `Host *` are not
/// applied.
#[derive(Debug)]
pub struct SshConfigEntry {
    pub name: String,
    pub host: String,
    pub port: u16,
    pub username: String,
    pub identity_file: Option<String>,
}

/// What an `SshConfigEntry` holds.
pub struct EntryView {
    pub name: Seq<char>,
    pub host: Seq<char>,
    pub port: u16,
    pub username: Seq<char>,
    pub identity_file: Option<Seq<char>>,
}

impl View for SshConfigEntry {
    type V = EntryView;

    open spec fn view(&self) -> EntryView {
        EntryView {
            name: self.name@,
            host: self.host@,
            port: self.port,
            username: self.username@,
            identity_file: text::opt_text(self.identity_file),
        }
    }
}

impl Clone for SshConfigEntry {
    fn clone(&self) -> (r: Self)
        ensures
            r@ == self@,
    {
        SshConfigEntry {
            name: self.name.clone(),
            host: self.host.clone(),
            port: self.port,
            username: self.username.clone(),
            identity_file: text::copy_opt(&self.identity_file),
        }
    }
}

/// What a list of entries holds.
pub open spec fn entry_views(v: Seq<SshConfigEntry>) -> Seq<EntryView> {
    Seq::new(v.len(), |i: int| v[i]@)
}

/// What an optional entry holds.
pub open spec fn entry_view(e: Option<SshConfigEntry>) -> Option<EntryView> {
    match e {
        Some(x) => Some(x@),
        None => None,
    }
}

/// The keyword and the value of a trimmed line. The keyword ends at the first
/// space, tab or equals sign and is taken in lower case; the value loses the
/// white space and then the quotes around it.
pub open spec fn directive(line: Seq<char>) -> (Seq<char>, Seq<char>) {
    let i = text::find(line, CharClass::KeyBreak);
    let rest = if 0 <= i < line.len() {
        line.skip(i + 1)
    } else {
        Seq::empty()
    };
    (
        text::ascii_lowercase(line.take(i)),
        text::trim(text::trim(rest, CharClass::Space), CharClass::Quote),
    )
}

/// Whether the value of a `Host` keyword names one host: a single pattern
/// without wildcards or negation.
pub open spec fn names_one_host(value: Seq<char>) -> bool {
    &&& text::words(value).len() == 1
    &&& text::find(text::words(value)[0], CharClass::Wildcard) == text::words(value)[0].len()
}

/// What has been read: the finished blocks, the block being read, and whether
/// the lines up to the next block are passed over.
pub struct Reading {
    pub entries: Seq<EntryView>,
    pub cur: Option<EntryView>,
    pub skip: bool,
}

/// The entries after the block being read was finished.
pub open spec fn closed_entries(r: Reading) -> Seq<EntryView> {
    match r.cur {
        Some(e) => r.entries.push(e),
        None => r.entries,
    }
}

/// The block being read after one of its options.
pub open spec fn with_option(e: EntryView, keyword: Seq<char>, value: Seq<char>) -> EntryView {
    if keyword == "hostname"@ {
        if value.len() > 0 {
            EntryView { host: value, ..e }
        } else {
            e
        }
    } else if keyword == "port"@ {
        match text::u16_value(value) {
            Some(p) => EntryView { port: p, ..e },
            None => e,
        }
    } else if keyword == "user"@ {
        EntryView { username: value, ..e }
    } else if keyword == "identityfile"@ {
        if e.identity_file is None {
            EntryView { identity_file: Some(value), ..e }
        } else {
            e
        }
    } else {
        e
    }
}

/// The entry that a `Host` block starts with.
pub open spec fn fresh_entry(name: Seq<char>, user: Seq<char>) -> EntryView {
    EntryView { name, host: name, port: 22, username: user, identity_file: None }
}

/// What has been read after one more keyword and value.
pub open spec fn read_directive(
    r: Reading,
    keyword: Seq<char>,
    value: Seq<char>,
    user: Seq<char>,
) -> Reading {
    if keyword == "host"@ {
        if names_one_host(value) {
            Reading {
                entries: closed_entries(r),
                cur: Some(fresh_entry(text::words(value)[0], user)),
                skip: false,
            }
        } else {
            Reading { entries: closed_entries(r), cur: None, skip: true }
        }
    } else if keyword == "match"@ {
        Reading { entries: closed_entries(r), cur: None, skip: true }
    } else if r.skip {
        r
    } else {
        match r.cur {
            Some(e) => Reading { cur: Some(with_option(e, keyword, value)), ..r },
            None => r,
        }
    }
}

/// What has been read after one more line. Empty lines and comments say
/// nothing.
pub open spec fn read_line(r: Reading, raw: Seq<char>, user: Seq<char>) -> Reading {
    let line = text::trim(raw, CharClass::Space);
    if line.len() == 0 || line[0] == '#' {
        r
    } else {
        let (keyword, value) = directive(line);
        read_directive(r, keyword, value, user)
    }
}

/// What has been read before the first line.
pub open spec fn nothing_read() -> Reading {
    Reading { entries: Seq::empty(), cur: None, skip: false }
}

/// What has been read after the given lines.
pub open spec fn read_lines(lines: Seq<Seq<char>>, user: Seq<char>) -> Reading
    decreases lines.len(),
{
    if lines.len() == 0 {
        nothing_read()
    } else {
        read_line(read_lines(lines.drop_last(), user), lines.last(), user)
    }
}

/// The importable entries of a configuration.
pub open spec fn entries_of(config: Seq<char>, user: Seq<char>) -> Seq<EntryView> {
    closed_entries(read_lines(text::lines(config), user))
}

/// Splits a trimmed line into its keyword and its value.
pub fn split_directive<'a>(line: &'a [char]) -> (r: (Vec<char>, &'a [char]))
    ensures
        r.0@ == directive(line@).0,
        r.1@ == directive(line@).1,
{
    let i: usize = text::find_class(line, CharClass::KeyBreak);
    let keyword = text::to_ascii_lower(slice_subrange(line, 0, i));
    let rest: &'a [char] = if i < line.len() {
        slice_subrange(line, i + 1, line.len())
    } else {
        slice_subrange(line, 0, 0)
    };
    proof {
        assert(line@.subrange(0, i as int) =~= line@.take(i as int));
        assert(rest@ =~= if i < line@.len() {
            line@.skip(i + 1)
        } else {
            Seq::empty()
        });
    }
    let value = text::trim_class(text::trim_class(rest, CharClass::Space), CharClass::Quote);
    (keyword, value)
}

/// The one host that the value of a `Host` keyword names, if it does.
pub fn single_host<'a>(value: &'a [char]) -> (r: Option<&'a [char]>)
    ensures
        match r {
            Some(n) => names_one_host(value@) && n@ == text::words(value@)[0],
            None => !names_one_host(value@),
        },
{
    let pats = text::split_words(value);
    if pats.len() != 1 {
        return None;
    }
    let name = pats[0];
    assert(text::views(pats@)[0] == name@);
    if text::find_class(name, CharClass::Wildcard) < name.len() {
        proof {
            text::lemma_find(name@, CharClass::Wildcard);
        }
        return None;
    }
    Some(name)
}

fn apply_option(e: SshConfigEntry, keyword: &[char], value: &[char]) -> (r: SshConfigEntry)
    ensures
        r@ == with_option(e@, keyword@, value@),
{
    let mut e = e;
    if text::is_word(keyword, "hostname") {
        if value.len() > 0 {
            e.host = text::string_of(value);
        }
    } else if text::is_word(keyword, "port") {
        if let Some(p) = text::parse_u16(value) {
            e.port = p;
        }
    } else if text::is_word(keyword, "user") {
        e.username = text::string_of(value);
    } else if text::is_word(keyword, "identityfile") {
        if e.identity_file.is_none() {
            e.identity_file = Some(text::string_of(value));
        }
    }
    e
}

/// The importable entries of a configuration; none where it could not be
/// read. `default_user` is the user name of an entry that gives none.
pub fn parse_ssh_config(config: Option<&str>, default_user: &str) -> (r: Vec<SshConfigEntry>)
    ensures
        entry_views(r@) == match config {
            Some(c) => entries_of(c@, default_user@),
            None => Seq::<EntryView>::empty(),
        },
{
    let mut entries: Vec<SshConfigEntry> = Vec::new();
    let config: &str = match config {
        Some(c) => c,
        None => {
            assert(entry_views(entries@) =~= Seq::<EntryView>::empty());
            return entries;
        },
    };
    let chars = text::chars_of(config);
    let all = text::split_lines(chars.as_slice());
    let ghost lines = text::lines(config@);
    let mut cur: Option<SshConfigEntry> = None;
    let mut skip: bool = false;
    let mut i: usize = 0;
    proof {
        assert(entry_views(entries@) =~= Seq::<EntryView>::empty());
        assert(lines.take(0) =~= Seq::<Seq<char>>::empty());
    }
    while i < all.len()
        invariant
            i <= all@.len(),
            lines == text::views(all@),
            (Reading { entries: entry_views(entries@), cur: entry_view(cur), skip }) == read_lines(
                lines.take(i as int),
                default_user@,
            ),
        decreases all@.len() - i,
    {
        let ghost before = Reading { entries: entry_views(entries@), cur: entry_view(cur), skip };
        let ghost es = entries@;
        proof {
            assert(lines.take(i + 1).drop_last() == lines.take(i as int));
            assert(lines.take(i + 1).last() == all@[i as int]@);
        }
        let line = text::trim_class(all[i], CharClass::Space);
        i += 1;
        if line.len() == 0 || line[0] == '#' {
            continue ;
        }
        let (keyword, value) = split_directive(line);
        if text::is_word(keyword.as_slice(), "host") {
            if let Some(e) = cur {
                entries.push(e);
                assert(entry_views(entries@) =~= entry_views(es).push(e@));
            }
            match single_host(value) {
                Some(name) => {
                    cur = Some(
                        SshConfigEntry {
                            name: text::string_of(name),
                            host: text::string_of(name),
                            port: 22,
                            username: default_user.to_owned(),
                            identity_file: None,
                        },
                    );
                    skip = false;
                },
                None => {
                    cur = None;
                    skip = true;
                },
            }
        } else if text::is_word(keyword.as_slice(), "match") {
            if let Some(e) = cur {
                entries.push(e);
                assert(entry_views(entries@) =~= entry_views(es).push(e@));
            }
            cur = None;
            skip = true;
        } else if !skip {
            cur = match cur {
                Some(e) => Some(apply_option(e, keyword.as_slice(), value)),
                None => None,
            };
        }
    }
    assert(lines.take(i as int) == lines);
    let ghost es = entries@;
    if let Some(e) = cur {
        entries.push(e);
        assert(entry_views(entries@) =~= entry_views(es).push(e@));
    }
    entries
}

/// Whether every entry is named by a single word without wildcards.
pub open spec fn well_named(e: EntryView) -> bool {
    &&& e.name.len() > 0
    &&& text::find(e.name, CharClass::Wildcard) == e.name.len()
    &&& text::find(e.name, CharClass::Space) == e.name.len()
}

proof fn lemma_split_pieces(s: Seq<char>, k: CharClass, j: int)
    requires
        0 <= j < text::split(s, k).len(),
    ensures
        text::find(text::split(s, k)[j], k) == text::split(s, k)[j].len(),
    decreases s.len(),
{
    let i = text::find(s, k);
    text::lemma_find(s, k);
    if i < s.len() {
        if j == 0 {
            assert forall|m: int| 0 <= m < i implies !text::in_class(k, #[trigger] s.take(i)[m]) by {
                assert(s.take(i)[m] == s[m]);
            }
            text::lemma_find_is(s.take(i), k, i);
        } else {
            lemma_split_pieces(s.skip(i + 1), k, j - 1);
            assert(text::split(s, k)[j] == text::split(s.skip(i + 1), k)[j - 1]);
        }
    }
}

proof fn lemma_words(s: Seq<char>, j: int)
    requires
        0 <= j < text::words(s).len(),
    ensures
        text::words(s)[j].len() > 0,
        text::find(text::words(s)[j], CharClass::Space) == text::words(s)[j].len(),
{
    let pieces = text::split(s, CharClass::Space);
    let keep = |w: Seq<char>| w.len() > 0;
    pieces.lemma_filter_pred(keep, j);
    assert(keep(pieces.filter(keep)[j]));
    lemma_filter_member(pieces, keep, j);
    let i = choose|i: int| 0 <= i < pieces.len() && pieces[i] == pieces.filter(keep)[j];
    lemma_split_pieces(s, CharClass::Space, i);
}

proof fn lemma_filter_member(s: Seq<Seq<char>>, keep: spec_fn(Seq<char>) -> bool, j: int)
    requires
        0 <= j < s.filter(keep).len(),
    ensures
        exists|i: int| 0 <= i < s.len() && #[trigger] s[i] == s.filter(keep)[j],
    decreases s.len(),
{
    reveal(Seq::filter);
    let init = s.drop_last();
    if j < init.filter(keep).len() {
        lemma_filter_member(init, keep, j);
        let i = choose|i: int| 0 <= i < init.len() && #[trigger] init[i] == init.filter(keep)[j];
        assert(s[i] == init[i]);
    } else {
        assert(s[s.len() - 1] == s.filter(keep)[j]);
    }
}

proof fn lemma_reading_well_named(lines: Seq<Seq<char>>, user: Seq<char>)
    ensures
        read_lines(lines, user).cur matches Some(e) ==> well_named(e),
        forall|i: int|
            0 <= i < read_lines(lines, user).entries.len() ==> well_named(
                #[trigger] read_lines(lines, user).entries[i],
            ),
    decreases lines.len(),
{
    if lines.len() > 0 {
        lemma_reading_well_named(lines.drop_last(), user);
        let line = text::trim(lines.last(), CharClass::Space);
        let (keyword, value) = directive(line);
        if names_one_host(value) {
            lemma_words(value, 0);
        }
    }
}

/// Wildcards and negated patterns are never imported: every entry is named by
/// one word without them.
pub proof fn law_entries_are_well_named(config: Seq<char>, user: Seq<char>, i: int)
    requires
        0 <= i < entries_of(config, user).len(),
    ensures
        well_named(entries_of(config, user)[i]),
{
    lemma_reading_well_named(text::lines(config), user);
}

/// `Key value` and `Key=value` mean the same, and so does a tab between them.
pub proof fn law_separators_mean_the_same(
    keyword: Seq<char>,
    a: char,
    b: char,
    rest: Seq<char>,
)
    requires
        text::find(keyword, CharClass::KeyBreak) == keyword.len(),
        text::in_class(CharClass::KeyBreak, a),
        text::in_class(CharClass::KeyBreak, b),
    ensures
        directive(keyword + seq![a] + rest) == directive(keyword + seq![b] + rest),
{
    lemma_directive_of(keyword, a, rest);
    lemma_directive_of(keyword, b, rest);
}

proof fn lemma_directive_of(keyword: Seq<char>, sep: char, rest: Seq<char>)
    requires
        text::find(keyword, CharClass::KeyBreak) == keyword.len(),
        text::in_class(CharClass::KeyBreak, sep),
    ensures
        directive(keyword + seq![sep] + rest) == (
            text::ascii_lowercase(keyword),
            text::trim(text::trim(rest, CharClass::Space), CharClass::Quote),
        ),
{
    let k = CharClass::KeyBreak;
    let line = keyword + seq![sep] + rest;
    text::lemma_find(keyword, k);
    assert forall|j: int| 0 <= j < keyword.len() implies !text::in_class(k, #[trigger] line[j]) by {
        assert(line[j] == keyword[j]);
    }
    text::lemma_find_is(line, k, keyword.len() as int);
    assert(line.take(keyword.len() as int) =~= keyword);
    assert(line.skip(keyword.len() as int + 1) =~= rest);
}

/// Inside a skipped block no option changes what has been read.
pub proof fn law_skipped_blocks_say_nothing(
    r: Reading,
    keyword: Seq<char>,
    value: Seq<char>,
    user: Seq<char>,
)
    requires
        r.skip,
        keyword != "host"@,
        keyword != "match"@,
    ensures
        read_directive(r, keyword, value, user) == r,
{
}

/// The first `IdentityFile` of a block is the one that counts.
pub proof fn law_the_first_identity_file_counts(e: EntryView, first: Seq<char>, second: Seq<char>)
    requires
        e.identity_file is None,
    ensures
        with_option(with_option(e, "identityfile"@, first), "identityfile"@, second).identity_file
            == Some(first),
{
    reveal_strlit("identityfile");
    reveal_strlit("hostname");
    reveal_strlit("port");
    reveal_strlit("user");
    assert("identityfile"@.len() != "hostname"@.len());
    assert("identityfile"@.len() != "port"@.len());
    assert("identityfile"@.len() != "user"@.len());
}

/// Whether a line begins a block.
pub open spec fn begins_block(raw: Seq<char>) -> bool {
    let line = text::trim(raw, CharClass::Space);
    line.len() > 0 && line[0] != '#' && (directive(line).0 == "host"@ || directive(line).0
        == "match"@)
}

/// Blocks stand for themselves: what comes before a line that begins a block
/// has no say in the entries behind it, nor the other way round.
pub proof fn law_blocks_are_independent(
    before: Seq<Seq<char>>,
    block: Seq<Seq<char>>,
    user: Seq<char>,
)
    requires
        block.len() > 0,
        begins_block(block[0]),
    ensures
        closed_entries(read_lines(before + block, user)) == closed_entries(
            read_lines(before, user),
        ) + closed_entries(read_lines(block, user)),
{
    lemma_blocks(before, block, user);
    let (a, b) = (closed_entries(read_lines(before, user)), read_lines(block, user));
    assert(closed_entries(read_lines(before + block, user)) =~= a + closed_entries(b));
}

proof fn lemma_blocks(before: Seq<Seq<char>>, block: Seq<Seq<char>>, user: Seq<char>)
    requires
        block.len() > 0,
        begins_block(block[0]),
    ensures
        read_lines(before + block, user) == (Reading {
            entries: closed_entries(read_lines(before, user)) + read_lines(block, user).entries,
            ..read_lines(block, user)
        }),
    decreases block.len(),
{
    let all = before + block;
    let a = closed_entries(read_lines(before, user));
    assert(all.drop_last() =~= before + block.drop_last());
    assert(all.last() == block.last());
    if block.len() == 1 {
        assert(block.drop_last() =~= Seq::<Seq<char>>::empty());
        assert(all.drop_last() =~= before);
        assert(read_lines(block.drop_last(), user) == nothing_read());
        assert(closed_entries(nothing_read()) =~= Seq::<EntryView>::empty());
        assert(a + Seq::<EntryView>::empty() =~= a);
    } else {
        lemma_blocks(before, block.drop_last(), user);
        let r = read_lines(block.drop_last(), user);
        let whole = Reading { entries: a + r.entries, ..r };
        assert(closed_entries(whole) =~= a + closed_entries(r));
        assert(read_line(whole, block.last(), user).entries =~= a + read_line(
            r,
            block.last(),
            user,
        ).entries);
    }
}

/// Each option sets its own field and no other: `hostname` the address, if a
/// value is given; `port` the port, if the value is one; `user` the user; and
/// `identityfile` the key, if none was named before. Any other keyword changes
/// nothing.
pub proof fn law_each_option_sets_its_own_field(e: EntryView, keyword: Seq<char>, value: Seq<char>)
    ensures
        keyword != "hostname"@ && keyword != "port"@ && keyword != "user"@ && keyword
            != "identityfile"@ ==> with_option(e, keyword, value) == e,
        value.len() > 0 ==> with_option(e, "hostname"@, value) == (EntryView { host: value, ..e }),
        value.len() == 0 ==> with_option(e, "hostname"@, value) == e,
        with_option(e, "user"@, value) == (EntryView { username: value, ..e }),
        e.identity_file is None ==> with_option(e, "identityfile"@, value) == (EntryView {
            identity_file: Some(value),
            ..e
        }),
        e.identity_file is Some ==> with_option(e, "identityfile"@, value) == e,
{
    lemma_keywords_differ();
}

/// A port in decimal digits becomes the entry's port; anything that is not such
/// a number leaves the entry as it was.
pub proof fn law_a_port_is_a_number(e: EntryView, port: u16, value: Seq<char>)
    ensures
        with_option(e, "port"@, text::dec(port as nat)) == (EntryView { port, ..e }),
        text::u16_value(value) == Some(port) ==> with_option(e, "port"@, value) == (EntryView {
            port,
            ..e
        }),
        value.len() == 0 || !text::all_digits(text::after_plus(value)) || text::dec_value(
            text::after_plus(value),
        ) > 65535 ==> with_option(e, "port"@, value) == e,
{
    lemma_keywords_differ();
    text::law_a_written_port_is_read(port);
}

proof fn lemma_keywords_differ()
    ensures
        "hostname"@ != "port"@,
        "hostname"@ != "user"@,
        "hostname"@ != "identityfile"@,
        "port"@ != "user"@,
        "port"@ != "identityfile"@,
        "user"@ != "identityfile"@,
        "host"@ != "match"@,
        "host"@ != "hostname"@,
        "host"@ != "port"@,
        "host"@ != "user"@,
        "host"@ != "identityfile"@,
        "match"@ != "hostname"@,
        "match"@ != "port"@,
        "match"@ != "user"@,
        "match"@ != "identityfile"@,
{
    reveal_strlit("hostname");
    reveal_strlit("port");
    reveal_strlit("user");
    reveal_strlit("identityfile");
    reveal_strlit("host");
    reveal_strlit("match");
    assert("hostname"@.len() == 8 && "identityfile"@.len() == 12 && "match"@.len() == 5);
    assert("port"@.len() == 4 && "user"@.len() == 4 && "host"@.len() == 4);
    assert("port"@[0] == 'p' && "user"@[0] == 'u' && "host"@[0] == 'h');
}

/// A line is a keyword, in any letter case, and a value behind the first break,
/// without the spaces and the quotes round it.
pub proof fn law_a_line_is_a_keyword_and_a_value(
    keyword: Seq<char>,
    sep: char,
    left: Seq<char>,
    value: Seq<char>,
    right: Seq<char>,
)
    requires
        forall|i: int|
            0 <= i < keyword.len() ==> !text::in_class(CharClass::KeyBreak, #[trigger] keyword[i]),
        sep == ' ' || sep == '\t' || sep == '=',
        forall|i: int| 0 <= i < left.len() ==> text::is_space(#[trigger] left[i]),
        forall|i: int| 0 <= i < right.len() ==> text::is_space(#[trigger] right[i]),
        value.len() > 0 ==> {
            &&& !text::is_space(value[0])
            &&& !text::is_space(value.last())
            &&& value[0] != '"' && value[0] != '\''
            &&& value.last() != '"' && value.last() != '\''
        },
    ensures
        directive(keyword + seq![sep] + (left + value + right)) == (
            text::ascii_lowercase(keyword),
            value,
        ),
        directive(keyword + seq![sep] + (left + (seq!['"'] + value + seq!['"']) + right)) == (
            text::ascii_lowercase(keyword),
            value,
        ),
        directive(keyword) == (text::ascii_lowercase(keyword), Seq::<char>::empty()),
{
    let (sp, qu, kb) = (CharClass::Space, CharClass::Quote, CharClass::KeyBreak);
    let n = keyword.len() as int;
    text::lemma_find_is(keyword, kb, n);
    assert(keyword.take(n) =~= keyword);
    let none = Seq::<char>::empty();
    assert(none + none + none =~= none);
    text::law_trimming_takes_only_the_ends(none, none, none, sp);
    text::law_trimming_takes_only_the_ends(none, none, none, qu);
    lemma_directive_of(keyword, sep, left + value + right);
    text::law_trimming_takes_only_the_ends(left, value, right, sp);
    assert(none + value + none =~= value);
    text::law_trimming_takes_only_the_ends(none, value, none, qu);
    let q = seq!['"'];
    let quoted = q + value + q;
    lemma_directive_of(keyword, sep, left + quoted + right);
    assert(quoted[0] == '"' && quoted.last() == '"');
    text::law_trimming_takes_only_the_ends(left, quoted, right, sp);
    text::law_trimming_takes_only_the_ends(q, value, q, qu);
}

/// A line for one host begins an entry of that name, with the name as its
/// address, the usual port, the user that was given and no key; what was read
/// before is kept.
pub proof fn law_a_host_line_begins_an_entry(r: Reading, name: Seq<char>, user: Seq<char>)
    requires
        name.len() > 0,
        forall|i: int|
            0 <= i < name.len() ==> !text::is_space(#[trigger] name[i]) && name[i] != '*' && name[i]
                != '?' && name[i] != '!',
    ensures
        read_directive(r, "host"@, name, user) == (Reading {
            entries: closed_entries(r),
            cur: Some(
                EntryView { name, host: name, port: 22, username: user, identity_file: None },
            ),
            skip: false,
        }),
        closed_entries(r) == match r.cur {
            Some(e) => r.entries.push(e),
            None => r.entries,
        },
{
    let none = Seq::<char>::empty();
    text::law_words_stand_between_spaces(name, ' ', none);
    assert forall|i: int| 0 <= i < name.len() implies !text::in_class(
        CharClass::Wildcard,
        #[trigger] name[i],
    ) by {}
    text::lemma_find_is(name, CharClass::Wildcard, name.len() as int);
    lemma_keywords_differ();
}

/// A line for several hosts, for a pattern or for none, and a `match`, begin a
/// block that is skipped; what was read before is kept.
pub proof fn law_patterns_begin_no_entry(
    r: Reading,
    value: Seq<char>,
    user: Seq<char>,
    i: int,
)
    ensures
        read_directive(r, "match"@, value, user) == (Reading {
            entries: closed_entries(r),
            cur: None,
            skip: true,
        }),
        text::words(value).len() != 1 ==> read_directive(r, "host"@, value, user) == (Reading {
            entries: closed_entries(r),
            cur: None,
            skip: true,
        }),
        text::words(value).len() == 1 && 0 <= i < text::words(value)[0].len() && {
            let c = text::words(value)[0][i];
            c == '*' || c == '?' || c == '!'
        } ==> read_directive(r, "host"@, value, user) == (Reading {
            entries: closed_entries(r),
            cur: None,
            skip: true,
        }),
{
    lemma_keywords_differ();
    if text::words(value).len() == 1 {
        let w = text::words(value)[0];
        text::lemma_find(w, CharClass::Wildcard);
        if 0 <= i < w.len() && text::find(w, CharClass::Wildcard) == w.len() {
            assert(!text::in_class(CharClass::Wildcard, w[i]));
        }
    }
}

/// Inside an entry an option goes to that entry and to no other; outside of
/// one it says nothing. Comments and empty lines never do.
pub proof fn law_an_option_goes_to_its_entry(
    r: Reading,
    keyword: Seq<char>,
    value: Seq<char>,
    user: Seq<char>,
    e: EntryView,
    comment: Seq<char>,
    blank: Seq<char>,
)
    requires
        keyword != "host"@,
        keyword != "match"@,
        comment.len() > 0 && comment[0] == '#',
        text::all_spaces(blank),
    ensures
        r.cur is None ==> read_directive(r, keyword, value, user) == r,
        !r.skip && r.cur == Some(e) ==> read_directive(r, keyword, value, user) == (Reading {
            cur: Some(with_option(e, keyword, value)),
            ..r
        }),
        read_line(r, comment, user) == r,
        read_line(r, blank, user) == r,
{
    text::law_only_spaces_trim_to_nothing(blank);
    let k = CharClass::Space;
    assert(!text::in_class(k, comment[0]));
    assert(text::trim_start(comment, k) == comment);
    lemma_trim_end_keeps(comment, k);
}

proof fn lemma_trim_end_keeps(s: Seq<char>, k: CharClass)
    requires
        s.len() > 0,
        !text::in_class(k, s[0]),
    ensures
        text::trim_end(s, k).len() > 0,
        text::trim_end(s, k)[0] == s[0],
    decreases s.len(),
{
    if text::in_class(k, s.last()) {
        assert(s.len() > 1);
        lemma_trim_end_keeps(s.drop_last(), k);
    }
}

/// Nothing is read of a file without lines; and what stands in a file are the
/// entries that were closed, and the one that is still open at its end.
pub proof fn law_the_last_entry_counts(config: Seq<char>, user: Seq<char>)
    ensures
        entries_of(Seq::empty(), user).len() == 0,
        ({
            let r = read_lines(text::lines(config), user);
            &&& r.cur is None ==> entries_of(config, user) == r.entries
            &&& r.cur is Some ==> entries_of(config, user) == r.entries.push(r.cur->Some_0)
        }),
{
    assert(text::lines(Seq::empty()) =~= Seq::empty());
}

/// Lines are read in turn. One that is neither empty nor a comment is taken by
/// its keyword and its value, whatever spaces stand round it.
pub proof fn law_lines_are_read_in_turn(
    lines: Seq<Seq<char>>,
    left: Seq<char>,
    line: Seq<char>,
    right: Seq<char>,
    user: Seq<char>,
)
    requires
        text::all_spaces(left),
        text::all_spaces(right),
        line.len() > 0,
        line[0] != '#',
        !text::is_space(line[0]),
        !text::is_space(line.last()),
    ensures
        ({
            let r = read_lines(lines, user);
            let (keyword, value) = directive(line);
            &&& read_line(r, left + line + right, user) == read_directive(r, keyword, value, user)
            &&& read_lines(lines.push(left + line + right), user) == read_directive(
                r,
                keyword,
                value,
                user,
            )
            &&& read_lines(Seq::empty(), user).cur is None
            &&& read_lines(Seq::empty(), user).entries.len() == 0
        }),
{
    let sp = CharClass::Space;
    assert forall|i: int| 0 <= i < left.len() implies text::in_class(sp, #[trigger] left[i]) by {
        assert(text::is_space(left[i]));
    }
    assert forall|i: int| 0 <= i < right.len() implies text::in_class(sp, #[trigger] right[i]) by {
        assert(text::is_space(right[i]));
    }
    text::law_trimming_takes_only_the_ends(left, line, right, sp);
    assert(lines.push(left + line + right).drop_last() =~= lines);
}

/// An entry stands for all of its fields, and a list for its entries.
pub proof fn law_an_entry_stands_for_its_fields(
    e: SshConfigEntry,
    v: Seq<SshConfigEntry>,
    i: int,
)
    ensures
        e@.name == e.name@,
        e@.host == e.host@,
        e@.port == e.port,
        e@.username == e.username@,
        e@.identity_file == text::opt_text(e.identity_file),
        entry_views(v).len() == v.len(),
        0 <= i < v.len() ==> entry_views(v)[i] == v[i]@,
{
}

} // verus!
