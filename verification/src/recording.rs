//! Recordings of a session's output.

use vstd::prelude::*;
use crate::ssh::LogSpec;
use crate::text;

verus! {

/// How a character stands inside a JSON string: a quotation mark, a backslash
/// and the control characters before the space are escaped, and nothing else.
pub open spec fn json_char(c: char) -> Seq<char> {
    if c == '"' {
        seq!['\\', '"']
    } else if c == '\\' {
        seq!['\\', '\\']
    } else if c == '\u{8}' {
        seq!['\\', 'b']
    } else if c == '\t' {
        seq!['\\', 't']
    } else if c == '\n' {
        seq!['\\', 'n']
    } else if c == '\u{c}' {
        seq!['\\', 'f']
    } else if c == '\r' {
        seq!['\\', 'r']
    } else if ' ' > c {
        seq![
            '\\',
            'u',
            '0',
            '0',
            text::digit((c as int / 16) as nat),
            text::digit((c as int % 16) as nat),
        ]
    } else {
        seq![c]
    }
}

/// How a text stands inside a JSON string.
pub open spec fn json_chars(s: Seq<char>) -> Seq<char>
    decreases s.len(),
{
    if s.len() == 0 {
        Seq::empty()
    } else {
        json_chars(s.drop_last()) + json_char(s.last())
    }
}

/// A text as a JSON string.
pub open spec fn json_text(s: Seq<char>) -> Seq<char> {
    seq!['"'] + json_chars(s) + seq!['"']
}

/// The text that `serde_json::Value` displays for a string: the string between
/// quotation marks, each of its characters escaped where JSON asks for it. The
/// two-character escapes are used where there is one, and lower case digits
/// otherwise.
#[verifier::external_body]
fn json_string(s: &str) -> (r: String)
    ensures
        r@ == json_text(s@),
{
    serde_json::Value::String(s.to_owned()).to_string()
}

/// The first line of an asciinema v2 file.
pub open spec fn header_text(cols: u32, rows: u32, seconds: u64) -> Seq<char> {
    "{\"env\":{\"TERM\":\"xterm-256color\"},\"height\":"@ + text::dec(rows as nat)
        + ",\"timestamp\":"@ + text::dec(seconds as nat) + ",\"version\":2,\"width\":"@
        + text::dec(cols as nat) + "}\n"@
}

/// What a recording begins with: a header for an asciinema v2 file, and
/// nothing for a raw one. `seconds` is the time of day.
pub fn recording_start(spec: &LogSpec, seconds: u64) -> (r: Option<String>)
    ensures
        match r {
            Some(h) => spec.cast && h@ == header_text(spec.cols, spec.rows, seconds),
            None => !spec.cast,
        },
{
    if !spec.cast {
        return None;
    }
    let mut out: String = "{\"env\":{\"TERM\":\"xterm-256color\"},\"height\":".to_owned();
    out.append(text::decimal(spec.rows as u64).as_str());
    out.append(",\"timestamp\":");
    out.append(text::decimal(seconds).as_str());
    out.append(",\"version\":2,\"width\":");
    out.append(text::decimal(spec.cols as u64).as_str());
    out.append("}\n");
    Some(out)
}

/// A line of an asciinema v2 file: when output came, in seconds, and what it
/// was, as the JSON text that it is written as.
pub open spec fn event_text(elapsed: Seq<char>, shown: Seq<char>) -> Seq<char> {
    "["@ + elapsed + ",\"o\","@ + shown + "]\n"@
}

/// Puts a line of an asciinema v2 file together.
pub fn event_line(elapsed: &str, shown: &str) -> (r: String)
    ensures
        r@ == event_text(elapsed@, shown@),
{
    let mut out: String = "[".to_owned();
    out.append(elapsed);
    out.append(",\"o\",");
    out.append(shown);
    out.append("]\n");
    out
}

/// The line of an asciinema v2 file for output that came `elapsed` seconds
/// after the start. Bytes that are not text show as U+FFFD.
pub fn cast_event(elapsed: &str, data: &[u8]) -> (r: String)
    ensures
        r@ == event_text(elapsed@, json_text(text::shown(data@))),
{
    let shown = text::show(data);
    let json = json_string(shown.as_str());
    event_line(elapsed, json.as_str())
}

// ---------- laws ----------

proof fn lemma_json_char(c: char)
    ensures
        forall|i: int| 0 <= i < json_char(c).len() ==> #[trigger] json_char(c)[i] >= ' ',
{
    let n = c as int;
    assert(0 <= n < 32 ==> text::digit((n / 16) as nat) >= ' ' && text::digit((n % 16) as nat)
        >= ' ');
}

proof fn lemma_json_is_printable(s: Seq<char>)
    ensures
        forall|i: int| 0 <= i < json_chars(s).len() ==> #[trigger] json_chars(s)[i] >= ' ',
    decreases s.len(),
{
    if s.len() > 0 {
        let (init, c) = (json_chars(s.drop_last()), json_char(s.last()));
        lemma_json_is_printable(s.drop_last());
        lemma_json_char(s.last());
        assert forall|i: int| 0 <= i < json_chars(s).len() implies #[trigger] json_chars(s)[i]
            >= ' ' by {
            if i >= init.len() {
                assert(json_chars(s)[i] == c[i - init.len()]);
            } else {
                assert(json_chars(s)[i] == init[i]);
            }
        }
    }
}

/// Whatever the output of a session is, its line in an asciinema v2 file is
/// one line: nothing below the space stands in it but the line feed at its
/// end.
pub proof fn law_an_event_is_one_line(elapsed: Seq<char>, shown: Seq<char>, i: int)
    requires
        forall|k: int| 0 <= k < elapsed.len() ==> #[trigger] elapsed[k] >= ' ',
        0 <= i < event_text(elapsed, json_text(shown)).len(),
    ensures
        ({
            let line = event_text(elapsed, json_text(shown));
            if i == line.len() - 1 {
                line[i] == '\n'
            } else {
                line[i] >= ' '
            }
        }),
{
    lemma_json_is_printable(shown);
    reveal_strlit("[");
    reveal_strlit(",\"o\",");
    reveal_strlit("]\n");
}

/// Texts are written one character after the other: what can be shown stands
/// for itself, a quote or a backslash has a backslash before it, and control
/// characters have their usual letters or four hexadecimal digits.
pub proof fn law_json_text_is_written_by_character(s: Seq<char>, c: char)
    ensures
        json_chars(Seq::empty()).len() == 0,
        json_chars(s.push(c)) == json_chars(s) + json_char(c),
        ' ' <= c && c != '"' && c != '\\' ==> json_char(c) == seq![c],
        c == '"' || c == '\\' ==> json_char(c) == seq!['\\', c],
        c == '\n' ==> json_char(c) == seq!['\\', 'n'],
        c == '\r' ==> json_char(c) == seq!['\\', 'r'],
        c == '\t' ==> json_char(c) == seq!['\\', 't'],
        c == '\u{8}' ==> json_char(c) == seq!['\\', 'b'],
        c == '\u{c}' ==> json_char(c) == seq!['\\', 'f'],
        ' ' > c && c != '\n' && c != '\r' && c != '\t' && c != '\u{8}' && c != '\u{c}'
            ==> json_char(c) == seq![
            '\\',
            'u',
            '0',
            '0',
            text::digit((c as int / 16) as nat),
            text::digit((c as int % 16) as nat),
        ],
{
    assert(s.push(c).drop_last() =~= s);
}

/// A text without quotes, backslashes and control characters is written as it
/// is, between quotes.
pub proof fn law_plain_text_is_quoted_as_it_is(s: Seq<char>)
    requires
        forall|i: int|
            0 <= i < s.len() ==> ' ' <= #[trigger] s[i] && s[i] != '"' && s[i] != '\\',
    ensures
        json_text(s) == seq!['"'] + s + seq!['"'],
{
    lemma_plain(s);
}

proof fn lemma_plain(s: Seq<char>)
    requires
        forall|i: int|
            0 <= i < s.len() ==> ' ' <= #[trigger] s[i] && s[i] != '"' && s[i] != '\\',
    ensures
        json_chars(s) == s,
    decreases s.len(),
{
    if s.len() > 0 {
        let c = s[s.len() - 1];
        assert(' ' <= c && c != '"' && c != '\\');
        lemma_plain(s.drop_last());
        law_json_text_is_written_by_character(s.drop_last(), c);
        assert(s.drop_last().push(c) =~= s);
        assert(s.drop_last() + seq![c] =~= s);
    }
}

/// A recording says how large the terminal is, columns as its width and rows as
/// its height, and when it began; an event says when what was shown.
pub proof fn law_a_recording_says_size_and_time(
    cols: u32,
    rows: u32,
    seconds: u64,
    elapsed: Seq<char>,
    shown: Seq<char>,
)
    ensures
        header_text(cols, rows, seconds)
            == "{\"env\":{\"TERM\":\"xterm-256color\"},\"height\":"@ + text::dec(rows as nat)
            + ",\"timestamp\":"@ + text::dec(seconds as nat) + ",\"version\":2,\"width\":"@
            + text::dec(cols as nat) + "}\n"@,
        event_text(elapsed, shown) == "["@ + elapsed + ",\"o\","@ + shown + "]\n"@,
{
}

} // verus!
