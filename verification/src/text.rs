//! Characters, lines, words and numbers.
//!
//! Strings are modelled as sequences of characters. The functions here work
//! on slices of characters, so that a piece of a text is found without
//! copying it, and every one of them is tied to a spec function of the same
//! meaning.

use vstd::prelude::*;
use vstd::slice::slice_subrange;

verus! {

/// `String::push`: the character goes to the end, and nothing else changes.
pub assume_specification[ String::push ](s: &mut String, c: char)
    ensures
        final(s)@ == old(s)@.push(c),
;

/// What `String::from_utf8_lossy` makes of a run of bytes.
pub uninterp spec fn utf8_lossy(bytes: Seq<u8>) -> Seq<char>;

/// What `{:?}` makes of a string: quoted, with special characters escaped.
pub uninterp spec fn quoted(s: Seq<char>) -> Seq<char>;

/// What `str::to_lowercase` makes of a string.
pub uninterp spec fn lowercase(s: Seq<char>) -> Seq<char>;

/// `String::from_utf8_lossy`: decodes bytes, with U+FFFD in place of what is
/// not UTF-8. The result is a function of the bytes, and on valid UTF-8 it is
/// the decoded text.
#[verifier::external_body]
pub(crate) fn decode_lossy(bytes: &[u8]) -> (r: String)
    ensures
        r@ == utf8_lossy(bytes@),
        vstd::utf8::valid_utf8(bytes@) ==> r@ == vstd::utf8::decode_utf8(bytes@),
{
    String::from_utf8_lossy(bytes).into_owned()
}

/// The bytes of a text.
pub open spec fn utf8(s: Seq<char>) -> Seq<u8> {
    vstd::utf8::encode_utf8(s)
}

/// A run of bytes as text: what it encodes, or what is made of it where it
/// encodes no text.
pub open spec fn shown(bytes: Seq<u8>) -> Seq<char> {
    if vstd::utf8::valid_utf8(bytes) {
        vstd::utf8::decode_utf8(bytes)
    } else {
        utf8_lossy(bytes)
    }
}

/// A run of bytes as text, with U+FFFD in place of what is not UTF-8.
pub fn show(bytes: &[u8]) -> (r: String)
    ensures
        r@ == shown(bytes@),
{
    decode_lossy(bytes)
}

/// The bytes of a text.
pub fn bytes_of(s: &str) -> (r: Vec<u8>)
    ensures
        r@ == utf8(s@),
{
    copy_bytes(s.as_bytes())
}

/// A text that was turned into bytes shows as it is.
pub proof fn law_text_shows_as_it_is(s: Seq<char>)
    ensures
        shown(utf8(s)) == s,
{
    vstd::utf8::encode_utf8_valid_utf8(s);
    vstd::utf8::encode_utf8_decode_utf8(s);
}

/// The `{:?}` form of a string, a function of the string alone.
#[verifier::external_body]
pub(crate) fn quote(s: &str) -> (r: String)
    ensures
        r@ == quoted(s@),
{
    format!("{:?}", s)
}

/// `str::to_lowercase`: the Unicode lowercase of a string, a function of the
/// string alone.
#[verifier::external_body]
pub(crate) fn to_lower(s: &str) -> (r: String)
    ensures
        r@ == lowercase(s@),
{
    s.to_lowercase()
}

/// The sets of characters that texts are cut at.
#[derive(Clone, Copy)]
pub enum CharClass {
    /// Unicode white space.
    Space,
    /// Single and double quotes.
    Quote,
    /// What may stand between a keyword and its value.
    KeyBreak,
    /// The characters of a host pattern: `*`, `?` and `!`.
    Wildcard,
    Comma,
    Colon,
    Newline,
}

/// Whether `c` has the Unicode property White_Space.
pub open spec fn is_space(c: char) -> bool {
    let u = c as u32;
    ||| 0x09 <= u <= 0x0d
    ||| u == 0x20
    ||| u == 0x85
    ||| u == 0xa0
    ||| u == 0x1680
    ||| 0x2000 <= u <= 0x200a
    ||| u == 0x2028
    ||| u == 0x2029
    ||| u == 0x202f
    ||| u == 0x205f
    ||| u == 0x3000
}

/// Whether `c` belongs to the class `k`.
pub open spec fn in_class(k: CharClass, c: char) -> bool {
    match k {
        CharClass::Space => is_space(c),
        CharClass::Quote => c == '"' || c == '\'',
        CharClass::KeyBreak => c == ' ' || c == '\t' || c == '=',
        CharClass::Wildcard => c == '*' || c == '?' || c == '!',
        CharClass::Comma => c == ',',
        CharClass::Colon => c == ':',
        CharClass::Newline => c == '\n',
    }
}

/// Whether a character is Unicode white space.
pub fn is_whitespace(c: char) -> (r: bool)
    ensures
        r == is_space(c),
{
    let u: u32 = c as u32;
    (0x09 <= u && u <= 0x0d) || u == 0x20 || u == 0x85 || u == 0xa0 || u == 0x1680 || (0x2000 <= u
        && u <= 0x200a) || u == 0x2028 || u == 0x2029 || u == 0x202f || u == 0x205f || u == 0x3000
}

/// Whether a character belongs to a class.
pub fn belongs(k: CharClass, c: char) -> (r: bool)
    ensures
        r == in_class(k, c),
{
    match k {
        CharClass::Space => is_whitespace(c),
        CharClass::Quote => c == '"' || c == '\'',
        CharClass::KeyBreak => c == ' ' || c == '\t' || c == '=',
        CharClass::Wildcard => c == '*' || c == '?' || c == '!',
        CharClass::Comma => c == ',',
        CharClass::Colon => c == ':',
        CharClass::Newline => c == '\n',
    }
}

/// The characters of a string, in order.
pub fn chars_of(s: &str) -> (r: Vec<char>)
    ensures
        r@ == s@,
{
    let mut out: Vec<char> = Vec::new();
    for c in it: s.chars()
        invariant
            out@ == s@.take(it.index() as int),
            it.seq() == s@,
    {
        out.push(c);
    }
    out
}

/// The string with the given characters.
pub fn string_of(chars: &[char]) -> (r: String)
    ensures
        r@ == chars@,
{
    let mut out: String = String::new();
    let mut i: usize = 0;
    while i < chars.len()
        invariant
            i <= chars@.len(),
            out@ == chars@.take(i as int),
        decreases chars@.len() - i,
    {
        out.push(chars[i]);
        i += 1;
    }
    assert(chars@.take(i as int) == chars@);
    out
}

/// Whether two strings hold the same characters.
pub fn same(a: &str, b: &str) -> (r: bool)
    ensures
        r == (a@ == b@),
{
    let x = a.as_bytes();
    let y = b.as_bytes();
    proof {
        vstd::utf8::encode_utf8_decode_utf8(a@);
        vstd::utf8::encode_utf8_decode_utf8(b@);
    }
    same_bytes(x, y)
}

/// Whether two runs of bytes are equal.
pub fn same_bytes(x: &[u8], y: &[u8]) -> (r: bool)
    ensures
        r == (x@ == y@),
{
    if x.len() != y.len() {
        return false;
    }
    let mut i: usize = 0;
    while i < x.len()
        invariant
            i <= x@.len() == y@.len(),
            forall|j: int| 0 <= j < i ==> x@[j] == y@[j],
        decreases x@.len() - i,
    {
        if x[i] != y[i] {
            return false;
        }
        i += 1;
    }
    assert(x@ =~= y@);
    true
}

/// Whether two runs of characters are equal.
pub fn same_chars(x: &[char], y: &[char]) -> (r: bool)
    ensures
        r == (x@ == y@),
{
    if x.len() != y.len() {
        return false;
    }
    let mut i: usize = 0;
    while i < x.len()
        invariant
            i <= x@.len() == y@.len(),
            forall|j: int| 0 <= j < i ==> x@[j] == y@[j],
        decreases x@.len() - i,
    {
        if x[i] != y[i] {
            return false;
        }
        i += 1;
    }
    assert(x@ =~= y@);
    true
}

/// Whether the characters are those of a string.
pub fn is_word(x: &[char], w: &str) -> (r: bool)
    ensures
        r == (x@ == w@),
{
    let y = chars_of(w);
    same_chars(x, y.as_slice())
}

/// Whether a text starts with a given string.
pub fn starts_with(s: &[char], prefix: &str) -> (r: bool)
    ensures
        r == prefix@.is_prefix_of(s@),
{
    let p = chars_of(prefix);
    if p.len() > s.len() {
        return false;
    }
    let r = same_chars(slice_subrange(s, 0, p.len()), p.as_slice());
    r
}

/// Whether a text ends with a given string.
pub fn ends_with(s: &[char], suffix: &str) -> (r: bool)
    ensures
        r == suffix@.is_suffix_of(s@),
{
    let p = chars_of(suffix);
    if p.len() > s.len() {
        return false;
    }
    let r = same_chars(slice_subrange(s, s.len() - p.len(), s.len()), p.as_slice());
    r
}

/// Whether `needle` occurs in `s`.
pub open spec fn occurs_in(needle: Seq<char>, s: Seq<char>) -> bool {
    exists|i: int|
        0 <= i <= s.len() - needle.len() && #[trigger] s.subrange(i, i + needle.len()) == needle
}

/// Whether a string occurs in a text.
pub fn contains_text(s: &[char], needle: &str) -> (r: bool)
    ensures
        r == occurs_in(needle@, s@),
{
    let p = chars_of(needle);
    if p.len() > s.len() {
        return false;
    }
    let last: usize = s.len() - p.len();
    let mut i: usize = 0;
    while i < last && !same_chars(slice_subrange(s, i, i + p.len()), p.as_slice())
        invariant
            p@ == needle@,
            last == s@.len() - p@.len(),
            last + p@.len() <= usize::MAX,
            i <= last,
            forall|j: int| 0 <= j < i ==> #[trigger] s@.subrange(j, j + p@.len()) != p@,
        decreases last - i,
    {
        i += 1;
    }
    same_chars(slice_subrange(s, i, i + p.len()), p.as_slice())
}

/// The place of the first character of the class `k`, or the length of `s`.
pub open spec fn find(s: Seq<char>, k: CharClass) -> int
    decreases s.len(),
{
    if s.len() == 0 {
        0
    } else if in_class(k, s[0]) {
        0
    } else {
        1 + find(s.drop_first(), k)
    }
}

/// `find` gives the one place before which no character of the class stands,
/// and at which one does or the text ends.
pub proof fn lemma_find(s: Seq<char>, k: CharClass)
    ensures
        0 <= find(s, k) <= s.len(),
        forall|j: int| 0 <= j < find(s, k) ==> !in_class(k, #[trigger] s[j]),
        find(s, k) < s.len() ==> in_class(k, s[find(s, k)]),
    decreases s.len(),
{
    if s.len() > 0 && !in_class(k, s[0]) {
        lemma_find(s.drop_first(), k);
        assert forall|j: int| 0 <= j < find(s, k) implies !in_class(k, #[trigger] s[j]) by {
            if j > 0 {
                assert(s[j] == s.drop_first()[j - 1]);
            }
        }
    }
}

/// The place that `lemma_find` describes is the only one.
pub proof fn lemma_find_is(s: Seq<char>, k: CharClass, i: int)
    requires
        0 <= i <= s.len(),
        forall|j: int| 0 <= j < i ==> !in_class(k, #[trigger] s[j]),
        i < s.len() ==> in_class(k, s[i]),
    ensures
        find(s, k) == i,
{
    lemma_find(s, k);
    let f = find(s, k);
    if f < i {
        assert(!in_class(k, s[f]));
    } else if i < f {
        assert(!in_class(k, s[i]));
    }
}

/// Finds the first character of a class.
pub fn find_class(s: &[char], k: CharClass) -> (r: usize)
    ensures
        r == find(s@, k),
        r <= s@.len(),
{
    let mut i: usize = 0;
    while i < s.len() && !belongs(k, s[i])
        invariant
            i <= s@.len(),
            forall|j: int| 0 <= j < i ==> !in_class(k, #[trigger] s@[j]),
        decreases s@.len() - i,
    {
        i += 1;
    }
    proof {
        lemma_find_is(s@, k, i as int);
    }
    i
}

/// The pieces of a text between the characters of a class: always at least
/// one, and some may be empty.
pub open spec fn split(s: Seq<char>, k: CharClass) -> Seq<Seq<char>>
    decreases s.len(),
{
    let i = find(s, k);
    if i < 0 || i >= s.len() {
        seq![s]
    } else {
        seq![s.take(i)] + split(s.skip(i + 1), k)
    }
}

/// The texts that a list of slices shows.
pub open spec fn views(v: Seq<&[char]>) -> Seq<Seq<char>> {
    Seq::new(v.len(), |i: int| v[i]@)
}

/// Cuts a text at every character of a class.
pub fn split_at_class<'a>(s: &'a [char], k: CharClass) -> (r: Vec<&'a [char]>)
    ensures
        views(r@) == split(s@, k),
        r@.len() >= 1,
{
    let mut out: Vec<&'a [char]> = Vec::new();
    let mut start: usize = 0;
    let mut i: usize = 0;
    assert(s@.skip(0) == s@);
    assert(views(out@) + split(s@.skip(0), k) == split(s@, k));
    while i < s.len()
        invariant
            start <= i <= s@.len(),
            forall|j: int| start <= j < i ==> !in_class(k, #[trigger] s@[j]),
            views(out@) + split(s@.skip(start as int), k) == split(s@, k),
        decreases s@.len() - i,
    {
        if belongs(k, s[i]) {
            let ghost rest = s@.skip(start as int);
            let ghost before = out@;
            proof {
                lemma_find_is(rest, k, i - start);
                assert(rest.skip(i - start + 1) == s@.skip(i + 1));
                assert(rest.take(i - start) == s@.subrange(start as int, i as int));
            }
            let piece = slice_subrange(s, start, i);
            out.push(piece);
            assert(views(out@) == views(before).push(piece@));
            assert(views(out@) + split(s@.skip(i + 1), k) == views(before) + (seq![piece@]
                + split(s@.skip(i + 1), k)));
            start = i + 1;
        }
        i += 1;
    }
    let ghost rest = s@.skip(start as int);
    let ghost before = out@;
    proof {
        lemma_find_is(rest, k, i - start);
        assert(rest == s@.subrange(start as int, i as int));
    }
    let piece = slice_subrange(s, start, i);
    out.push(piece);
    assert(views(out@) == views(before).push(piece@));
    assert(views(out@) == views(before) + seq![piece@]);
    out
}

/// The words of a text: the longest pieces without white space.
pub open spec fn words(s: Seq<char>) -> Seq<Seq<char>> {
    split(s, CharClass::Space).filter(|w: Seq<char>| w.len() > 0)
}

/// Cuts a text into words.
pub fn split_words<'a>(s: &'a [char]) -> (r: Vec<&'a [char]>)
    ensures
        views(r@) == words(s@),
{
    let pieces = split_at_class(s, CharClass::Space);
    nonempty(&pieces)
}

/// The pieces that hold at least one character, in order.
pub fn nonempty<'a>(pieces: &Vec<&'a [char]>) -> (r: Vec<&'a [char]>)
    ensures
        views(r@) == views(pieces@).filter(|w: Seq<char>| w.len() > 0),
{
    let ghost keep = |w: Seq<char>| w.len() > 0;
    let ghost all = views(pieces@);
    let mut out: Vec<&'a [char]> = Vec::new();
    let mut i: usize = 0;
    proof {
        reveal(Seq::filter);
        assert(views(out@) == all.take(0).filter(keep));
    }
    while i < pieces.len()
        invariant
            i <= pieces@.len(),
            all == views(pieces@),
            keep == (|w: Seq<char>| w.len() > 0),
            views(out@) == all.take(i as int).filter(keep),
        decreases pieces@.len() - i,
    {
        let ghost before = out@;
        proof {
            reveal(Seq::filter);
            assert(all.take(i + 1).drop_last() == all.take(i as int));
            assert(all.take(i + 1).last() == pieces@[i as int]@);
        }
        if pieces[i].len() > 0 {
            out.push(pieces[i]);
            assert(views(out@) == views(before).push(pieces@[i as int]@));
        }
        i += 1;
    }
    assert(all.take(i as int) == all);
    out
}

/// A line without the carriage return that belonged to its line ending.
pub open spec fn chop_cr(s: Seq<char>) -> Seq<char> {
    if s.len() > 0 && s.last() == '\r' {
        s.drop_last()
    } else {
        s
    }
}

/// The lines of a text. A line ends with `\n` or `\r\n`, and the ending of the
/// last one is optional.
pub open spec fn lines(s: Seq<char>) -> Seq<Seq<char>>
    decreases s.len(),
{
    let i = find(s, CharClass::Newline);
    if s.len() == 0 {
        seq![]
    } else if i < 0 || i >= s.len() {
        seq![s]
    } else {
        seq![chop_cr(s.take(i))] + lines(s.skip(i + 1))
    }
}

/// Cuts a text into lines.
pub fn split_lines<'a>(s: &'a [char]) -> (r: Vec<&'a [char]>)
    ensures
        views(r@) == lines(s@),
{
    let mut out: Vec<&'a [char]> = Vec::new();
    let mut start: usize = 0;
    let mut i: usize = 0;
    assert(s@.skip(0) == s@);
    assert(views(out@) + lines(s@.skip(0)) == lines(s@));
    while i < s.len()
        invariant
            start <= i <= s@.len(),
            forall|j: int| start <= j < i ==> !in_class(CharClass::Newline, #[trigger] s@[j]),
            views(out@) + lines(s@.skip(start as int)) == lines(s@),
        decreases s@.len() - i,
    {
        if belongs(CharClass::Newline, s[i]) {
            let ghost rest = s@.skip(start as int);
            let ghost before = out@;
            proof {
                lemma_find_is(rest, CharClass::Newline, i - start);
                assert(rest.skip(i - start + 1) == s@.skip(i + 1));
                assert(rest.take(i - start) == s@.subrange(start as int, i as int));
            }
            let end: usize = if i > start && s[i - 1] == '\r' {
                i - 1
            } else {
                i
            };
            let piece = slice_subrange(s, start, end);
            out.push(piece);
            proof {
                assert(piece@ == chop_cr(s@.subrange(start as int, i as int)));
                assert(views(out@) == views(before).push(piece@));
                assert(views(out@) + lines(s@.skip(i + 1)) == views(before) + (seq![piece@] + lines(
                    s@.skip(i + 1),
                )));
            }
            start = i + 1;
        }
        i += 1;
    }
    let ghost rest = s@.skip(start as int);
    if start < i {
        let ghost before = out@;
        proof {
            lemma_find_is(rest, CharClass::Newline, i - start);
            assert(rest == s@.subrange(start as int, i as int));
        }
        let piece = slice_subrange(s, start, i);
        out.push(piece);
        assert(views(out@) == views(before).push(piece@));
        assert(views(out@) == views(before) + seq![piece@]);
    } else {
        assert(rest.len() == 0);
        assert(views(out@) + lines(rest) == views(out@));
    }
    out
}

/// A text without the leading characters of a class.
pub open spec fn trim_start(s: Seq<char>, k: CharClass) -> Seq<char>
    decreases s.len(),
{
    if s.len() > 0 && in_class(k, s[0]) {
        trim_start(s.drop_first(), k)
    } else {
        s
    }
}

/// A text without the trailing characters of a class.
pub open spec fn trim_end(s: Seq<char>, k: CharClass) -> Seq<char>
    decreases s.len(),
{
    if s.len() > 0 && in_class(k, s.last()) {
        trim_end(s.drop_last(), k)
    } else {
        s
    }
}

/// A text without the leading and trailing characters of a class.
pub open spec fn trim(s: Seq<char>, k: CharClass) -> Seq<char> {
    trim_end(trim_start(s, k), k)
}

proof fn lemma_trim_start_is(s: Seq<char>, k: CharClass, lo: int)
    requires
        0 <= lo <= s.len(),
        forall|j: int| 0 <= j < lo ==> in_class(k, #[trigger] s[j]),
        lo < s.len() ==> !in_class(k, s[lo]),
    ensures
        trim_start(s, k) == s.skip(lo),
    decreases s.len(),
{
    if lo > 0 {
        lemma_trim_start_is(s.drop_first(), k, lo - 1);
        assert(s.drop_first().skip(lo - 1) == s.skip(lo));
    } else {
        assert(s.skip(0) == s);
    }
}

proof fn lemma_trim_end_is(s: Seq<char>, k: CharClass, hi: int)
    requires
        0 <= hi <= s.len(),
        forall|j: int| hi <= j < s.len() ==> in_class(k, #[trigger] s[j]),
        hi > 0 ==> !in_class(k, s[hi - 1]),
    ensures
        trim_end(s, k) == s.take(hi),
    decreases s.len(),
{
    if hi < s.len() {
        lemma_trim_end_is(s.drop_last(), k, hi);
        assert(s.drop_last().take(hi) == s.take(hi));
    } else {
        assert(s.take(hi) == s);
    }
}

/// Cuts the characters of a class off both ends of a text.
pub fn trim_class<'a>(s: &'a [char], k: CharClass) -> (r: &'a [char])
    ensures
        r@ == trim(s@, k),
{
    let mut lo: usize = 0;
    while lo < s.len() && belongs(k, s[lo])
        invariant
            lo <= s@.len(),
            forall|j: int| 0 <= j < lo ==> in_class(k, #[trigger] s@[j]),
        decreases s@.len() - lo,
    {
        lo += 1;
    }
    let mut hi: usize = s.len();
    while hi > lo && belongs(k, s[hi - 1])
        invariant
            lo <= hi <= s@.len(),
            forall|j: int| hi <= j < s@.len() ==> in_class(k, #[trigger] s@[j]),
        decreases hi,
    {
        hi -= 1;
    }
    proof {
        lemma_trim_start_is(s@, k, lo as int);
        lemma_trim_end_is(s@.skip(lo as int), k, hi - lo);
        assert(s@.skip(lo as int).take(hi - lo) == s@.subrange(lo as int, hi as int));
    }
    slice_subrange(s, lo, hi)
}

/// A character with `A` to `Z` in lower case.
pub open spec fn ascii_lower(c: char) -> char {
    if 'A' <= c && c <= 'Z' {
        ((c as u32) + 32) as char
    } else {
        c
    }
}

/// A text with `A` to `Z` in lower case.
pub open spec fn ascii_lowercase(s: Seq<char>) -> Seq<char> {
    Seq::new(s.len(), |i: int| ascii_lower(s[i]))
}

/// Puts `A` to `Z` in lower case.
pub fn to_ascii_lower(s: &[char]) -> (r: Vec<char>)
    ensures
        r@ == ascii_lowercase(s@),
{
    let mut out: Vec<char> = Vec::new();
    let mut i: usize = 0;
    while i < s.len()
        invariant
            i <= s@.len(),
            out@ == ascii_lowercase(s@.take(i as int)),
        decreases s@.len() - i,
    {
        let c = s[i];
        if 'A' <= c && c <= 'Z' {
            out.push((c as u8 + 32) as char);
        } else {
            out.push(c);
        }
        assert(out@ == ascii_lowercase(s@.take(i + 1)));
        i += 1;
    }
    assert(s@.take(i as int) == s@);
    out
}

/// The digit of value `d`, `0` to `9` and then `a` to `f`.
pub open spec fn digit(d: nat) -> char {
    if d < 10 {
        (0x30 + d) as char
    } else {
        (0x57 + d) as char
    }
}

/// The digits of `n` in a base from 2 to 16, without leading zeros.
pub open spec fn digits(n: nat, base: nat) -> Seq<char>
    decreases n,
{
    if base < 2 || n < base {
        seq![digit(n)]
    } else {
        proof {
            assert(n / base < n) by (nonlinear_arith)
                requires
                    base >= 2,
                    n >= base,
            ;
        }
        digits(n / base, base).push(digit(n % base))
    }
}

/// `n` in decimal.
pub open spec fn dec(n: nat) -> Seq<char> {
    digits(n, 10)
}

/// `n` in lower case hexadecimal.
pub open spec fn hex(n: nat) -> Seq<char> {
    digits(n, 16)
}

/// `n` in hexadecimal with at least four digits.
pub open spec fn hex4(n: nat) -> Seq<char> {
    let h = hex(n);
    if h.len() >= 4 {
        h
    } else {
        Seq::new((4 - h.len()) as nat, |i: int| '0') + h
    }
}

fn digit_char(d: u8) -> (c: char)
    requires
        d < 16,
    ensures
        c == digit(d as nat),
{
    if d < 10 {
        (0x30 + d) as char
    } else {
        (0x57 + d) as char
    }
}

/// Appends `n` in a base from 2 to 16.
pub fn push_digits(out: &mut String, n: u128, base: u128)
    requires
        2 <= base <= 16,
    ensures
        final(out)@ == old(out)@ + digits(n as nat, base as nat),
    decreases n,
{
    if n < base {
        out.push(digit_char(n as u8));
        assert(out@ == old(out)@ + seq![digit(n as nat)]);
    } else {
        let q: u128 = n / base;
        let d: u128 = n % base;
        proof {
            assert(q < n) by (nonlinear_arith)
                requires
                    q == n / base,
                    base >= 2,
                    n >= base,
            ;
            assert(d < base) by (nonlinear_arith)
                requires
                    d == n % base,
                    base >= 2,
            ;
        }
        push_digits(out, q, base);
        let ghost mid = out@;
        out.push(digit_char(d as u8));
        assert(out@ == old(out)@ + digits(q as nat, base as nat).push(digit(d as nat)));
    }
}

/// A number in decimal.
pub fn decimal(n: u64) -> (r: String)
    ensures
        r@ == dec(n as nat),
{
    let mut out: String = String::new();
    push_digits(&mut out, n as u128, 10);
    assert(out@ == dec(n as nat));
    out
}

/// A number in lower case hexadecimal.
pub fn hexadecimal(n: u128) -> (r: String)
    ensures
        r@ == hex(n as nat),
{
    let mut out: String = String::new();
    push_digits(&mut out, n, 16);
    assert(out@ == hex(n as nat));
    out
}

/// A number in hexadecimal, padded with zeros to four digits.
pub fn hexadecimal4(n: u16) -> (r: String)
    ensures
        r@ == hex4(n as nat),
{
    let h = hexadecimal(n as u128);
    let len: usize = h.as_str().unicode_len();
    let mut out: String = String::new();
    let mut k: usize = len;
    while k < 4
        invariant
            len <= k,
            len >= 4 ==> out@.len() == 0,
            len < 4 ==> k <= 4,
            len < 4 ==> out@ == Seq::new((k - len) as nat, |i: int| '0'),
        decreases 4 - k,
    {
        out.push('0');
        k += 1;
        assert(len < 4 ==> out@ == Seq::new((k - len) as nat, |i: int| '0'));
    }
    out.append(h.as_str());
    assert(out@ == hex4(n as nat));
    out
}

/// Whether `c` is one of `0` to `9`.
pub open spec fn is_digit(c: char) -> bool {
    '0' <= c && c <= '9'
}

/// Whether a text is made of decimal digits.
pub open spec fn all_digits(s: Seq<char>) -> bool {
    forall|i: int| 0 <= i < s.len() ==> is_digit(#[trigger] s[i])
}

/// The number that a text of decimal digits writes.
pub open spec fn dec_value(s: Seq<char>) -> nat
    decreases s.len(),
{
    if s.len() == 0 {
        0
    } else {
        dec_value(s.drop_last()) * 10 + (s.last() as u32 - 0x30) as nat
    }
}

/// The digits of a number: a text after an optional plus sign.
pub open spec fn after_plus(s: Seq<char>) -> Seq<char> {
    if s.len() > 0 && s[0] == '+' {
        s.drop_first()
    } else {
        s
    }
}

/// A 16-bit number read from a text: an optional plus sign, then at least one
/// decimal digit, and a value that fits.
pub open spec fn u16_value(s: Seq<char>) -> Option<u16> {
    let body = after_plus(s);
    if body.len() > 0 && all_digits(body) && dec_value(body) <= 0xffff {
        Some(dec_value(body) as u16)
    } else {
        None
    }
}

/// Reads a 16-bit number.
pub fn parse_u16(s: &[char]) -> (r: Option<u16>)
    ensures
        r == u16_value(s@),
{
    let body: &[char] = if s.len() > 0 && s[0] == '+' {
        slice_subrange(s, 1, s.len())
    } else {
        s
    };
    assert(body@ == after_plus(s@));
    if body.len() == 0 {
        return None;
    }
    let mut acc: u32 = 0;
    let mut i: usize = 0;
    while i < body.len()
        invariant
            body@ == after_plus(s@),
            i <= body@.len(),
            forall|j: int| 0 <= j < i ==> is_digit(#[trigger] body@[j]),
            acc <= 0x10000,
            acc < 0x10000 ==> acc == dec_value(body@.take(i as int)),
            acc == 0x10000 ==> dec_value(body@.take(i as int)) > 0xffff,
        decreases body@.len() - i,
    {
        let c = body[i];
        if !('0' <= c && c <= '9') {
            assert(!is_digit(body@[i as int]));
            return None;
        }
        let d: u32 = c as u32 - 0x30;
        assert(body@.take(i + 1).drop_last() == body@.take(i as int));
        let next: u32 = acc * 10 + d;
        acc = if next > 0xffff {
            0x10000
        } else {
            next
        };
        i += 1;
    }
    assert(body@.take(i as int) == body@);
    if acc > 0xffff {
        None
    } else {
        Some(acc as u16)
    }
}

/// The leading decimal digits of a text.
pub open spec fn leading_digits(s: Seq<char>) -> Seq<char>
    decreases s.len(),
{
    if s.len() > 0 && is_digit(s[0]) {
        seq![s[0]] + leading_digits(s.drop_first())
    } else {
        seq![]
    }
}

proof fn lemma_leading_digits_is(s: Seq<char>, n: int)
    requires
        0 <= n <= s.len(),
        forall|j: int| 0 <= j < n ==> is_digit(#[trigger] s[j]),
        n < s.len() ==> !is_digit(s[n]),
    ensures
        leading_digits(s) == s.take(n),
    decreases n,
{
    if n > 0 {
        lemma_leading_digits_is(s.drop_first(), n - 1);
        assert(s.take(n) == seq![s[0]] + s.drop_first().take(n - 1));
    } else {
        assert(s.take(0) == Seq::<char>::empty());
    }
}

/// The decimal digits that a text starts with.
pub fn take_digits<'a>(s: &'a [char]) -> (r: &'a [char])
    ensures
        r@ == leading_digits(s@),
        all_digits(r@),
{
    let mut n: usize = 0;
    while n < s.len() && '0' <= s[n] && s[n] <= '9'
        invariant
            n <= s@.len(),
            forall|j: int| 0 <= j < n ==> is_digit(#[trigger] s@[j]),
        decreases s@.len() - n,
    {
        n += 1;
    }
    proof {
        lemma_leading_digits_is(s@, n as int);
    }
    slice_subrange(s, 0, n)
}

/// A copy of a run of bytes.
pub fn copy_bytes(s: &[u8]) -> (r: Vec<u8>)
    ensures
        r@ == s@,
{
    vstd::slice::slice_to_vec(s)
}

/// Appends a run of bytes.
pub fn push_bytes(out: &mut Vec<u8>, s: &[u8])
    ensures
        final(out)@ == old(out)@ + s@,
{
    let mut i: usize = 0;
    while i < s.len()
        invariant
            i <= s@.len(),
            out@ == old(out)@ + s@.take(i as int),
        decreases s@.len() - i,
    {
        out.push(s[i]);
        assert(out@ == old(out)@ + s@.take(i + 1));
        i += 1;
    }
    assert(s@.take(i as int) == s@);
}

/// A copy of an optional string.
pub fn copy_opt(s: &Option<String>) -> (r: Option<String>)
    ensures
        opt_text(r) == opt_text(*s),
{
    match s {
        Some(x) => Some(x.clone()),
        None => None,
    }
}

/// The text of an optional string.
pub open spec fn opt_text(s: Option<String>) -> Option<Seq<char>> {
    match s {
        Some(x) => Some(x@),
        None => None,
    }
}

/// The bytes of an optional run of bytes.
pub open spec fn opt_bytes(b: Option<Vec<u8>>) -> Option<Seq<u8>> {
    match b {
        Some(x) => Some(x@),
        None => None,
    }
}

/// The runs of bytes in a list.
pub open spec fn runs(v: Seq<Vec<u8>>) -> Seq<Seq<u8>> {
    Seq::new(v.len(), |i: int| v[i]@)
}

/// The texts of a list of strings.
pub open spec fn texts(v: Seq<String>) -> Seq<Seq<char>> {
    Seq::new(v.len(), |i: int| v[i]@)
}

/// A copy of a list of strings.
pub fn copy_strings(v: &Vec<String>) -> (r: Vec<String>)
    ensures
        texts(r@) == texts(v@),
{
    let mut out: Vec<String> = Vec::new();
    let mut i: usize = 0;
    while i < v.len()
        invariant
            i <= v@.len(),
            texts(out@) == texts(v@).take(i as int),
        decreases v@.len() - i,
    {
        let ghost before = out@;
        out.push(v[i].clone());
        assert(texts(out@) == texts(before).push(v@[i as int]@));
        assert(texts(v@).take(i + 1) == texts(v@).take(i as int).push(v@[i as int]@));
        i += 1;
    }
    assert(texts(out@) == texts(v@));
    out
}

/// What an operation came to, with its error as text.
pub open spec fn result_text(r: Result<(), String>) -> Result<(), Seq<char>> {
    match r {
        Ok(_) => Ok(()),
        Err(e) => Err(e@),
    }
}

/// Two numbers with the same digits are equal.
pub proof fn lemma_digits_injective(m: nat, n: nat, base: nat)
    requires
        2 <= base <= 16,
        digits(m, base) == digits(n, base),
    ensures
        m == n,
    decreases m,
{
    lemma_digits_nonempty(m, base);
    lemma_digits_nonempty(n, base);
    if m < base && n < base {
        assert(digits(m, base)[0] == digit(m));
        assert(digits(n, base)[0] == digit(n));
    } else if m < base {
        lemma_digits_nonempty(n / base, base);
        assert(digits(n, base).len() >= 2);
    } else if n < base {
        lemma_digits_nonempty(m / base, base);
        assert(digits(m, base).len() >= 2);
    } else {
        let a = digits(m / base, base);
        let b = digits(n / base, base);
        assert(digits(m, base).drop_last() == a);
        assert(digits(n, base).drop_last() == b);
        assert(digits(m, base).last() == digit(m % base));
        assert(digits(n, base).last() == digit(n % base));
        assert(m / base < m) by (nonlinear_arith)
            requires
                base >= 2,
                m >= base,
        ;
        assert(m % base < base && n % base < base) by (nonlinear_arith)
            requires
                base >= 2,
        ;
        lemma_digits_injective(m / base, n / base, base);
        assert(m == base * (m / base) + m % base) by (nonlinear_arith)
            requires
                base >= 2,
        ;
        assert(n == base * (n / base) + n % base) by (nonlinear_arith)
            requires
                base >= 2,
        ;
    }
}

proof fn lemma_digits_nonempty(n: nat, base: nat)
    ensures
        digits(n, base).len() >= 1,
{
}

// ---------- laws ----------

/// Whether a text holds nothing but spaces.
pub open spec fn all_spaces(s: Seq<char>) -> bool {
    forall|i: int| 0 <= i < s.len() ==> is_space(#[trigger] s[i])
}

/// Trimming leaves nothing exactly of a text of spaces.
pub proof fn law_only_spaces_trim_to_nothing(s: Seq<char>)
    ensures
        trim(s, CharClass::Space).len() == 0 <==> all_spaces(s),
{
    lemma_trim_start(s, CharClass::Space);
    lemma_trim_end(trim_start(s, CharClass::Space), CharClass::Space);
    let t = trim_start(s, CharClass::Space);
    let n = s.len() - t.len();
    if t.len() > 0 {
        assert(t[0] == s[n]);
        assert(trim_end(t, CharClass::Space).len() > 0) by {
            if trim_end(t, CharClass::Space).len() == 0 {
                assert(in_class(CharClass::Space, t[0]));
            }
        }
    } else {
        assert forall|i: int| 0 <= i < s.len() implies is_space(#[trigger] s[i]) by {
            assert(in_class(CharClass::Space, s[i]));
        }
    }
}

proof fn lemma_trim_start(s: Seq<char>, k: CharClass)
    ensures
        trim_start(s, k).len() <= s.len(),
        trim_start(s, k) == s.skip(s.len() - trim_start(s, k).len()),
        forall|i: int|
            0 <= i < s.len() - trim_start(s, k).len() ==> in_class(k, #[trigger] s[i]),
        trim_start(s, k).len() > 0 ==> !in_class(k, trim_start(s, k)[0]),
    decreases s.len(),
{
    if s.len() > 0 && in_class(k, s[0]) {
        let r = s.drop_first();
        lemma_trim_start(r, k);
        let n = r.len() - trim_start(r, k).len();
        assert(r.skip(n) =~= s.skip(n + 1));
        assert forall|i: int| 0 <= i < n + 1 implies in_class(k, #[trigger] s[i]) by {
            if i > 0 {
                assert(s[i] == r[i - 1]);
            }
        }
    } else {
        assert(s.skip(0) =~= s);
    }
}

proof fn lemma_trim_end(s: Seq<char>, k: CharClass)
    ensures
        trim_end(s, k).len() <= s.len(),
        trim_end(s, k) == s.take(trim_end(s, k).len() as int),
        forall|i: int|
            trim_end(s, k).len() <= i < s.len() ==> in_class(k, #[trigger] s[i]),
        trim_end(s, k).len() > 0 ==> !in_class(k, trim_end(s, k).last()),
    decreases s.len(),
{
    if s.len() > 0 && in_class(k, s.last()) {
        let r = s.drop_last();
        lemma_trim_end(r, k);
        let n = trim_end(r, k).len() as int;
        assert(r.take(n) =~= s.take(n));
        assert forall|i: int| n <= i < s.len() implies in_class(k, #[trigger] s[i]) by {
            if i < r.len() {
                assert(s[i] == r[i]);
            }
        }
    } else {
        assert(s.take(s.len() as int) =~= s);
    }
}

/// Trimming takes what belongs to the class off both ends, and nothing else.
pub proof fn law_trimming_takes_only_the_ends(
    left: Seq<char>,
    s: Seq<char>,
    right: Seq<char>,
    k: CharClass,
)
    requires
        forall|i: int| 0 <= i < left.len() ==> in_class(k, #[trigger] left[i]),
        forall|i: int| 0 <= i < right.len() ==> in_class(k, #[trigger] right[i]),
        s.len() > 0 ==> !in_class(k, s[0]) && !in_class(k, s.last()),
    ensures
        trim(left + s + right, k) == s,
{
    let all = left + s + right;
    lemma_trim_start(all, k);
    let t = trim_start(all, k);
    let n = all.len() - t.len();
    lemma_trim_end(t, k);
    let r = trim_end(t, k);
    if s.len() > 0 {
        if n > left.len() {
            assert(in_class(k, all[left.len() as int]));
            assert(all[left.len() as int] == s[0]);
        }
        if n < left.len() {
            assert(t[0] == all[n]);
            assert(all[n] == left[n]);
        }
        assert(n == left.len());
        let last = s.len() - 1;
        assert(t[last] == s[last]);
        if r.len() <= last {
            assert(in_class(k, t[last]));
        }
        if r.len() > s.len() {
            assert(r.last() == t[r.len() - 1]);
            assert(t[r.len() - 1] == right[r.len() - 1 - s.len()]);
        }
        assert(r =~= s);
    } else {
        if t.len() > 0 {
            assert(t[0] == all[n]);
            if n < left.len() {
                assert(all[n] == left[n]);
            } else {
                assert(all[n] == right[n - left.len()]);
            }
        }
        assert(r =~= s);
    }
}

proof fn lemma_digit(d: nat)
    requires
        d < 10,
    ensures
        digit(d) as u32 == 0x30 + d,
        is_digit(digit(d)),
{
}

/// A number written in decimal reads as that number: it holds digits only, at
/// least one, and no needless zero in front.
pub proof fn law_a_written_number_is_read(n: nat)
    ensures
        dec(n).len() > 0,
        all_digits(dec(n)),
        dec_value(dec(n)) == n,
        n > 0 ==> dec(n)[0] != '0',
        n < 10 ==> dec(n).len() == 1,
    decreases n,
{
    if n < 10 {
        lemma_digit(n);
        let s = seq![digit(n)];
        assert(dec(n) == s);
        assert(s.last() == digit(n));
        assert(s.drop_last() =~= Seq::empty());
        assert(dec_value(s.drop_last()) == 0);
    } else {
        let q = n / 10;
        law_a_written_number_is_read(q);
        lemma_digit(n % 10);
        let s = dec(n);
        assert(s == dec(q).push(digit(n % 10)));
        assert(s.drop_last() =~= dec(q));
        assert forall|i: int| 0 <= i < s.len() implies is_digit(#[trigger] s[i]) by {
            if i < dec(q).len() {
                assert(s[i] == dec(q)[i]);
            }
        }
    }
}

/// A port written in decimal reads as that port, with or without a plus sign
/// in front.
pub proof fn law_a_written_port_is_read(port: u16)
    ensures
        u16_value(dec(port as nat)) == Some(port),
        u16_value(seq!['+'] + dec(port as nat)) == Some(port),
{
    let s = dec(port as nat);
    law_a_written_number_is_read(port as nat);
    assert(is_digit(s[0]));
    assert((seq!['+'] + s).drop_first() =~= s);
}

/// A run of decimal digits that is not too large is a port, behind a plus sign
/// too, and the last digit counts once, those before it ten times as much. What
/// is not such a run, or is too large, is no port.
pub proof fn law_only_digits_are_a_port(s: Seq<char>, d: nat, i: int)
    ensures
        dec_value(Seq::empty()) == 0,
        d < 10 ==> dec_value(s.push(digit(d))) == 10 * dec_value(s) + d,
        s.len() > 0 && all_digits(s) && dec_value(s) <= 65535 ==> u16_value(s) == Some(
            dec_value(s) as u16,
        ) && u16_value(seq!['+'] + s) == Some(dec_value(s) as u16),
        s.len() == 0 ==> u16_value(s) is None,
        0 <= i < s.len() && !is_digit(s[i]) && (i > 0 || s[i] != '+') ==> u16_value(s) is None,
        s == seq!['+'] ==> u16_value(s) is None,
        all_digits(s) && dec_value(s) > 65535 ==> u16_value(s) is None,
{
    let body = after_plus(s);
    if 0 <= i < s.len() && !is_digit(s[i]) && (i > 0 || s[i] != '+') {
        if s[0] == '+' {
            assert(body[i - 1] == s[i]);
        } else {
            assert(body[i] == s[i]);
        }
    }
    if all_digits(s) && s.len() > 0 {
        assert(is_digit(s[0]));
        assert(body == s);
        assert((seq!['+'] + s).drop_first() =~= s);
    }
    if d < 10 {
        lemma_digit(d);
        assert(s.push(digit(d)).drop_last() =~= s);
    }
}

pub proof fn lemma_utf8_concat(a: Seq<char>, b: Seq<char>)
    ensures
        utf8(a + b) == utf8(a) + utf8(b),
    decreases a.len(),
{
    if a.len() == 0 {
        assert(a + b =~= b);
        assert(utf8(a) + utf8(b) =~= utf8(b));
    } else {
        lemma_utf8_concat(a.drop_first(), b);
        assert((a + b).drop_first() =~= a.drop_first() + b);
        assert((a + b)[0] == a[0]);
        let w = vstd::utf8::encode_scalar(a[0] as u32);
        assert(utf8(a + b) =~= w + utf8(a.drop_first() + b));
        assert(utf8(a) + utf8(b) =~= w + (utf8(a.drop_first()) + utf8(b)));
    }
}

/// Splitting cuts at every character of the class, and nowhere else: the part
/// before the first one comes first, and the rest is split in turn.
pub proof fn law_splitting_cuts_at_each_mark(
    first: Seq<char>,
    mark: char,
    rest: Seq<char>,
    k: CharClass,
)
    requires
        forall|i: int| 0 <= i < first.len() ==> !in_class(k, #[trigger] first[i]),
        in_class(k, mark),
    ensures
        split(first, k) == seq![first],
        split(first + seq![mark] + rest, k) == seq![first] + split(rest, k),
{
    let s = first + seq![mark] + rest;
    let n = first.len() as int;
    lemma_find_is(first, k, n);
    assert forall|j: int| 0 <= j < n implies !in_class(k, #[trigger] s[j]) by {
        assert(s[j] == first[j]);
    }
    lemma_find_is(s, k, n);
    assert(s.take(n) =~= first);
    assert(s.skip(n + 1) =~= rest);
}

/// Lines end at a newline, with or without a carriage return before it, which
/// is not part of them; the last one may lack its newline, and an empty text
/// has no line.
pub proof fn law_lines_end_at_newlines(line: Seq<char>, rest: Seq<char>)
    requires
        forall|i: int| 0 <= i < line.len() ==> #[trigger] line[i] != '\n',
    ensures
        lines(Seq::empty()).len() == 0,
        line.len() > 0 ==> lines(line) == seq![line],
        line.len() == 0 || line.last() != '\r' ==> lines(line + seq!['\n'] + rest) == seq![line]
            + lines(rest),
        lines(line + seq!['\r', '\n'] + rest) == seq![line] + lines(rest),
{
    let k = CharClass::Newline;
    let n = line.len() as int;
    assert forall|j: int| 0 <= j < n implies !in_class(k, #[trigger] line[j]) by {}
    lemma_find_is(line, k, n);
    let a = line + seq!['\n'] + rest;
    assert forall|j: int| 0 <= j < n implies !in_class(k, #[trigger] a[j]) by {
        assert(a[j] == line[j]);
    }
    lemma_find_is(a, k, n);
    assert(a.take(n) =~= line);
    assert(a.skip(n + 1) =~= rest);
    let b = line + seq!['\r', '\n'] + rest;
    assert forall|j: int| 0 <= j < n + 1 implies !in_class(k, #[trigger] b[j]) by {
        if j < n {
            assert(b[j] == line[j]);
        }
    }
    lemma_find_is(b, k, n + 1);
    assert(b.take(n + 1) =~= line.push('\r'));
    assert(line.push('\r').drop_last() =~= line);
    assert(b.skip(n + 2) =~= rest);
}

/// Words are what stands between spaces: a text without spaces is one word,
/// and any number of spaces parts it from the next.
pub proof fn law_words_stand_between_spaces(word: Seq<char>, space: char, rest: Seq<char>)
    requires
        forall|i: int| 0 <= i < word.len() ==> !is_space(#[trigger] word[i]),
        is_space(space),
    ensures
        word.len() > 0 ==> words(word) == seq![word],
        word.len() > 0 ==> words(word + seq![space] + rest) == seq![word] + words(rest),
        words(seq![space] + rest) == words(rest),
        words(Seq::empty()).len() == 0,
{
    let k = CharClass::Space;
    let keep = |w: Seq<char>| w.len() > 0;
    assert forall|i: int| 0 <= i < word.len() implies !in_class(k, #[trigger] word[i]) by {}
    law_splitting_cuts_at_each_mark(word, space, rest, k);
    lemma_filter_one(word);
    Seq::filter_distributes_over_add(seq![word], split(rest, k), keep);
    let none = Seq::<char>::empty();
    law_splitting_cuts_at_each_mark(none, space, rest, k);
    lemma_filter_one(none);
    Seq::filter_distributes_over_add(seq![none], split(rest, k), keep);
    assert(none + seq![space] + rest =~= seq![space] + rest);
    assert(Seq::<Seq<char>>::empty() + words(rest) =~= words(rest));
}

proof fn lemma_filter_one(w: Seq<char>)
    ensures
        seq![w].filter(|w: Seq<char>| w.len() > 0) == if w.len() > 0 {
            seq![w]
        } else {
            Seq::<Seq<char>>::empty()
        },
{
    reveal(Seq::filter);
    let keep = |w: Seq<char>| w.len() > 0;
    let s = seq![w];
    assert(s.drop_last() =~= Seq::<Seq<char>>::empty());
    assert(s.drop_last().filter(keep) =~= Seq::<Seq<char>>::empty());
    assert(s.last() == w);
    assert(Seq::<Seq<char>>::empty().push(w) =~= seq![w]);
}

/// Spaces are what ends a word in plain text, and nothing of ASCII that can be
/// seen is one. Beyond ASCII they are the spaces of Unicode: the blanks of every
/// width, and the breaks of lines and paragraphs.
pub proof fn law_visible_characters_are_no_spaces(c: char)
    ensures
        ({
            let u = c as u32;
            let blank = u == 0xa0 || u == 0x1680 || 0x2000 <= u <= 0x200a || u == 0x202f || u
                == 0x205f || u == 0x3000;
            let breaks = u == 0x85 || u == 0x2028 || u == 0x2029;
            &&& c == ' ' || c == '\t' || c == '\n' || c == '\r' || c == '\u{b}' || c == '\u{c}'
                ==> is_space(c)
            &&& '!' <= c && c <= '~' ==> !is_space(c)
            &&& u < 9 || 13 < u < 32 || u == 127 ==> !is_space(c)
            &&& u >= 128 ==> (is_space(c) <==> blank || breaks)
        }),
{
}

/// Each class holds its own characters.
pub proof fn law_each_class_has_its_characters(c: char)
    ensures
        in_class(CharClass::Space, c) <==> is_space(c),
        in_class(CharClass::Quote, c) <==> c == '"' || c == '\'',
        in_class(CharClass::KeyBreak, c) <==> c == ' ' || c == '\t' || c == '=',
        in_class(CharClass::Wildcard, c) <==> c == '*' || c == '?' || c == '!',
        in_class(CharClass::Comma, c) <==> c == ',',
        in_class(CharClass::Colon, c) <==> c == ':',
        in_class(CharClass::Newline, c) <==> c == '\n',
{
}

/// Only the capitals of ASCII are made small, each in its place.
pub proof fn law_only_capitals_are_made_small(s: Seq<char>, i: int)
    requires
        0 <= i < s.len(),
    ensures
        ascii_lowercase(s).len() == s.len(),
        'A' <= s[i] && s[i] <= 'Z' ==> ascii_lowercase(s)[i] as u32 == s[i] as u32 + 32,
        !('A' <= s[i] && s[i] <= 'Z') ==> ascii_lowercase(s)[i] == s[i],
{
}

/// The digits at the front of a text are those up to the first other
/// character.
pub proof fn law_leading_digits_stop_at_the_first_other(number: Seq<char>, rest: Seq<char>)
    requires
        all_digits(number),
        rest.len() > 0 ==> !is_digit(rest[0]),
    ensures
        leading_digits(number + rest) == number,
    decreases number.len(),
{
    let s = number + rest;
    if number.len() > 0 {
        let n = number.drop_first();
        assert(is_digit(number[0]));
        assert forall|i: int| 0 <= i < n.len() implies is_digit(#[trigger] n[i]) by {
            assert(n[i] == number[i + 1]);
        }
        law_leading_digits_stop_at_the_first_other(n, rest);
        assert(s.drop_first() =~= n + rest);
        assert(s[0] == number[0]);
        assert(seq![number[0]] + n =~= number);
    } else {
        assert(s =~= rest);
    }
}

/// What a digit stands for: `0` to `9`, and then `a` to `f`.
pub open spec fn digit_value(c: char) -> nat {
    if '0' <= c && c <= '9' {
        (c as u32 - '0' as u32) as nat
    } else {
        (10 + (c as u32 - 'a' as u32)) as nat
    }
}

/// What a run of digits stands for.
pub open spec fn value_in(s: Seq<char>, base: nat) -> nat
    decreases s.len(),
{
    if s.len() == 0 {
        0
    } else {
        value_in(s.drop_last(), base) * base + digit_value(s.last())
    }
}

/// A number written in a base up to sixteen reads as that number, without a
/// needless zero in front.
pub proof fn law_digits_stand_for_their_number(n: nat, base: nat)
    requires
        2 <= base <= 16,
    ensures
        digits(n, base).len() > 0,
        value_in(digits(n, base), base) == n,
        n > 0 ==> digits(n, base)[0] != '0',
        n < base ==> digits(n, base).len() == 1,
    decreases n,
{
    let s = digits(n, base);
    if n < base {
        assert(s =~= seq![digit(n)]);
        assert(s.drop_last() =~= Seq::empty());
        assert(value_in(s.drop_last(), base) == 0);
        assert(0 * base == 0) by (nonlinear_arith);
        assert(s.last() == digit(n));
        lemma_digit_value(n);
    } else {
        let q = n / base;
        assert(0 < q < n) by (nonlinear_arith)
            requires
                base >= 2,
                n >= base,
                q == n / base,
        ;
        law_digits_stand_for_their_number(q, base);
        assert(s == digits(q, base).push(digit(n % base)));
        assert(s.drop_last() =~= digits(q, base));
        assert(0 <= n % base < base) by (nonlinear_arith)
            requires
                base >= 2,
        ;
        lemma_digit_value(n % base);
        assert(n == q * base + n % base) by (nonlinear_arith)
            requires
                base >= 2,
                q == n / base,
        ;
        assert(s[0] == digits(q, base)[0]);
    }
}

proof fn lemma_digit_value(d: nat)
    requires
        d < 16,
    ensures
        digit_value(digit(d)) == d,
        d > 0 ==> digit(d) != '0',
{
}

/// Four hexadecimal digits are the number's own with zeros in front.
pub proof fn law_short_numbers_are_filled_with_zeros(n: nat, i: int)
    ensures
        hex4(n).len() >= 4,
        hex(n).len() >= 4 ==> hex4(n) == hex(n),
        hex(n).len() < 4 ==> hex4(n).len() == 4,
        hex4(n).skip(hex4(n).len() - hex(n).len()) == hex(n),
        0 <= i < hex4(n).len() - hex(n).len() ==> hex4(n)[i] == '0',
{
    let h = hex(n);
    lemma_digits_nonempty(n, 16);
    assert(hex4(n).skip(hex4(n).len() - h.len()) =~= h);
}

/// A needle is found wherever it stands, letter for letter, and only where it
/// does.
pub proof fn law_a_needle_is_found_anywhere(left: Seq<char>, needle: Seq<char>, right: Seq<char>)
    ensures
        occurs_in(needle, left + needle + right),
        occurs_in(needle, left) ==> exists|i: int|
            0 <= i <= left.len() - needle.len() && #[trigger] left.subrange(i, i + needle.len())
                == needle,
{
    let s = left + needle + right;
    let i = left.len() as int;
    assert(s.subrange(i, i + needle.len()) =~= needle);
}

/// A list of texts, or of runs of bytes, stands for its items, each in its
/// place; an absent text or result stands for none.
pub proof fn law_a_list_stands_for_its_items(
    v: Seq<String>,
    w: Seq<Vec<u8>>,
    t: String,
    b: Vec<u8>,
    i: int,
)
    ensures
        texts(v).len() == v.len(),
        0 <= i < v.len() ==> texts(v)[i] == v[i]@,
        runs(w).len() == w.len(),
        0 <= i < w.len() ==> runs(w)[i] == w[i]@,
        opt_text(Some(t)) == Some(t@),
        opt_text(None) is None,
        opt_bytes(Some(b)) == Some(b@),
        opt_bytes(None) is None,
        result_text(Ok(())) == Ok::<(), Seq<char>>(()),
        result_text(Err(t)) == Err::<(), Seq<char>>(t@),
{
}

} // verus!
