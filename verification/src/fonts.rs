//! The fonts to choose from, as the system's own tools list them.

use vstd::prelude::*;
use vstd::slice::slice_subrange;
use crate::order;
use crate::order::SortKey;
use crate::text;
use crate::text::CharClass;

verus! {

// ---------- sets of names ----------

/// Whether names are in order and none is there twice.
pub open spec fn ascending(v: Seq<Seq<char>>) -> bool {
    forall|i: int, j: int|
        0 <= i < j < v.len() ==> order::text_before(#[trigger] v[i], #[trigger] v[j])
}

/// Whether `r` is the set of the names in `v`, in order.
pub open spec fn is_set_of(r: Seq<Seq<char>>, v: Seq<Seq<char>>) -> bool {
    ascending(r) && forall|s: Seq<char>| r.contains(s) <==> #[trigger] v.contains(s)
}

/// The names in order, each of them once.
pub fn sorted(names: &Vec<String>) -> (r: Vec<String>)
    ensures
        is_set_of(text::texts(r@), text::texts(names@)),
{
    let ghost v = text::texts(names@);
    let mut keys: Vec<SortKey> = Vec::new();
    let mut i: usize = 0;
    while i < names.len()
        invariant
            i <= names@.len(),
            keys@.len() == i,
            forall|j: int|
                0 <= j < i ==> (#[trigger] keys@[j])@ == (order::KeyView {
                    first: false,
                    text: names@[j]@,
                }),
        decreases names@.len() - i,
    {
        keys.push(SortKey { first: false, text: text::chars_of(names[i].as_str()) });
        i += 1;
    }
    let ghost k = order::key_views(keys@);
    let places = order::sort_places(&keys);
    let mut out: Vec<String> = Vec::new();
    let mut n: usize = 0;
    while n < places.len()
        invariant
            n <= places@.len(),
            v == text::texts(names@),
            k == order::key_views(keys@),
            k.len() == v.len() == names@.len(),
            forall|j: int|
                0 <= j < v.len() ==> (#[trigger] k[j]) == (order::KeyView {
                    first: false,
                    text: v[j],
                }),
            order::is_order_of(k, places@),
            ascending(text::texts(out@)),
            n == 0 ==> out@.len() == 0,
            n > 0 ==> out@.len() > 0 && out@.last()@ == v[places@[n - 1] as int],
            forall|a: int|
                0 <= a < n ==> text::texts(out@).contains(v[#[trigger] places@[a] as int]),
            forall|s: Seq<char>| #[trigger] text::texts(out@).contains(s) ==> v.contains(s),
        decreases places@.len() - n,
    {
        let p: usize = places[n];
        assert(p < v.len());
        assert(v[p as int] == names@[p as int]@);
        let ghost before = text::texts(out@);
        let repeated: bool = if out.len() > 0 {
            text::same(out[out.len() - 1].as_str(), names[p].as_str())
        } else {
            false
        };
        if !repeated {
            proof {
                if n > 0 {
                    assert(order::goes_before(k, places@[n - 1] as int, places@[n as int] as int));
                    assert(k[places@[n - 1] as int].text == v[places@[n - 1] as int]);
                }
            }
            out.push(names[p].clone());
            proof {
                let now = text::texts(out@);
                assert(now =~= before.push(v[p as int]));
                lemma_extended(before, v[p as int]);
                assert(now[before.len() as int] == v[p as int]);
                assert forall|a: int| 0 <= a < n + 1 implies now.contains(
                    v[#[trigger] places@[a] as int],
                ) by {
                    if a < n {
                        assert(before.contains(v[places@[a] as int]));
                        let b = choose|b: int|
                            0 <= b < before.len() && before[b] == v[places@[a] as int];
                        assert(now[b] == before[b]);
                    }
                }
                assert forall|s: Seq<char>| #[trigger] now.contains(s) implies v.contains(s) by {
                    let b = choose|b: int| 0 <= b < now.len() && now[b] == s;
                    if b < before.len() {
                        assert(before[b] == s);
                        assert(before.contains(s));
                    } else {
                        assert(v[p as int] == s);
                    }
                }
            }
        } else {
            proof {
                assert(before[before.len() - 1] == out@.last()@);
                assert(before.contains(v[p as int]));
            }
        }
        n += 1;
    }
    proof {
        let r = text::texts(out@);
        assert forall|s: Seq<char>| r.contains(s) <==> #[trigger] v.contains(s) by {
            if v.contains(s) {
                let j = choose|j: int| 0 <= j < v.len() && v[j] == s;
                assert(places@.contains(j as usize));
                let a = choose|a: int| 0 <= a < places@.len() && places@[a] == j as usize;
                assert(r.contains(v[places@[a] as int]));
            }
        }
    }
    out
}

proof fn lemma_extended(v: Seq<Seq<char>>, s: Seq<char>)
    requires
        ascending(v),
        v.len() > 0 ==> order::text_before(v.last(), s),
    ensures
        ascending(v.push(s)),
{
    let w = v.push(s);
    assert forall|i: int, j: int| 0 <= i < j < w.len() implies order::text_before(
        #[trigger] w[i],
        #[trigger] w[j],
    ) by {
        if j == v.len() {
            if i < v.len() - 1 {
                assert(order::text_before(v[i], v[v.len() - 1]));
                order::lemma_transitive(v[i], v.last(), s);
            }
        } else {
            assert(order::text_before(v[i], v[j]));
        }
    }
}

// ---------- what the tools print ----------

/// The tools that list fonts.
#[derive(Debug, Clone, Copy, PartialEq, Eq, Structural)]
pub enum FontTool {
    /// `fc-list`: one line per font, with its families between commas.
    Fontconfig,
    /// `system_profiler`: families stand behind `Family:`.
    Profiler,
    /// `reg query`: names stand before their type.
    Registry,
}

/// The families on a line of `fc-list`.
pub open spec fn fontconfig_names(line: Seq<char>) -> Seq<Seq<char>> {
    trimmed(text::split(line, CharClass::Comma))
}

/// The pieces without the blanks around them, as far as anything is left.
pub open spec fn trimmed(pieces: Seq<Seq<char>>) -> Seq<Seq<char>>
    decreases pieces.len(),
{
    if pieces.len() == 0 {
        Seq::empty()
    } else {
        let rest = trimmed(pieces.drop_last());
        let piece = text::trim(pieces.last(), CharClass::Space);
        if piece.len() > 0 {
            rest.push(piece)
        } else {
            rest
        }
    }
}

/// The family on a line of `system_profiler`.
pub open spec fn profiler_name(line: Seq<char>) -> Option<Seq<char>> {
    let l = text::trim(line, CharClass::Space);
    if "Family:"@.is_prefix_of(l) {
        let name = text::trim(l.skip(7), CharClass::Space);
        if name.len() > 0 {
            Some(name)
        } else {
            None
        }
    } else {
        None
    }
}

/// The text before the first place where `mark` stands, or all of it.
pub open spec fn before_mark(s: Seq<char>, mark: Seq<char>) -> Seq<char>
    decreases s.len(),
{
    if s.len() == 0 || mark.is_prefix_of(s) {
        Seq::empty()
    } else {
        seq![s[0]] + before_mark(s.drop_first(), mark)
    }
}

/// The text without one of two endings.
pub open spec fn without_ending(s: Seq<char>, a: Seq<char>, b: Seq<char>) -> Seq<char> {
    if a.is_suffix_of(s) {
        s.take(s.len() - a.len())
    } else if b.is_suffix_of(s) {
        s.take(s.len() - b.len())
    } else {
        s
    }
}

/// The name on a line of `reg query`.
pub open spec fn registry_name(line: Seq<char>) -> Option<Seq<char>> {
    let l = text::trim(line, CharClass::Space);
    let name = without_ending(
        text::trim(before_mark(l, "    REG_"@), CharClass::Space),
        " (TrueType)"@,
        " (OpenType)"@,
    );
    if name.len() == 0 || "HK"@.is_prefix_of(name) {
        None
    } else {
        Some(name)
    }
}

/// The names on a line.
pub open spec fn names_on(tool: FontTool, line: Seq<char>) -> Seq<Seq<char>> {
    match tool {
        FontTool::Fontconfig => fontconfig_names(line),
        FontTool::Profiler => match profiler_name(line) {
            Some(n) => seq![n],
            None => Seq::empty(),
        },
        FontTool::Registry => match registry_name(line) {
            Some(n) => seq![n],
            None => Seq::empty(),
        },
    }
}

/// The names on all lines.
pub open spec fn all_names(tool: FontTool, lines: Seq<Seq<char>>) -> Seq<Seq<char>>
    decreases lines.len(),
{
    if lines.len() == 0 {
        Seq::empty()
    } else {
        all_names(tool, lines.drop_last()) + names_on(tool, lines.last())
    }
}

fn push_name(names: &mut Vec<String>, name: String)
    ensures
        text::texts(final(names)@) == text::texts(old(names)@).push(name@),
{
    names.push(name);
    assert(text::texts(names@) =~= text::texts(old(names)@).push(name@));
}

fn push_fontconfig(names: &mut Vec<String>, line: &[char])
    ensures
        text::texts(final(names)@) == text::texts(old(names)@) + fontconfig_names(line@),
{
    let pieces = text::split_at_class(line, CharClass::Comma);
    let ghost all = text::views(pieces@);
    let ghost was = text::texts(names@);
    let mut i: usize = 0;
    assert(was + trimmed(all.take(0)) =~= was);
    while i < pieces.len()
        invariant
            i <= pieces@.len(),
            all == text::views(pieces@),
            text::texts(names@) == was + trimmed(all.take(i as int)),
        decreases pieces@.len() - i,
    {
        let piece = text::trim_class(pieces[i], CharClass::Space);
        proof {
            assert(all.take(i + 1).drop_last() =~= all.take(i as int));
            assert(all.take(i + 1).last() == pieces@[i as int]@);
        }
        if piece.len() > 0 {
            push_name(names, text::string_of(piece));
            assert((was + trimmed(all.take(i as int))).push(piece@) =~= was + trimmed(
                all.take(i as int),
            ).push(piece@));
        }
        i += 1;
    }
    assert(all.take(i as int) =~= all);
}

fn find_profiler(line: &[char]) -> (r: Option<String>)
    ensures
        text::opt_text(r) == profiler_name(line@),
{
    let l = text::trim_class(line, CharClass::Space);
    proof {
        reveal_strlit("Family:");
    }
    if !text::starts_with(l, "Family:") {
        return None;
    }
    let rest = slice_subrange(l, 7, l.len());
    assert(rest@ =~= l@.skip(7));
    let name = text::trim_class(rest, CharClass::Space);
    if name.len() > 0 {
        Some(text::string_of(name))
    } else {
        None
    }
}

fn cut_at_mark<'a>(s: &'a [char], mark: &str) -> (r: &'a [char])
    ensures
        r@ == before_mark(s@, mark@),
{
    let mut i: usize = 0;
    assert(s@.skip(0) =~= s@);
    assert(s@.take(0) + before_mark(s@, mark@) =~= before_mark(s@, mark@));
    while i < s.len() && !text::starts_with(slice_subrange(s, i, s.len()), mark)
        invariant
            i <= s@.len(),
            before_mark(s@, mark@) == s@.take(i as int) + before_mark(s@.skip(i as int), mark@),
        decreases s@.len() - i,
    {
        proof {
            let rest = s@.skip(i as int);
            assert(s@.subrange(i as int, s@.len() as int) =~= rest);
            assert(rest.drop_first() =~= s@.skip(i + 1));
            assert(s@.take(i as int) + (seq![rest[0]] + before_mark(s@.skip(i + 1), mark@))
                =~= s@.take(i + 1) + before_mark(s@.skip(i + 1), mark@));
        }
        i += 1;
    }
    proof {
        assert(s@.subrange(i as int, s@.len() as int) =~= s@.skip(i as int));
        assert(s@.take(i as int) + Seq::<char>::empty() =~= s@.take(i as int));
    }
    let r = slice_subrange(s, 0, i);
    assert(r@ =~= s@.take(i as int));
    r
}

fn find_registry(line: &[char]) -> (r: Option<String>)
    ensures
        text::opt_text(r) == registry_name(line@),
{
    let l = text::trim_class(line, CharClass::Space);
    let head = cut_at_mark(l, "    REG_");
    let full = text::trim_class(head, CharClass::Space);
    proof {
        reveal_strlit(" (TrueType)");
        reveal_strlit(" (OpenType)");
    }
    let name = if text::ends_with(full, " (TrueType)") || text::ends_with(full, " (OpenType)") {
        slice_subrange(full, 0, full.len() - 11)
    } else {
        full
    };
    assert(name@ =~= without_ending(full@, " (TrueType)"@, " (OpenType)"@));
    if name.len() == 0 || text::starts_with(name, "HK") {
        None
    } else {
        Some(text::string_of(name))
    }
}

/// The fonts in what a tool printed, in order.
pub fn parse(tool: FontTool, printed: &str) -> (r: Vec<String>)
    ensures
        is_set_of(text::texts(r@), all_names(tool, text::lines(printed@))),
{
    let chars = text::chars_of(printed);
    let lines = text::split_lines(chars.as_slice());
    let ghost all = text::lines(printed@);
    let mut names: Vec<String> = Vec::new();
    let mut i: usize = 0;
    assert(text::texts(names@) =~= all_names(tool, all.take(0)));
    while i < lines.len()
        invariant
            i <= lines@.len(),
            all == text::views(lines@),
            text::texts(names@) == all_names(tool, all.take(i as int)),
        decreases lines@.len() - i,
    {
        let ghost was = text::texts(names@);
        proof {
            assert(all.take(i + 1).drop_last() =~= all.take(i as int));
            assert(all.take(i + 1).last() == lines@[i as int]@);
        }
        match tool {
            FontTool::Fontconfig => push_fontconfig(&mut names, lines[i]),
            FontTool::Profiler => {
                if let Some(n) = find_profiler(lines[i]) {
                    push_name(&mut names, n);
                }
            },
            FontTool::Registry => {
                if let Some(n) = find_registry(lines[i]) {
                    push_name(&mut names, n);
                }
            },
        }
        assert(text::texts(names@) =~= was + names_on(tool, lines@[i as int]@));
        i += 1;
    }
    assert(all.take(i as int) =~= all);
    sorted(&names)
}

// ---------- detection ----------

/// What a tool came to: whether it ended well, and what it printed.
pub struct ToolOutput {
    pub success: bool,
    pub stdout: Vec<u8>,
}

/// The names that a tool's output holds, the fontconfig tool only where it
/// ended well.
pub open spec fn output_names(tool: FontTool, out: Option<ToolOutput>) -> Seq<Seq<char>> {
    match out {
        Some(o) => if tool == FontTool::Fontconfig && !o.success {
            Seq::empty()
        } else {
            all_names(tool, text::lines(text::shown(o.stdout@)))
        },
        None => Seq::empty(),
    }
}

/// The fonts that a tool's output holds. A tool that could not be started has
/// none.
pub fn fonts_in(tool: FontTool, out: Option<ToolOutput>) -> (r: Vec<String>)
    ensures
        is_set_of(text::texts(r@), output_names(tool, out)),
{
    match out {
        Some(o) => {
            if tool == FontTool::Fontconfig && !o.success {
                let r: Vec<String> = Vec::new();
                assert(is_set_of(text::texts(r@), Seq::empty()));
                return r;
            }
            let printed = text::show(o.stdout.as_slice());
            parse(tool, printed.as_str())
        },
        None => {
            let r: Vec<String> = Vec::new();
            assert(is_set_of(text::texts(r@), Seq::empty()));
            r
        },
    }
}

/// What fontconfig is asked for: first fonts of one width, then all.
pub open spec fn query_text(n: nat) -> Option<Seq<char>> {
    if n == 0 {
        Some(":spacing=mono"@)
    } else if n == 1 {
        Some(":"@)
    } else {
        None
    }
}

/// What fontconfig is asked for in attempt `n`, counted from zero.
pub fn query(n: usize) -> (r: Option<String>)
    ensures
        text::opt_text(r) == query_text(n as nat),
{
    if n == 0 {
        Some(":spacing=mono".to_owned())
    } else if n == 1 {
        Some(":".to_owned())
    } else {
        None
    }
}

/// The fonts to offer, given those of the two attempts: the first attempt that
/// found any.
pub fn detect(mono: Vec<String>, any: Vec<String>) -> (r: Vec<String>)
    ensures
        r == if mono@.len() > 0 {
            mono
        } else {
            any
        },
{
    if mono.len() > 0 {
        mono
    } else {
        any
    }
}

/// The fonts that were detected, once they were. They do not change while the
/// program runs.
pub struct FontCache {
    fonts: Option<Vec<String>>,
}

impl FontCache {
    /// The fonts that were detected.
    pub closed spec fn view(&self) -> Option<Seq<Seq<char>>> {
        match self.fonts {
            Some(f) => Some(text::texts(f@)),
            None => None,
        }
    }

    /// Nothing was detected yet.
    pub fn new() -> (r: Self)
        ensures
            r@ is None,
    {
        FontCache { fonts: None }
    }

    /// Whether fonts were detected.
    pub fn is_filled(&self) -> (r: bool)
        ensures
            r == self@ is Some,
    {
        self.fonts.is_some()
    }
}

/// The fonts to choose from: those that were detected first. `found` is what
/// was detected now, and counts only where nothing was before.
pub fn list(cache: &mut FontCache, found: Vec<String>) -> (r: Vec<String>)
    ensures
        text::texts(r@) == match old(cache)@ {
            Some(f) => f,
            None => text::texts(found@),
        },
        final(cache)@ == Some(text::texts(r@)),
{
    let fonts: Vec<String> = match &cache.fonts {
        Some(f) => text::copy_strings(f),
        None => found,
    };
    let out = text::copy_strings(&fonts);
    cache.fonts = Some(fonts);
    out
}

// ---------- laws ----------

proof fn lemma_first_missing(a: Seq<Seq<char>>, b: Seq<Seq<char>>, i: int)
    requires
        ascending(a),
        ascending(b),
        0 <= i < a.len(),
        i < b.len(),
        forall|j: int| 0 <= j < i ==> a[j] == b[j],
        b.contains(a[i]),
    ensures
        !order::text_before(a[i], b[i]),
{
    let k = choose|k: int| 0 <= k < b.len() && b[k] == a[i];
    order::lemma_irreflexive(a[i]);
    if k < i {
        assert(order::text_before(a[k], a[i]));
    } else if k > i {
        assert(order::text_before(b[i], b[k]));
        if order::text_before(a[i], b[i]) {
            order::lemma_transitive(a[i], b[i], a[i]);
        }
    }
}

proof fn lemma_same_set(a: Seq<Seq<char>>, b: Seq<Seq<char>>, v: Seq<Seq<char>>, n: int)
    requires
        is_set_of(a, v),
        is_set_of(b, v),
        0 <= n <= a.len(),
    ensures
        n <= b.len(),
        forall|j: int| 0 <= j < n ==> a[j] == b[j],
    decreases n,
{
    if n > 0 {
        let i = n - 1;
        lemma_same_set(a, b, v, i);
        assert(a.contains(a[i]));
        assert(v.contains(a[i]));
        assert(b.contains(a[i]));
        if b.len() <= i {
            let k = choose|k: int| 0 <= k < b.len() && b[k] == a[i];
            assert(order::text_before(a[k], a[i]));
            order::lemma_irreflexive(a[i]);
        }
        assert(b.contains(b[i]));
        assert(v.contains(b[i]));
        assert(a.contains(b[i]));
        lemma_first_missing(a, b, i);
        lemma_first_missing(b, a, i);
        order::lemma_total(a[i], b[i]);
    }
}

/// There is one way to list a set of fonts: in order and each of them once.
pub proof fn law_there_is_one_list(a: Seq<Seq<char>>, b: Seq<Seq<char>>, v: Seq<Seq<char>>)
    requires
        is_set_of(a, v),
        is_set_of(b, v),
    ensures
        a == b,
{
    lemma_same_set(a, b, v, a.len() as int);
    lemma_same_set(b, a, v, b.len() as int);
    assert(a =~= b);
}

/// No font is listed twice.
pub proof fn law_no_font_twice(r: Seq<Seq<char>>, v: Seq<Seq<char>>)
    requires
        is_set_of(r, v),
    ensures
        r.no_duplicates(),
{
    assert forall|i: int, j: int| 0 <= i < r.len() && 0 <= j < r.len() && i != j implies r[i]
        != r[j] by {
        order::lemma_irreflexive(r[i]);
        if i < j {
            assert(order::text_before(r[i], r[j]));
        } else {
            assert(order::text_before(r[j], r[i]));
        }
    }
}

/// A line of fontconfig names its fonts between commas, with spaces round them;
/// an empty name is none.
pub proof fn law_fontconfig_names_stand_between_commas(
    first: Seq<char>,
    rest: Seq<char>,
    left: Seq<char>,
    name: Seq<char>,
    right: Seq<char>,
)
    requires
        forall|i: int| 0 <= i < first.len() ==> #[trigger] first[i] != ',',
        first == left + name + right,
        text::all_spaces(left),
        text::all_spaces(right),
        name.len() > 0 ==> !text::is_space(name[0]) && !text::is_space(name.last()),
    ensures
        ({
            let one = if name.len() > 0 {
                seq![name]
            } else {
                Seq::empty()
            };
            &&& names_on(FontTool::Fontconfig, first) == one
            &&& names_on(FontTool::Fontconfig, first + seq![','] + rest) == one + names_on(
                FontTool::Fontconfig,
                rest,
            )
        }),
{
    let (sp, co) = (CharClass::Space, CharClass::Comma);
    assert forall|i: int| 0 <= i < left.len() implies text::in_class(sp, #[trigger] left[i]) by {
        assert(text::is_space(left[i]));
    }
    assert forall|i: int| 0 <= i < right.len() implies text::in_class(sp, #[trigger] right[i]) by {
        assert(text::is_space(right[i]));
    }
    text::law_trimming_takes_only_the_ends(left, name, right, sp);
    assert forall|i: int| 0 <= i < first.len() implies !text::in_class(co, #[trigger] first[i]) by {
    }
    text::law_splitting_cuts_at_each_mark(first, ',', rest, co);
    lemma_trimmed_front(first, Seq::empty());
    lemma_trimmed_front(first, text::split(rest, co));
    assert(seq![first] + Seq::<Seq<char>>::empty() =~= seq![first]);
    assert(trimmed(Seq::empty()) =~= Seq::<Seq<char>>::empty());
    let one = if name.len() > 0 {
        seq![name]
    } else {
        Seq::empty()
    };
    assert(one + Seq::<Seq<char>>::empty() =~= one);
}

proof fn lemma_trimmed_front(piece: Seq<char>, pieces: Seq<Seq<char>>)
    ensures
        ({
            let name = text::trim(piece, CharClass::Space);
            trimmed(seq![piece] + pieces) == (if name.len() > 0 {
                seq![name]
            } else {
                Seq::<Seq<char>>::empty()
            }) + trimmed(pieces)
        }),
    decreases pieces.len(),
{
    reveal_with_fuel(trimmed, 2);
    let all = seq![piece] + pieces;
    let name = text::trim(piece, CharClass::Space);
    let none = Seq::<Seq<char>>::empty();
    let one = if name.len() > 0 {
        seq![name]
    } else {
        none
    };
    if pieces.len() == 0 {
        assert(all =~= seq![piece]);
        assert(all.drop_last() =~= none);
        assert(all.last() == piece);
        assert(none.push(name) =~= seq![name]);
        assert(one + trimmed(pieces) =~= one);
    } else {
        lemma_trimmed_front(piece, pieces.drop_last());
        assert(all.drop_last() =~= seq![piece] + pieces.drop_last());
        assert(all.last() == pieces.last());
        let last = text::trim(pieces.last(), CharClass::Space);
        let init = trimmed(pieces.drop_last());
        assert((one + init).push(last) =~= one + init.push(last));
    }
}

/// The profiler names a font behind `Family:`; other lines name none.
pub proof fn law_the_profiler_names_families(
    left: Seq<char>,
    gap: Seq<char>,
    name: Seq<char>,
    right: Seq<char>,
    other: Seq<char>,
)
    requires
        text::all_spaces(left),
        text::all_spaces(gap),
        text::all_spaces(right),
        name.len() > 0,
        !text::is_space(name[0]),
        !text::is_space(name.last()),
        !"Family:"@.is_prefix_of(text::trim(other, CharClass::Space)),
    ensures
        names_on(FontTool::Profiler, left + ("Family:"@ + gap + name) + right) == seq![name],
        names_on(FontTool::Profiler, left + "Family:"@ + right).len() == 0,
        names_on(FontTool::Profiler, other).len() == 0,
{
    let sp = CharClass::Space;
    assert forall|i: int| 0 <= i < left.len() implies text::in_class(sp, #[trigger] left[i]) by {
        assert(text::is_space(left[i]));
    }
    assert forall|i: int| 0 <= i < gap.len() implies text::in_class(sp, #[trigger] gap[i]) by {
        assert(text::is_space(gap[i]));
    }
    assert forall|i: int| 0 <= i < right.len() implies text::in_class(sp, #[trigger] right[i]) by {
        assert(text::is_space(right[i]));
    }
    reveal_strlit("Family:");
    let f = "Family:"@;
    assert(f.len() == 7 && f[0] == 'F' && f.last() == ':');
    let l = f + gap + name;
    assert(l[0] == 'F' && l.last() == name.last());
    text::law_trimming_takes_only_the_ends(left, l, right, sp);
    assert(l.take(7) =~= f);
    assert(f.is_prefix_of(l));
    let none = Seq::<char>::empty();
    assert(l.skip(7) =~= gap + name + none);
    text::law_trimming_takes_only_the_ends(gap, name, none, sp);
    text::law_trimming_takes_only_the_ends(left, f, right, sp);
    assert(f.skip(7) =~= none + none + none);
    text::law_trimming_takes_only_the_ends(none, none, none, sp);
}

/// A mark cuts off itself and what follows it.
pub proof fn law_what_stands_before_a_mark(s: Seq<char>, mark: Seq<char>, i: int)
    requires
        mark.len() > 0,
        0 <= i <= s.len(),
        forall|j: int| 0 <= j < i ==> !mark.is_prefix_of(#[trigger] s.skip(j)),
        i < s.len() ==> mark.is_prefix_of(s.skip(i)),
    ensures
        before_mark(s, mark) == s.take(i),
    decreases s.len(),
{
    if s.len() > 0 {
        assert(s.skip(0) =~= s);
        if i == 0 {
            assert(mark.is_prefix_of(s));
            assert(s.take(0) =~= Seq::empty());
        } else {
            assert(!mark.is_prefix_of(s.skip(0)));
            let r = s.drop_first();
            assert forall|j: int| 0 <= j < i - 1 implies !mark.is_prefix_of(#[trigger] r.skip(j)) by {
                assert(r.skip(j) =~= s.skip(j + 1));
            }
            if i < s.len() {
                assert(r.skip(i - 1) =~= s.skip(i));
            }
            law_what_stands_before_a_mark(r, mark, i - 1);
            assert(seq![s[0]] + r.take(i - 1) =~= s.take(i));
        }
    } else {
        assert(s.take(i) =~= Seq::empty());
    }
}

/// The registry names a font before its type, without the ending that says what
/// kind of font it is. The names of keys, which begin with `HK`, are none.
pub proof fn law_the_registry_names_fonts(raw: Seq<char>, line: Seq<char>, name: Seq<char>)
    requires
        text::trim(raw, CharClass::Space) == line,
        text::trim(before_mark(line, "    REG_"@), CharClass::Space) == name,
    ensures
        ({
            let (t, o) = (" (TrueType)"@, " (OpenType)"@);
            let bare = if t.is_suffix_of(name) {
                name.take(name.len() - 11)
            } else if o.is_suffix_of(name) {
                name.take(name.len() - 11)
            } else {
                name
            };
            &&& bare.len() == 0 || "HK"@.is_prefix_of(bare) ==> names_on(
                FontTool::Registry,
                raw,
            ).len() == 0
            &&& bare.len() > 0 && !"HK"@.is_prefix_of(bare) ==> names_on(FontTool::Registry, raw)
                == seq![bare]
        }),
{
    reveal_strlit(" (TrueType)");
    reveal_strlit(" (OpenType)");
}

/// The names of all lines are listed, line by line.
pub proof fn law_every_line_is_read(tool: FontTool, lines: Seq<Seq<char>>, line: Seq<char>)
    ensures
        all_names(tool, Seq::empty()).len() == 0,
        all_names(tool, lines.push(line)) == all_names(tool, lines) + names_on(tool, line),
{
    assert(lines.push(line).drop_last() =~= lines);
}

/// Nothing is taken from a tool that could not be run, nor from fontconfig when
/// it failed; the others count even then.
pub proof fn law_a_failed_tool_names_no_fonts(tool: FontTool, stdout: Vec<u8>)
    ensures
        output_names(tool, None).len() == 0,
        output_names(FontTool::Fontconfig, Some(ToolOutput { success: false, stdout })).len() == 0,
        output_names(tool, Some(ToolOutput { success: true, stdout })) == all_names(
            tool,
            text::lines(text::shown(stdout@)),
        ),
        tool != FontTool::Fontconfig ==> output_names(
            tool,
            Some(ToolOutput { success: false, stdout }),
        ) == all_names(tool, text::lines(text::shown(stdout@))),
{
}

/// Fonts of one width are asked for first, then all, and then nothing more.
pub proof fn law_fonts_of_one_width_come_first(n: nat)
    ensures
        n == 0 ==> query_text(n) == Some(":spacing=mono"@),
        n == 1 ==> query_text(n) == Some(":"@),
        n > 1 ==> query_text(n) is None,
{
}

/// A list of fonts holds every name that was given, and no other, in order.
pub proof fn law_a_list_holds_what_was_given(
    r: Seq<Seq<char>>,
    v: Seq<Seq<char>>,
    name: Seq<char>,
    i: int,
    j: int,
)
    requires
        is_set_of(r, v),
    ensures
        r.contains(name) <==> v.contains(name),
        0 <= i < j < r.len() ==> order::text_before(r[i], r[j]),
{
    if v.contains(name) {
        assert(r.contains(name));
    }
}

} // verus!
