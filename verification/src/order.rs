//! Putting names in order.

use vstd::prelude::*;

verus! {

/// Whether one text comes before another, character by character by their
/// code points.
pub open spec fn text_before(a: Seq<char>, b: Seq<char>) -> bool
    decreases a.len(),
{
    if b.len() == 0 {
        false
    } else if a.len() == 0 {
        true
    } else if a[0] != b[0] {
        a[0] < b[0]
    } else {
        text_before(a.drop_first(), b.drop_first())
    }
}

/// No text comes before itself.
pub proof fn lemma_irreflexive(a: Seq<char>)
    ensures
        !text_before(a, a),
    decreases a.len(),
{
    if a.len() > 0 {
        lemma_irreflexive(a.drop_first());
    }
}

/// What comes before what comes before a text comes before the text.
pub proof fn lemma_transitive(a: Seq<char>, b: Seq<char>, c: Seq<char>)
    requires
        text_before(a, b),
        text_before(b, c),
    ensures
        text_before(a, c),
    decreases a.len(),
{
    if a.len() > 0 && a[0] == b[0] && b[0] == c[0] {
        lemma_transitive(a.drop_first(), b.drop_first(), c.drop_first());
    }
}

/// Of two different texts one comes before the other.
pub proof fn lemma_total(a: Seq<char>, b: Seq<char>)
    ensures
        text_before(a, b) || text_before(b, a) || a == b,
    decreases a.len(),
{
    if a.len() == 0 {
        if b.len() == 0 {
            assert(a =~= b);
        }
    } else if b.len() > 0 && a[0] == b[0] {
        lemma_total(a.drop_first(), b.drop_first());
        if a.drop_first() == b.drop_first() {
            assert(a =~= seq![a[0]] + a.drop_first());
            assert(b =~= seq![b[0]] + b.drop_first());
        }
    }
}

/// How two texts stand to each other.
#[derive(Debug, Clone, Copy, PartialEq, Eq, Structural)]
pub enum Place {
    Before,
    Same,
    Behind,
}

/// How two texts stand to each other, by their code points.
pub fn place_of(a: &[char], b: &[char]) -> (r: Place)
    ensures
        r == Place::Before <==> text_before(a@, b@),
        r == Place::Same <==> a@ == b@,
        r == Place::Behind <==> text_before(b@, a@),
{
    let mut i: usize = 0;
    proof {
        lemma_irreflexive(a@);
        assert(a@.skip(0) =~= a@);
        assert(b@.skip(0) =~= b@);
    }
    while i < a.len() && i < b.len() && a[i] == b[i]
        invariant
            i <= a@.len(),
            i <= b@.len(),
            a@.take(i as int) == b@.take(i as int),
            text_before(a@, b@) == text_before(a@.skip(i as int), b@.skip(i as int)),
            text_before(b@, a@) == text_before(b@.skip(i as int), a@.skip(i as int)),
        decreases a@.len() - i,
    {
        assert(a@.skip(i as int).drop_first() =~= a@.skip(i + 1));
        assert(b@.skip(i as int).drop_first() =~= b@.skip(i + 1));
        assert(a@.take(i + 1) =~= a@.take(i as int).push(a@[i as int]));
        assert(b@.take(i + 1) =~= b@.take(i as int).push(b@[i as int]));
        i += 1;
    }
    if i < a.len() && i < b.len() {
        assert(a@[i as int] != b@[i as int]);
        if a[i] < b[i] {
            Place::Before
        } else {
            Place::Behind
        }
    } else if i < b.len() {
        assert(a@.len() != b@.len());
        Place::Before
    } else if i < a.len() {
        assert(a@.len() != b@.len());
        Place::Behind
    } else {
        assert(a@ =~= b@) by {
            assert(a@.take(i as int) =~= a@);
            assert(b@.take(i as int) =~= b@);
        }
        Place::Same
    }
}

/// What an item is put in order by: those that go first, then by text.
pub struct SortKey {
    pub first: bool,
    pub text: Vec<char>,
}

/// What a `SortKey` holds.
pub struct KeyView {
    pub first: bool,
    pub text: Seq<char>,
}

impl View for SortKey {
    type V = KeyView;

    open spec fn view(&self) -> KeyView {
        KeyView { first: self.first, text: self.text@ }
    }
}

/// What a list of keys holds.
pub open spec fn key_views(keys: Seq<SortKey>) -> Seq<KeyView> {
    Seq::new(keys.len(), |i: int| keys[i]@)
}

/// Whether an item goes before another for its key.
pub open spec fn key_before(a: KeyView, b: KeyView) -> bool {
    if a.first != b.first {
        a.first
    } else {
        text_before(a.text, b.text)
    }
}

/// Whether the item in place `i` goes before the item in place `j`: for its
/// key, or with the same key because it was there first.
pub open spec fn goes_before(keys: Seq<KeyView>, i: int, j: int) -> bool {
    key_before(keys[i], keys[j]) || (keys[i] == keys[j] && i < j)
}

proof fn lemma_key_transitive(a: KeyView, b: KeyView, c: KeyView)
    requires
        key_before(a, b),
        key_before(b, c),
    ensures
        key_before(a, c),
{
    if a.first == b.first && b.first == c.first {
        lemma_transitive(a.text, b.text, c.text);
    }
}

proof fn lemma_goes_transitive(keys: Seq<KeyView>, i: int, j: int, k: int)
    requires
        goes_before(keys, i, j),
        goes_before(keys, j, k),
    ensures
        goes_before(keys, i, k),
{
    if key_before(keys[i], keys[j]) && key_before(keys[j], keys[k]) {
        lemma_key_transitive(keys[i], keys[j], keys[k]);
    }
}

proof fn lemma_goes_total(keys: Seq<KeyView>, i: int, j: int)
    ensures
        goes_before(keys, i, j) || goes_before(keys, j, i) || i == j,
        !(goes_before(keys, i, j) && goes_before(keys, j, i)),
{
    let a = keys[i];
    let b = keys[j];
    lemma_total(a.text, b.text);
    lemma_irreflexive(a.text);
    lemma_irreflexive(b.text);
    if text_before(a.text, b.text) && text_before(b.text, a.text) {
        lemma_transitive(a.text, b.text, a.text);
    }
}

/// Whether a list of places is in order.
pub open spec fn in_order(keys: Seq<KeyView>, places: Seq<usize>) -> bool {
    forall|a: int, b: int|
        0 <= a < b < places.len() ==> goes_before(
            keys,
            #[trigger] places[a] as int,
            #[trigger] places[b] as int,
        )
}

/// Whether a list holds the places from `lo` up to `hi`, each of them.
pub open spec fn covers(places: Seq<usize>, lo: int, hi: int) -> bool {
    &&& places.len() == hi - lo
    &&& forall|a: int| 0 <= a < places.len() ==> lo <= #[trigger] places[a] < hi
    &&& forall|k: usize| lo <= k < hi ==> #[trigger] places.contains(k)
}

/// Whether the places are those of all items, put in order.
pub open spec fn is_order_of(keys: Seq<KeyView>, places: Seq<usize>) -> bool {
    covers(places, 0, keys.len() as int) && in_order(keys, places)
}

fn place_before(keys: &Vec<SortKey>, i: usize, j: usize) -> (r: bool)
    requires
        i < keys@.len(),
        j < keys@.len(),
    ensures
        r == goes_before(key_views(keys@), i as int, j as int),
{
    proof {
        assert(key_views(keys@)[i as int] == keys@[i as int]@);
        assert(key_views(keys@)[j as int] == keys@[j as int]@);
        lemma_irreflexive(keys@[i as int].text@);
    }
    if keys[i].first != keys[j].first {
        return keys[i].first;
    }
    match place_of(keys[i].text.as_slice(), keys[j].text.as_slice()) {
        Place::Before => true,
        Place::Same => i < j,
        Place::Behind => false,
    }
}

/// Whether every place of one list goes before every place of another.
spec fn all_before(keys: Seq<KeyView>, a: Seq<usize>, b: Seq<usize>) -> bool {
    forall|x: int, y: int|
        0 <= x < a.len() && 0 <= y < b.len() ==> goes_before(
            keys,
            #[trigger] a[x] as int,
            #[trigger] b[y] as int,
        )
}

proof fn lemma_pushed(
    keys: Seq<KeyView>,
    out: Seq<usize>,
    x: usize,
    left: Seq<usize>,
    right: Seq<usize>,
)
    requires
        in_order(keys, out),
        left.len() > 0,
        left[0] == x,
        in_order(keys, left),
        in_order(keys, right),
        all_before(keys, out, left),
        all_before(keys, out, right),
        right.len() > 0 ==> goes_before(keys, x as int, right[0] as int),
    ensures
        in_order(keys, out.push(x)),
        all_before(keys, out.push(x), left.drop_first()),
        all_before(keys, out.push(x), right),
{
    let more = out.push(x);
    assert forall|a: int, b: int| 0 <= a < b < more.len() implies goes_before(
        keys,
        #[trigger] more[a] as int,
        #[trigger] more[b] as int,
    ) by {
        if b == out.len() {
            assert(goes_before(keys, out[a] as int, left[0] as int));
        } else {
            assert(goes_before(keys, out[a] as int, out[b] as int));
        }
    }
    let rest = left.drop_first();
    assert forall|a: int, b: int| 0 <= a < more.len() && 0 <= b < rest.len() implies goes_before(
        keys,
        #[trigger] more[a] as int,
        #[trigger] rest[b] as int,
    ) by {
        assert(rest[b] == left[b + 1]);
        if a == out.len() {
            assert(goes_before(keys, left[0] as int, left[b + 1] as int));
        } else {
            assert(goes_before(keys, out[a] as int, left[b + 1] as int));
        }
    }
    assert forall|a: int, b: int| 0 <= a < more.len() && 0 <= b < right.len() implies goes_before(
        keys,
        #[trigger] more[a] as int,
        #[trigger] right[b] as int,
    ) by {
        if a == out.len() {
            if b > 0 {
                assert(goes_before(keys, right[0] as int, right[b] as int));
                lemma_goes_transitive(keys, x as int, right[0] as int, right[b] as int);
            }
        } else {
            assert(goes_before(keys, out[a] as int, right[b] as int));
        }
    }
}

fn merge(
    keys: &Vec<SortKey>,
    left: &Vec<usize>,
    right: &Vec<usize>,
    Ghost(lo): Ghost<int>,
    Ghost(mid): Ghost<int>,
    Ghost(hi): Ghost<int>,
) -> (r: Vec<usize>)
    requires
        0 <= lo <= mid <= hi <= keys@.len(),
        covers(left@, lo, mid),
        covers(right@, mid, hi),
        in_order(key_views(keys@), left@),
        in_order(key_views(keys@), right@),
    ensures
        covers(r@, lo, hi),
        in_order(key_views(keys@), r@),
{
    let ghost k = key_views(keys@);
    let mut out: Vec<usize> = Vec::new();
    let mut i: usize = 0;
    let mut j: usize = 0;
    assert(left@.skip(0) =~= left@);
    assert(right@.skip(0) =~= right@);
    while i < left.len() || j < right.len()
        invariant
            k == key_views(keys@),
            0 <= lo <= mid <= hi <= keys@.len(),
            covers(left@, lo, mid),
            covers(right@, mid, hi),
            in_order(k, left@),
            in_order(k, right@),
            i <= left@.len(),
            j <= right@.len(),
            out@.len() == i + j,
            in_order(k, out@),
            all_before(k, out@, left@.skip(i as int)),
            all_before(k, out@, right@.skip(j as int)),
            forall|a: int| 0 <= a < out@.len() ==> lo <= #[trigger] out@[a] < hi,
            forall|a: int| 0 <= a < i ==> out@.contains(#[trigger] left@[a]),
            forall|a: int| 0 <= a < j ==> out@.contains(#[trigger] right@[a]),
        decreases left@.len() - i + right@.len() - j,
    {
        let ghost l = left@.skip(i as int);
        let ghost r = right@.skip(j as int);
        let ghost before = out@;
        proof {
            lemma_skipped(k, left@, i as int);
            lemma_skipped(k, right@, j as int);
        }
        let from_left: bool = if i == left.len() {
            false
        } else if j == right.len() {
            true
        } else {
            assert(right@[j as int] < hi);
            assert(left@[i as int] < mid);
            place_before(keys, left[i], right[j])
        };
        if from_left {
            proof {
                assert(l[0] == left@[i as int]);
                lemma_pushed(k, before, left@[i as int], l, r);
                assert(l.drop_first() =~= left@.skip(i + 1));
            }
            out.push(left[i]);
            i += 1;
        } else {
            proof {
                assert(r[0] == right@[j as int]);
                if i < left@.len() {
                    lemma_goes_total(k, left@[i as int] as int, right@[j as int] as int);
                    assert(left@[i as int] < mid <= right@[j as int]);
                    assert(l[0] == left@[i as int]);
                }
                lemma_pushed(k, before, right@[j as int], r, l);
                assert(r.drop_first() =~= right@.skip(j + 1));
            }
            out.push(right[j]);
            j += 1;
        }
        proof {
            assert(out@.drop_last() =~= before);
            assert forall|a: int| 0 <= a < i implies out@.contains(#[trigger] left@[a]) by {
                lemma_still_there(before, out@, left@[a]);
            }
            assert forall|a: int| 0 <= a < j implies out@.contains(#[trigger] right@[a]) by {
                lemma_still_there(before, out@, right@[a]);
            }
        }
    }
    proof {
        assert forall|x: usize| lo <= x < hi implies #[trigger] out@.contains(x) by {
            if x < mid {
                assert(left@.contains(x));
                let a = choose|a: int| 0 <= a < left@.len() && left@[a] == x;
                assert(out@.contains(left@[a]));
            } else {
                assert(right@.contains(x));
                let a = choose|a: int| 0 <= a < right@.len() && right@[a] == x;
                assert(out@.contains(right@[a]));
            }
        }
    }
    out
}

proof fn lemma_skipped(keys: Seq<KeyView>, s: Seq<usize>, i: int)
    requires
        in_order(keys, s),
        0 <= i <= s.len(),
    ensures
        in_order(keys, s.skip(i)),
{
    let t = s.skip(i);
    assert forall|a: int, b: int| 0 <= a < b < t.len() implies goes_before(
        keys,
        #[trigger] t[a] as int,
        #[trigger] t[b] as int,
    ) by {
        assert(t[a] == s[a + i] && t[b] == s[b + i]);
    }
}

proof fn lemma_still_there(before: Seq<usize>, now: Seq<usize>, x: usize)
    requires
        before.contains(x) || now.last() == x,
        now.len() > 0,
        now.drop_last() == before,
    ensures
        now.contains(x),
{
    if before.contains(x) {
        let a = choose|a: int| 0 <= a < before.len() && before[a] == x;
        assert(now[a] == x);
    } else {
        assert(now[now.len() - 1] == x);
    }
}

fn sort_range(keys: &Vec<SortKey>, lo: usize, hi: usize) -> (r: Vec<usize>)
    requires
        lo <= hi <= keys@.len(),
    ensures
        covers(r@, lo as int, hi as int),
        in_order(key_views(keys@), r@),
    decreases hi - lo,
{
    let mut out: Vec<usize> = Vec::new();
    if lo == hi {
        return out;
    }
    if hi - lo == 1 {
        out.push(lo);
        assert forall|k: usize| lo <= k < hi implies #[trigger] out@.contains(k) by {
            assert(out@[0] == k);
        }
        return out;
    }
    let mid: usize = lo + (hi - lo) / 2;
    let left = sort_range(keys, lo, mid);
    let right = sort_range(keys, mid, hi);
    merge(keys, &left, &right, Ghost(lo as int), Ghost(mid as int), Ghost(hi as int))
}

/// The places of the items, put in order by their keys; items with the same
/// key keep their order.
pub fn sort_places(keys: &Vec<SortKey>) -> (r: Vec<usize>)
    ensures
        is_order_of(key_views(keys@), r@),
{
    sort_range(keys, 0, keys.len())
}

// ---------- laws ----------

proof fn lemma_same_place(keys: Seq<KeyView>, p: Seq<usize>, q: Seq<usize>, i: int)
    requires
        is_order_of(keys, p),
        is_order_of(keys, q),
        0 <= i < p.len(),
        forall|a: int| 0 <= a < i ==> p[a] == q[a],
    ensures
        !goes_before(keys, p[i] as int, q[i] as int),
{
    if goes_before(keys, p[i] as int, q[i] as int) {
        assert(q.contains(p[i]));
        let b = choose|b: int| 0 <= b < q.len() && q[b] == p[i];
        if b < i {
            assert(p[b] == q[b]);
            assert(goes_before(keys, p[b] as int, p[i] as int));
            lemma_goes_total(keys, p[i] as int, p[i] as int);
        } else if b > i {
            assert(goes_before(keys, q[i] as int, q[b] as int));
            lemma_goes_total(keys, p[i] as int, q[i] as int);
        } else {
            lemma_goes_total(keys, p[i] as int, q[i] as int);
        }
    }
}

proof fn lemma_same_order(keys: Seq<KeyView>, p: Seq<usize>, q: Seq<usize>, n: int)
    requires
        is_order_of(keys, p),
        is_order_of(keys, q),
        0 <= n <= p.len(),
    ensures
        forall|a: int| 0 <= a < n ==> p[a] == q[a],
    decreases n,
{
    if n > 0 {
        lemma_same_order(keys, p, q, n - 1);
        lemma_same_place(keys, p, q, n - 1);
        lemma_same_place(keys, q, p, n - 1);
        lemma_goes_total(keys, p[n - 1] as int, q[n - 1] as int);
    }
}

/// There is one order: whatever puts items in order by their keys, and keeps
/// the order of those with the same key, comes to the same list.
pub proof fn law_there_is_one_order(keys: Seq<KeyView>, p: Seq<usize>, q: Seq<usize>)
    requires
        is_order_of(keys, p),
        is_order_of(keys, q),
    ensures
        p == q,
{
    lemma_same_order(keys, p, q, p.len() as int);
    assert(p =~= q);
}

/// The first difference decides which of two texts comes first, and a text
/// comes before any that goes on behind it.
pub proof fn law_the_first_difference_decides(
    same: Seq<char>,
    a: char,
    b: char,
    x: Seq<char>,
    y: Seq<char>,
)
    ensures
        a != b ==> text_before(same + seq![a] + x, same + seq![b] + y) == (a < b),
        text_before(same, same + seq![a] + x),
        !text_before(same + seq![a] + x, same),
    decreases same.len(),
{
    let (p, q) = (same + seq![a] + x, same + seq![b] + y);
    if same.len() > 0 {
        let rest = same.drop_first();
        law_the_first_difference_decides(rest, a, b, x, y);
        assert(p.drop_first() =~= rest + seq![a] + x);
        assert(q.drop_first() =~= rest + seq![b] + y);
        assert(p[0] == same[0] && q[0] == same[0]);
    } else {
        assert(p[0] == a && q[0] == b);
    }
}

/// Of two keys the one that goes first by its kind does; of the same kind, the
/// one with the earlier text.
pub proof fn law_the_kind_goes_before_the_text(a: KeyView, b: KeyView)
    ensures
        a.first && !b.first ==> key_before(a, b) && !key_before(b, a),
        a.first == b.first ==> key_before(a, b) == text_before(a.text, b.text),
{
}

} // verus!
