//! Open sessions and the commands that wait for them.
//!
//! Every session has a worker that takes its commands one by one. The table
//! knows which sessions are listed, which host they belong to, and whether
//! their worker still listens.

use vstd::prelude::*;
use std::collections::VecDeque;
use crate::text;

verus! {

/// A kind of command, one of which tells a session to end.
pub trait Command: Sized {
    /// The command that tells a session to end.
    spec fn last_word() -> Self;

    /// The command that tells a session to end.
    fn farewell() -> (r: Self)
        ensures
            r == Self::last_word(),
    ;
}

struct Session<C> {
    id: String,
    host_id: String,
    queue: VecDeque<C>,
    listed: bool,
    open: bool,
}

/// What is known of a session.
pub struct SessionView<C> {
    /// The host that the session belongs to.
    pub host_id: Seq<char>,
    /// The commands that wait for it, the oldest first.
    pub queue: Seq<C>,
    /// Whether commands can still be sent to it by its id.
    pub listed: bool,
    /// Whether its worker still takes commands.
    pub open: bool,
}

/// What became of a command.
#[derive(Debug, Clone, Copy, PartialEq, Eq, Structural)]
pub enum Posted {
    Queued,
    /// The worker of the session has gone.
    Closed,
    /// No such session is listed.
    Unknown,
}

/// What a worker finds when it looks for a command.
pub enum Taken<C> {
    Command(C),
    Empty,
    /// The session is gone and nothing waits for it.
    Gone,
}

impl<C> Session<C> {
    spec fn view(&self) -> SessionView<C> {
        SessionView {
            host_id: self.host_id@,
            queue: self.queue@,
            listed: self.listed,
            open: self.open,
        }
    }
}

/// What a table holds. Its methods work on it outside of the table, which is
/// whole at every moment.
struct Entries<C> {
    entries: Vec<Session<C>>,
    next: u64,
}

/// The sessions, by their ids. No two of them share an id.
pub struct SessionTable<C> {
    inner: Entries<C>,
}

/// Whether a session is there, listed under the id.
pub open spec fn is_listed<C>(m: Map<Seq<char>, SessionView<C>>, id: Seq<char>) -> bool {
    m.dom().contains(id) && m[id].listed
}

/// What becomes of a command for a session.
pub open spec fn outcome<C>(m: Map<Seq<char>, SessionView<C>>, id: Seq<char>) -> Posted {
    if !is_listed(m, id) {
        Posted::Unknown
    } else if m[id].open {
        Posted::Queued
    } else {
        Posted::Closed
    }
}

/// A session with one more command waiting.
pub open spec fn with_command<C>(s: SessionView<C>, c: C) -> SessionView<C> {
    SessionView { queue: s.queue.push(c), ..s }
}

/// The sessions after a command was sent to one of them.
pub open spec fn posted<C>(m: Map<Seq<char>, SessionView<C>>, id: Seq<char>, c: C) -> Map<
    Seq<char>,
    SessionView<C>,
> {
    if outcome(m, id) == Posted::Queued {
        m.insert(id, with_command(m[id], c))
    } else {
        m
    }
}

/// Whether a session is told to end: it is listed, it listens, and it belongs
/// to the host, or the host makes no difference.
pub open spec fn is_told<C>(s: SessionView<C>, host: Option<Seq<char>>) -> bool {
    s.listed && s.open && (host is None || s.host_id == host->Some_0)
}

/// The sessions after those of a host, or all of them, were told to end.
pub open spec fn told<C: Command>(
    m: Map<Seq<char>, SessionView<C>>,
    host: Option<Seq<char>>,
) -> Map<Seq<char>, SessionView<C>> {
    Map::new(
        |id: Seq<char>| m.dom().contains(id),
        |id: Seq<char>|
            if is_told(m[id], host) {
                with_command(m[id], C::last_word())
            } else {
                m[id]
            },
    )
}

/// A session that was told to end and is listed no more.
pub open spec fn closing<C: Command>(s: SessionView<C>) -> SessionView<C> {
    if s.listed {
        SessionView {
            queue: if s.open {
                s.queue.push(C::last_word())
            } else {
                s.queue
            },
            listed: false,
            ..s
        }
    } else {
        s
    }
}

/// The id of a session: a letter or word for its kind, and a number.
pub open spec fn session_id(prefix: Seq<char>, n: u64) -> Seq<char> {
    prefix + text::dec(n as nat)
}

/// The number after `n`.
pub open spec fn number_after(n: u64) -> u64 {
    if n == u64::MAX {
        0
    } else {
        (n + 1) as u64
    }
}

spec fn place<C>(v: Seq<Session<C>>, id: Seq<char>) -> int {
    choose|i: int| 0 <= i < v.len() && (#[trigger] v[i]).id@ == id
}

spec fn holds<C>(v: Seq<Session<C>>, id: Seq<char>) -> bool {
    exists|i: int| 0 <= i < v.len() && (#[trigger] v[i]).id@ == id
}

spec fn distinct<C>(v: Seq<Session<C>>) -> bool {
    forall|i: int, j: int|
        0 <= i < j < v.len() ==> (#[trigger] v[i]).id@ != (#[trigger] v[j]).id@
}

spec fn map_of<C>(v: Seq<Session<C>>) -> Map<Seq<char>, SessionView<C>> {
    Map::new(|id: Seq<char>| holds(v, id), |id: Seq<char>| v[place(v, id)]@)
}

proof fn lemma_entry<C>(v: Seq<Session<C>>, i: int)
    requires
        distinct(v),
        0 <= i < v.len(),
    ensures
        holds(v, v[i].id@),
        map_of(v)[v[i].id@] == v[i]@,
{
    let id = v[i].id@;
    assert(holds(v, id));
    let j = place(v, id);
    assert(0 <= j < v.len() && v[j].id@ == id);
    if j < i {
        assert(v[j].id@ != v[i].id@);
    } else if i < j {
        assert(v[i].id@ != v[j].id@);
    }
}

proof fn lemma_changed<C>(v: Seq<Session<C>>, w: Seq<Session<C>>, i: int)
    requires
        distinct(v),
        0 <= i < v.len(),
        w.len() == v.len(),
        w[i].id@ == v[i].id@,
        forall|j: int| 0 <= j < v.len() && j != i ==> #[trigger] w[j] == v[j],
    ensures
        distinct(w),
        map_of(w) == map_of(v).insert(v[i].id@, w[i]@),
{
    assert forall|a: int, b: int| 0 <= a < b < w.len() implies (#[trigger] w[a]).id@ != (
    #[trigger] w[b]).id@ by {
        assert(w[a].id@ == v[a].id@ && w[b].id@ == v[b].id@);
    }
    let m = map_of(v).insert(v[i].id@, w[i]@);
    assert forall|id: Seq<char>| holds(w, id) <==> m.dom().contains(id) by {
        if holds(w, id) {
            let j = place(w, id);
            assert(v[j].id@ == w[j].id@);
            assert(holds(v, id));
        }
        if holds(v, id) {
            let j = place(v, id);
            assert(w[j].id@ == v[j].id@);
        }
        if id == v[i].id@ {
            assert(w[i].id@ == id);
        }
    }
    assert forall|id: Seq<char>| holds(w, id) implies map_of(w)[id] == m[id] by {
        let j = place(w, id);
        lemma_entry(w, j);
        lemma_entry(v, j);
        assert(v[j].id@ == w[j].id@);
        if j != i {
            if id == v[i].id@ {
                lemma_entry(v, i);
                if j < i {
                    assert(v[j].id@ != v[i].id@);
                } else {
                    assert(v[i].id@ != v[j].id@);
                }
            }
        }
    }
    assert(map_of(w) =~= m);
}

proof fn lemma_pushed<C>(v: Seq<Session<C>>, s: Session<C>)
    requires
        distinct(v),
        !holds(v, s.id@),
    ensures
        distinct(v.push(s)),
        map_of(v.push(s)) == map_of(v).insert(s.id@, s@),
{
    let w = v.push(s);
    assert forall|a: int, b: int| 0 <= a < b < w.len() implies (#[trigger] w[a]).id@ != (
    #[trigger] w[b]).id@ by {
        assert(w[a] == v[a]);
        if b == v.len() {
            if v[a].id@ == s.id@ {
                assert(holds(v, s.id@));
            }
        } else {
            assert(w[b] == v[b]);
        }
    }
    let m = map_of(v).insert(s.id@, s@);
    assert forall|id: Seq<char>| holds(w, id) <==> m.dom().contains(id) by {
        if holds(w, id) {
            let j = place(w, id);
            if j < v.len() {
                assert(v[j].id@ == id);
            }
        }
        if holds(v, id) {
            let j = place(v, id);
            assert(w[j] == v[j]);
        }
        if id == s.id@ {
            assert(w[v.len() as int].id@ == id);
        }
    }
    assert forall|id: Seq<char>| holds(w, id) implies map_of(w)[id] == m[id] by {
        let j = place(w, id);
        lemma_entry(w, j);
        if j < v.len() {
            lemma_entry(v, j);
        }
    }
    assert(map_of(w) =~= m);
}

proof fn lemma_removed<C>(v: Seq<Session<C>>, i: int)
    requires
        distinct(v),
        0 <= i < v.len(),
    ensures
        distinct(v.remove(i)),
        map_of(v.remove(i)) == map_of(v).remove(v[i].id@),
{
    let w = v.remove(i);
    let m = map_of(v).remove(v[i].id@);
    assert forall|a: int, b: int| 0 <= a < b < w.len() implies (#[trigger] w[a]).id@ != (
    #[trigger] w[b]).id@ by {
        let x = if a < i {
            a
        } else {
            a + 1
        };
        let y = if b < i {
            b
        } else {
            b + 1
        };
        assert(w[a] == v[x] && w[b] == v[y]);
    }
    assert forall|id: Seq<char>| holds(w, id) <==> m.dom().contains(id) by {
        if holds(w, id) {
            let j = place(w, id);
            let x = if j < i {
                j
            } else {
                j + 1
            };
            assert(w[j] == v[x]);
            assert(v[x].id@ == id);
            if x < i {
                assert(v[x].id@ != v[i].id@);
            } else {
                assert(v[i].id@ != v[x].id@);
            }
        }
        if holds(v, id) && id != v[i].id@ {
            let x = place(v, id);
            assert(x != i);
            let j = if x < i {
                x
            } else {
                x - 1
            };
            assert(w[j] == v[x]);
        }
    }
    assert forall|id: Seq<char>| holds(w, id) implies map_of(w)[id] == m[id] by {
        let j = place(w, id);
        let x = if j < i {
            j
        } else {
            j + 1
        };
        assert(w[j] == v[x]);
        lemma_entry(w, j);
        lemma_entry(v, x);
    }
    assert(map_of(w) =~= m);
}

impl<C> Entries<C> {
    spec fn wf(&self) -> bool {
        distinct(self.entries@)
    }

    spec fn view(&self) -> Map<Seq<char>, SessionView<C>> {
        map_of(self.entries@)
    }

    spec fn counter(&self) -> u64 {
        self.next
    }

    fn new() -> (r: Self)
        ensures
            r.wf(),
            r@ == Map::<Seq<char>, SessionView<C>>::empty(),
            r.counter() == 1,
    {
        let r = Entries { entries: Vec::new(), next: 1 };
        assert(map_of(r.entries@) =~= Map::<Seq<char>, SessionView<C>>::empty());
        r
    }

    fn find(&self, id: &str) -> (r: Option<usize>)
        ensures
            match r {
                Some(i) => i < self.entries@.len() && self.entries@[i as int].id@ == id@,
                None => !holds(self.entries@, id@),
            },
    {
        let mut i: usize = 0;
        while i < self.entries.len()
            invariant
                i <= self.entries@.len(),
                forall|j: int| 0 <= j < i ==> (#[trigger] self.entries@[j]).id@ != id@,
            decreases self.entries@.len() - i,
        {
            if text::same(self.entries[i].id.as_str(), id) {
                return Some(i);
            }
            i += 1;
        }
        None
    }

    fn remove(&mut self, id: &str)
        requires
            old(self).wf(),
        ensures
            final(self).wf(),
            final(self)@ == old(self)@.remove(id@),
            final(self).counter() == old(self).counter(),
    {
        match self.find(id) {
            Some(i) => {
                proof {
                    lemma_removed(self.entries@, i as int);
                }
                self.entries.remove(i);
            },
            None => {
                assert(self@.remove(id@) =~= self@);
            },
        }
    }

    fn insert(&mut self, id: &str, host_id: &str)
        requires
            old(self).wf(),
        ensures
            final(self).wf(),
            final(self)@ == old(self)@.insert(
                id@,
                SessionView { host_id: host_id@, queue: Seq::empty(), listed: true, open: true },
            ),
            final(self).counter() == old(self).counter(),
    {
        let ghost before = self@;
        self.remove(id);
        let s: Session<C> = Session {
            id: id.to_owned(),
            host_id: host_id.to_owned(),
            queue: VecDeque::new(),
            listed: true,
            open: true,
        };
        proof {
            assert(!self@.dom().contains(id@));
            lemma_pushed(self.entries@, s);
        }
        let ghost sv = s@;
        self.entries.push(s);
        proof {
            assert(sv.queue =~= Seq::<C>::empty());
            assert(before.remove(id@).insert(id@, sv) =~= before.insert(id@, sv));
        }
    }

    fn register(&mut self, prefix: &str, host_id: &str) -> (r: String)
        requires
            old(self).wf(),
        ensures
            final(self).wf(),
            r@ == session_id(prefix@, old(self).counter()),
            final(self)@ == old(self)@.insert(
                r@,
                SessionView { host_id: host_id@, queue: Seq::empty(), listed: true, open: true },
            ),
            final(self).counter() == number_after(old(self).counter()),
    {
        let mut id: String = prefix.to_owned();
        id.append(text::decimal(self.next).as_str());
        self.insert(id.as_str(), host_id);
        self.next = if self.next == u64::MAX {
            0
        } else {
            self.next + 1
        };
        id
    }

    fn post(&mut self, id: &str, c: C) -> (r: Posted)
        requires
            old(self).wf(),
        ensures
            final(self).wf(),
            r == outcome(old(self)@, id@),
            final(self)@ == posted(old(self)@, id@, c),
            final(self).counter() == old(self).counter(),
    {
        match self.find(id) {
            Some(i) => {
                let ghost v = self.entries@;
                proof {
                    lemma_entry(v, i as int);
                }
                if !self.entries[i].listed {
                    return Posted::Unknown;
                }
                if !self.entries[i].open {
                    return Posted::Closed;
                }
                self.entries[i].queue.push_back(c);
                proof {
                    lemma_changed(v, self.entries@, i as int);
                    assert(self.entries@[i as int]@ == with_command(v[i as int]@, c));
                }
                Posted::Queued
            },
            None => Posted::Unknown,
        }
    }

    fn take(&mut self, id: &str) -> (r: Taken<C>)
        requires
            old(self).wf(),
        ensures
            final(self).wf(),
            final(self).counter() == old(self).counter(),
            match r {
                Taken::Command(c) => {
                    &&& old(self)@.dom().contains(id@)
                    &&& old(self)@[id@].queue.len() > 0
                    &&& c == old(self)@[id@].queue[0]
                    &&& final(self)@ == old(self)@.insert(
                        id@,
                        SessionView {
                            queue: old(self)@[id@].queue.drop_first(),
                            ..old(self)@[id@]
                        },
                    )
                },
                Taken::Empty => {
                    &&& is_listed(old(self)@, id@)
                    &&& old(self)@[id@].queue.len() == 0
                    &&& final(self)@ == old(self)@
                },
                Taken::Gone => {
                    &&& !is_listed(old(self)@, id@)
                    &&& old(self)@.dom().contains(id@) ==> old(self)@[id@].queue.len() == 0
                    &&& final(self)@ == old(self)@
                },
            },
    {
        match self.find(id) {
            Some(i) => {
                let ghost v = self.entries@;
                proof {
                    lemma_entry(v, i as int);
                }
                let listed = self.entries[i].listed;
                match self.entries[i].queue.pop_front() {
                    Some(c) => {
                        proof {
                            lemma_changed(v, self.entries@, i as int);
                            assert(self.entries@[i as int]@.queue
                                =~= v[i as int]@.queue.drop_first());
                        }
                        Taken::Command(c)
                    },
                    None => {
                        proof {
                            lemma_changed(v, self.entries@, i as int);
                            assert(self@ =~= old(self)@);
                        }
                        if listed {
                            Taken::Empty
                        } else {
                            Taken::Gone
                        }
                    },
                }
            },
            None => Taken::Gone,
        }
    }

    fn hang_up(&mut self, id: &str)
        requires
            old(self).wf(),
        ensures
            final(self).wf(),
            final(self).counter() == old(self).counter(),
            final(self)@ == if old(self)@.dom().contains(id@) {
                old(self)@.insert(id@, SessionView { open: false, ..old(self)@[id@] })
            } else {
                old(self)@
            },
    {
        if let Some(i) = self.find(id) {
            let ghost v = self.entries@;
            proof {
                lemma_entry(v, i as int);
            }
            self.entries[i].open = false;
            proof {
                lemma_changed(v, self.entries@, i as int);
            }
        }
    }

    fn is_known(&self, id: &str) -> (r: bool)
        requires
            self.wf(),
        ensures
            r == is_listed(self@, id@),
    {
        match self.find(id) {
            Some(i) => {
                proof {
                    lemma_entry(self.entries@, i as int);
                }
                self.entries[i].listed
            },
            None => false,
        }
    }

    fn is_open(&self, id: &str) -> (r: bool)
        requires
            self.wf(),
        ensures
            r == (outcome(self@, id@) == Posted::Queued),
    {
        match self.find(id) {
            Some(i) => {
                proof {
                    lemma_entry(self.entries@, i as int);
                }
                self.entries[i].listed && self.entries[i].open
            },
            None => false,
        }
    }
}

impl<C: Command> Entries<C> {
    fn tell(&mut self, host: Option<&str>)
        requires
            old(self).wf(),
        ensures
            final(self).wf(),
            final(self)@ == told(
                old(self)@,
                match host {
                    Some(h) => Some(h@),
                    None => None,
                },
            ),
            final(self).counter() == old(self).counter(),
    {
        let ghost h: Option<Seq<char>> = match host {
            Some(x) => Some(x@),
            None => None,
        };
        let ghost v = self.entries@;
        let mut i: usize = 0;
        while i < self.entries.len()
            invariant
                h == match host {
                    Some(x) => Some(x@),
                    None => None::<Seq<char>>,
                },
                i <= self.entries@.len() == v.len(),
                self.next == old(self).next,
                forall|j: int| 0 <= j < v.len() ==> (#[trigger] self.entries@[j]).id@ == v[j].id@,
                forall|j: int| i <= j < v.len() ==> #[trigger] self.entries@[j] == v[j],
                forall|j: int|
                    0 <= j < i ==> (#[trigger] self.entries@[j])@ == if is_told(v[j]@, h) {
                        with_command(v[j]@, C::last_word())
                    } else {
                        v[j]@
                    },
            decreases v.len() - i,
        {
            let ghost w = self.entries@;
            let mine = match host {
                Some(x) => text::same(self.entries[i].host_id.as_str(), x),
                None => true,
            };
            if mine && self.entries[i].listed && self.entries[i].open {
                self.entries[i].queue.push_back(C::farewell());
                assert(self.entries@[i as int]@ == with_command(w[i as int]@, C::last_word()));
            }
            assert(forall|j: int| 0 <= j < v.len() && j != i ==> #[trigger] self.entries@[j] == w[j]);
            i += 1;
        }
        proof {
            let w = self.entries@;
            lemma_mapped(v, w);
            let m = told::<C>(map_of(v), h);
            assert forall|id: Seq<char>| holds(w, id) implies map_of(w)[id] == m[id] by {
                let j = place(w, id);
                lemma_entry(w, j);
                lemma_entry(v, j);
            }
            assert(map_of(w) =~= m);
        }
    }

    fn close(&mut self, id: &str)
        requires
            old(self).wf(),
        ensures
            final(self).wf(),
            final(self)@ == if old(self)@.dom().contains(id@) {
                old(self)@.insert(id@, closing(old(self)@[id@]))
            } else {
                old(self)@
            },
            final(self).counter() == old(self).counter(),
    {
        if let Some(i) = self.find(id) {
            let ghost v = self.entries@;
            proof {
                lemma_entry(v, i as int);
            }
            self.close_at(i);
            proof {
                lemma_changed(v, self.entries@, i as int);
            }
        }
    }

    fn close_at(&mut self, i: usize)
        requires
            i < old(self).entries@.len(),
        ensures
            final(self).next == old(self).next,
            final(self).entries@.len() == old(self).entries@.len(),
            final(self).entries@[i as int].id@ == old(self).entries@[i as int].id@,
            final(self).entries@[i as int]@ == closing(old(self).entries@[i as int]@),
            forall|j: int|
                0 <= j < old(self).entries@.len() && j != i ==> #[trigger] final(self).entries@[j]
                    == old(self).entries@[j],
    {
        if self.entries[i].listed {
            if self.entries[i].open {
                self.entries[i].queue.push_back(C::farewell());
            }
            self.entries[i].listed = false;
        }
    }

    fn close_all(&mut self)
        requires
            old(self).wf(),
        ensures
            final(self).wf(),
            final(self)@ == Map::new(
                |id: Seq<char>| old(self)@.dom().contains(id),
                |id: Seq<char>| closing(old(self)@[id]),
            ),
            final(self).counter() == old(self).counter(),
    {
        let ghost v = self.entries@;
        let mut i: usize = 0;
        while i < self.entries.len()
            invariant
                i <= self.entries@.len() == v.len(),
                self.next == old(self).next,
                forall|j: int| 0 <= j < v.len() ==> (#[trigger] self.entries@[j]).id@ == v[j].id@,
                forall|j: int| i <= j < v.len() ==> #[trigger] self.entries@[j] == v[j],
                forall|j: int|
                    0 <= j < i ==> (#[trigger] self.entries@[j])@ == closing(v[j]@),
            decreases v.len() - i,
        {
            self.close_at(i);
            i += 1;
        }
        proof {
            let w = self.entries@;
            lemma_mapped(v, w);
            let m = Map::new(
                |id: Seq<char>| map_of(v).dom().contains(id),
                |id: Seq<char>| closing(map_of(v)[id]),
            );
            assert forall|id: Seq<char>| holds(w, id) implies map_of(w)[id] == m[id] by {
                let j = place(w, id);
                lemma_entry(w, j);
                lemma_entry(v, j);
            }
            assert(map_of(w) =~= m);
        }
    }
}

impl<C> SessionTable<C> {
    #[verifier::type_invariant]
    spec fn wf(&self) -> bool {
        self.inner.wf()
    }

    /// The sessions, by their ids.
    pub closed spec fn view(&self) -> Map<Seq<char>, SessionView<C>> {
        self.inner.view()
    }

    /// The number of the next session.
    pub closed spec fn counter(&self) -> u64 {
        self.inner.next
    }

    /// A table without sessions.
    pub fn new() -> (r: Self)
        ensures
            r@ == Map::<Seq<char>, SessionView<C>>::empty(),
            r.counter() == 1,
    {
        SessionTable { inner: Entries::new() }
    }

    /// Takes the sessions out, to be put back.
    fn lend(&mut self) -> (r: Entries<C>)
        ensures
            r == old(self).inner,
            r.wf(),
    {
        proof {
            use_type_invariant(&*self);
        }
        let mut inner = Entries::new();
        std::mem::swap(&mut self.inner, &mut inner);
        inner
    }

    /// Drops a session, with all that waits for it.
    pub fn remove(&mut self, id: &str)
        ensures
            final(self)@ == old(self)@.remove(id@),
            final(self).counter() == old(self).counter(),
    {
        let mut inner = self.lend();
        inner.remove(id);
        self.inner = inner;
    }

    /// Lists a session under an id, in place of any that had it.
    pub fn insert(&mut self, id: &str, host_id: &str)
        ensures
            final(self)@ == old(self)@.insert(
                id@,
                SessionView { host_id: host_id@, queue: Seq::empty(), listed: true, open: true },
            ),
            final(self).counter() == old(self).counter(),
    {
        let mut inner = self.lend();
        inner.insert(id, host_id);
        self.inner = inner;
    }

    /// Lists a new session of a host under a new id.
    pub fn register(&mut self, prefix: &str, host_id: &str) -> (r: String)
        ensures
            r@ == session_id(prefix@, old(self).counter()),
            final(self)@ == old(self)@.insert(
                r@,
                SessionView { host_id: host_id@, queue: Seq::empty(), listed: true, open: true },
            ),
            final(self).counter() == number_after(old(self).counter()),
    {
        let mut inner = self.lend();
        let r = inner.register(prefix, host_id);
        self.inner = inner;
        r
    }

    /// Sends a command to a session.
    pub fn post(&mut self, id: &str, c: C) -> (r: Posted)
        ensures
            r == outcome(old(self)@, id@),
            final(self)@ == posted(old(self)@, id@, c),
            final(self).counter() == old(self).counter(),
    {
        let mut inner = self.lend();
        let r = inner.post(id, c);
        self.inner = inner;
        r
    }

    /// Takes the oldest command that waits for a session.
    pub fn take(&mut self, id: &str) -> (r: Taken<C>)
        ensures
            final(self).counter() == old(self).counter(),
            match r {
                Taken::Command(c) => {
                    &&& old(self)@.dom().contains(id@)
                    &&& old(self)@[id@].queue.len() > 0
                    &&& c == old(self)@[id@].queue[0]
                    &&& final(self)@ == old(self)@.insert(
                        id@,
                        SessionView {
                            queue: old(self)@[id@].queue.drop_first(),
                            ..old(self)@[id@]
                        },
                    )
                },
                Taken::Empty => {
                    &&& is_listed(old(self)@, id@)
                    &&& old(self)@[id@].queue.len() == 0
                    &&& final(self)@ == old(self)@
                },
                Taken::Gone => {
                    &&& !is_listed(old(self)@, id@)
                    &&& old(self)@.dom().contains(id@) ==> old(self)@[id@].queue.len() == 0
                    &&& final(self)@ == old(self)@
                },
            },
    {
        let mut inner = self.lend();
        let r = inner.take(id);
        self.inner = inner;
        r
    }

    /// Notes that the worker of a session takes no more commands.
    pub fn hang_up(&mut self, id: &str)
        ensures
            final(self).counter() == old(self).counter(),
            final(self)@ == if old(self)@.dom().contains(id@) {
                old(self)@.insert(id@, SessionView { open: false, ..old(self)@[id@] })
            } else {
                old(self)@
            },
    {
        let mut inner = self.lend();
        inner.hang_up(id);
        self.inner = inner;
    }

    /// Whether a session is listed under an id.
    pub fn is_known(&self, id: &str) -> (r: bool)
        ensures
            r == is_listed(self@, id@),
    {
        proof {
            use_type_invariant(self);
        }
        self.inner.is_known(id)
    }

    /// Whether a session is listed under an id and its worker still listens.
    pub fn is_open(&self, id: &str) -> (r: bool)
        ensures
            r == (outcome(self@, id@) == Posted::Queued),
    {
        proof {
            use_type_invariant(self);
        }
        self.inner.is_open(id)
    }
}

impl<C: Command> SessionTable<C> {
    /// Tells the sessions of a host to end, or all of them.
    pub fn tell(&mut self, host: Option<&str>)
        ensures
            final(self)@ == told(
                old(self)@,
                match host {
                    Some(h) => Some(h@),
                    None => None,
                },
            ),
            final(self).counter() == old(self).counter(),
    {
        let mut inner = self.lend();
        inner.tell(host);
        self.inner = inner;
    }

    /// Tells a session to end and lists it no more.
    pub fn close(&mut self, id: &str)
        ensures
            final(self)@ == if old(self)@.dom().contains(id@) {
                old(self)@.insert(id@, closing(old(self)@[id@]))
            } else {
                old(self)@
            },
            final(self).counter() == old(self).counter(),
    {
        let mut inner = self.lend();
        inner.close(id);
        self.inner = inner;
    }

    /// Tells every session to end and lists none any more.
    pub fn close_all(&mut self)
        ensures
            final(self)@ == Map::new(
                |id: Seq<char>| old(self)@.dom().contains(id),
                |id: Seq<char>| closing(old(self)@[id]),
            ),
            final(self).counter() == old(self).counter(),
    {
        let mut inner = self.lend();
        inner.close_all();
        self.inner = inner;
    }
}

proof fn lemma_mapped<C>(v: Seq<Session<C>>, w: Seq<Session<C>>)
    requires
        distinct(v),
        w.len() == v.len(),
        forall|j: int| 0 <= j < v.len() ==> (#[trigger] w[j]).id@ == v[j].id@,
    ensures
        distinct(w),
        forall|id: Seq<char>| holds(w, id) <==> holds(v, id),
{
    assert forall|a: int, b: int| 0 <= a < b < w.len() implies (#[trigger] w[a]).id@ != (
    #[trigger] w[b]).id@ by {
        assert(v[a].id@ != v[b].id@);
    }
    assert forall|id: Seq<char>| holds(w, id) <==> holds(v, id) by {
        if holds(w, id) {
            let j = place(w, id);
            assert(v[j].id@ == id);
        }
        if holds(v, id) {
            let j = place(v, id);
            assert(w[j].id@ == id);
        }
    }
}

/// Sessions with different numbers have different ids.
pub proof fn law_session_ids_differ(prefix: Seq<char>, a: u64, b: u64)
    requires
        a != b,
    ensures
        session_id(prefix, a) != session_id(prefix, b),
{
    if session_id(prefix, a) == session_id(prefix, b) {
        assert(session_id(prefix, a).skip(prefix.len() as int) =~= text::dec(a as nat));
        assert(session_id(prefix, b).skip(prefix.len() as int) =~= text::dec(b as nat));
        text::lemma_digits_injective(a as nat, b as nat, 10);
    }
}

/// A command for one session leaves every other session as it is.
pub proof fn law_posting_keeps_the_others<C>(
    m: Map<Seq<char>, SessionView<C>>,
    id: Seq<char>,
    c: C,
    other: Seq<char>,
)
    requires
        other != id,
    ensures
        posted(m, id, c).dom().contains(other) == m.dom().contains(other),
        m.dom().contains(other) ==> posted(m, id, c)[other] == m[other],
{
}

/// Commands are taken in the order in which they were sent: the one at hand
/// stays the oldest, and the new one is the last.
pub proof fn law_commands_keep_their_order<C>(
    m: Map<Seq<char>, SessionView<C>>,
    id: Seq<char>,
    c: C,
)
    requires
        outcome(m, id) == Posted::Queued,
    ensures
        posted(m, id, c)[id].queue.drop_last() == m[id].queue,
        posted(m, id, c)[id].queue.last() == c,
        m[id].queue.len() > 0 ==> posted(m, id, c)[id].queue[0] == m[id].queue[0],
{
    assert(posted(m, id, c)[id].queue.drop_last() =~= m[id].queue);
}

/// Disconnecting a host tells exactly its own sessions.
pub proof fn law_only_the_host_is_told<C: Command>(
    m: Map<Seq<char>, SessionView<C>>,
    host: Seq<char>,
    id: Seq<char>,
)
    requires
        m.dom().contains(id),
    ensures
        m[id].host_id != host ==> told(m, Some(host))[id] == m[id],
        m[id].host_id == host && m[id].listed && m[id].open ==> told(m, Some(host))[id].queue.last()
            == C::last_word(),
{
}

/// A session is known by its prefix and its number, in decimal digits.
pub proof fn law_a_session_is_known_by_its_number(prefix: Seq<char>, n: u64)
    ensures
        session_id(prefix, n) == prefix + text::dec(n as nat),
        n < u64::MAX ==> number_after(n) == n + 1,
        n == u64::MAX ==> number_after(n) == 0,
{
}

/// A command is queued where the session is listed and open; a closed session
/// and one that is not there are told apart.
pub proof fn law_only_an_open_session_takes_commands<C>(
    m: Map<Seq<char>, SessionView<C>>,
    id: Seq<char>,
    c: C,
)
    ensures
        ({
            let listed = m.dom().contains(id) && m[id].listed;
            &&& listed && m[id].open <==> outcome(m, id) == Posted::Queued
            &&& listed && !m[id].open <==> outcome(m, id) == Posted::Closed
            &&& !listed <==> outcome(m, id) == Posted::Unknown
            &&& listed && m[id].open ==> posted(m, id, c) == m.insert(
                id,
                SessionView { queue: m[id].queue.push(c), ..m[id] },
            )
            &&& !(listed && m[id].open) ==> posted(m, id, c) == m
        }),
{
}

/// Telling a host's sessions, or all, to end gives each open one among them its
/// last command behind the others; nothing else changes, and no session goes.
pub proof fn law_telling_gives_the_last_command<C: Command>(
    m: Map<Seq<char>, SessionView<C>>,
    host: Option<Seq<char>>,
    id: Seq<char>,
)
    requires
        m.dom().contains(id),
    ensures
        ({
            let s = m[id];
            let meant = s.listed && s.open && (host is None || host == Some(s.host_id));
            &&& told(m, host).dom() == m.dom()
            &&& meant ==> told(m, host)[id] == (SessionView {
                queue: s.queue.push(C::last_word()),
                ..s
            })
            &&& !meant ==> told(m, host)[id] == s
        }),
{
    assert(told(m, host).dom() =~= m.dom());
}

/// A session that is closed is no longer listed; an open one gets its last
/// command behind the others. One that was not listed stays as it is.
pub proof fn law_closing_gives_the_last_command<C: Command>(s: SessionView<C>)
    ensures
        !s.listed ==> closing(s) == s,
        s.listed && s.open ==> closing(s) == (SessionView {
            queue: s.queue.push(C::last_word()),
            listed: false,
            ..s
        }),
        s.listed && !s.open ==> closing(s) == (SessionView { listed: false, ..s }),
{
}

} // verus!
