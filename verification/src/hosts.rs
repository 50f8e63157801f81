//! Saved hosts and the store that keeps them.

use vstd::prelude::*;
use crate::secrets;
use crate::text;
use crate::text::CharClass;
use crate::vault::Keyring;

verus! {

/// How a host wants to be logged in to.
#[derive(Debug)]
pub enum AuthMethod {
    Password { password: Option<String> },
    Key { path: String, passphrase: Option<String> },
    Agent,
}

/// The three kinds of port forward.
#[derive(Debug, Clone, Copy, PartialEq, Eq, Structural)]
pub enum TunnelKind {
    /// -L: local listener, remote target.
    Local,
    /// -R: remote listener, local target.
    Remote,
    /// -D: local SOCKS5 proxy.
    Dynamic,
}

/// A port forward of a host.
#[derive(Debug)]
pub struct Tunnel {
    pub kind: TunnelKind,
    /// Address the listener binds to (local side for local and dynamic,
    /// remote side for remote).
    pub bind: String,
    pub listen_port: u16,
    /// Forward target for local and remote tunnels; unused for dynamic.
    pub target_host: String,
    pub target_port: u16,
}

/// A saved host.
#[derive(Debug)]
pub struct Host {
    pub id: String,
    pub name: String,
    pub host: String,
    pub port: u16,
    pub username: String,
    pub auth: AuthMethod,
    pub x11: bool,
    pub bookmarks: Vec<String>,
    /// Sidebar grouping label; empty means ungrouped.
    pub group: String,
    /// Id of another saved host that the connection goes through.
    pub jump: Option<String>,
    pub tunnels: Vec<Tunnel>,
}

/// What an `AuthMethod` holds.
pub enum AuthView {
    Password { password: Option<Seq<char>> },
    Key { path: Seq<char>, passphrase: Option<Seq<char>> },
    Agent,
}

/// What a `Tunnel` holds.
pub struct TunnelView {
    pub kind: TunnelKind,
    pub bind: Seq<char>,
    pub listen_port: u16,
    pub target_host: Seq<char>,
    pub target_port: u16,
}

/// What a `Host` holds.
pub struct HostView {
    pub id: Seq<char>,
    pub name: Seq<char>,
    pub host: Seq<char>,
    pub port: u16,
    pub username: Seq<char>,
    pub auth: AuthView,
    pub x11: bool,
    pub bookmarks: Seq<Seq<char>>,
    pub group: Seq<char>,
    pub jump: Option<Seq<char>>,
    pub tunnels: Seq<TunnelView>,
}

impl View for AuthMethod {
    type V = AuthView;

    open spec fn view(&self) -> AuthView {
        match *self {
            AuthMethod::Password { password } => AuthView::Password {
                password: text::opt_text(password),
            },
            AuthMethod::Key { path, passphrase } => AuthView::Key {
                path: path@,
                passphrase: text::opt_text(passphrase),
            },
            AuthMethod::Agent => AuthView::Agent,
        }
    }
}

impl View for Tunnel {
    type V = TunnelView;

    open spec fn view(&self) -> TunnelView {
        TunnelView {
            kind: self.kind,
            bind: self.bind@,
            listen_port: self.listen_port,
            target_host: self.target_host@,
            target_port: self.target_port,
        }
    }
}

/// What a list of tunnels holds.
pub open spec fn tunnel_views(v: Seq<Tunnel>) -> Seq<TunnelView> {
    Seq::new(v.len(), |i: int| v[i]@)
}

impl View for Host {
    type V = HostView;

    open spec fn view(&self) -> HostView {
        HostView {
            id: self.id@,
            name: self.name@,
            host: self.host@,
            port: self.port,
            username: self.username@,
            auth: self.auth@,
            x11: self.x11,
            bookmarks: text::texts(self.bookmarks@),
            group: self.group@,
            jump: text::opt_text(self.jump),
            tunnels: tunnel_views(self.tunnels@),
        }
    }
}

/// What a list of hosts holds.
pub open spec fn host_views(v: Seq<Host>) -> Seq<HostView> {
    Seq::new(v.len(), |i: int| v[i]@)
}

impl Clone for AuthMethod {
    fn clone(&self) -> (r: Self)
        ensures
            r@ == self@,
    {
        match self {
            AuthMethod::Password { password } => AuthMethod::Password {
                password: text::copy_opt(password),
            },
            AuthMethod::Key { path, passphrase } => AuthMethod::Key {
                path: path.clone(),
                passphrase: text::copy_opt(passphrase),
            },
            AuthMethod::Agent => AuthMethod::Agent,
        }
    }
}

impl Clone for Tunnel {
    fn clone(&self) -> (r: Self)
        ensures
            r@ == self@,
    {
        Tunnel {
            kind: self.kind,
            bind: self.bind.clone(),
            listen_port: self.listen_port,
            target_host: self.target_host.clone(),
            target_port: self.target_port,
        }
    }
}

fn copy_tunnels(v: &Vec<Tunnel>) -> (r: Vec<Tunnel>)
    ensures
        tunnel_views(r@) == tunnel_views(v@),
{
    let mut out: Vec<Tunnel> = Vec::new();
    let mut i: usize = 0;
    while i < v.len()
        invariant
            i <= v@.len(),
            out@.len() == i,
            forall|j: int| 0 <= j < i ==> (#[trigger] out@[j])@ == v@[j]@,
        decreases v@.len() - i,
    {
        out.push(v[i].clone());
        i += 1;
    }
    assert(tunnel_views(out@) =~= tunnel_views(v@));
    out
}

impl Clone for Host {
    fn clone(&self) -> (r: Self)
        ensures
            r@ == self@,
    {
        Host {
            id: self.id.clone(),
            name: self.name.clone(),
            host: self.host.clone(),
            port: self.port,
            username: self.username.clone(),
            auth: self.auth.clone(),
            x11: self.x11,
            bookmarks: text::copy_strings(&self.bookmarks),
            group: self.group.clone(),
            jump: text::copy_opt(&self.jump),
            tunnels: copy_tunnels(&self.tunnels),
        }
    }
}

/// The address a listener binds to where none is given.
pub fn default_bind() -> (r: String)
    ensures
        r@ == "127.0.0.1"@,
{
    "127.0.0.1".to_owned()
}

/// The first host with the given id.
pub open spec fn first_with_id(hosts: Seq<HostView>, id: Seq<char>) -> Option<HostView>
    decreases hosts.len(),
{
    if hosts.len() == 0 {
        None
    } else if hosts[0].id == id {
        Some(hosts[0])
    } else {
        first_with_id(hosts.drop_first(), id)
    }
}

/// The hosts with another id, in order.
pub open spec fn without_id(hosts: Seq<HostView>, id: Seq<char>) -> Seq<HostView> {
    hosts.filter(|h: HostView| h.id != id)
}

/// The authentication to keep when a host is saved again: a missing secret
/// stands for the one saved before, as long as the kind stays the same.
pub open spec fn merged_auth(new: AuthView, old: AuthView) -> AuthView {
    match (new, old) {
        (AuthView::Password { password: None }, AuthView::Password { password }) => {
            AuthView::Password { password }
        },
        (AuthView::Key { path, passphrase: None }, AuthView::Key { path: _, passphrase }) => {
            AuthView::Key { path, passphrase }
        },
        _ => new,
    }
}

/// A fresh host id, made of the time and of a counter.
pub open spec fn id_text(millis: u128, counter: u64) -> Seq<char> {
    "h"@ + text::hex(millis as nat) + text::hex(counter as nat)
}

/// A host as it is about to be saved: with an id of its own, or with the
/// secret of the host that it replaces.
pub open spec fn prepared(
    hosts: Seq<HostView>,
    counter: u64,
    host: HostView,
    millis: u128,
) -> HostView {
    if host.id.len() == 0 {
        HostView { id: id_text(millis, counter), ..host }
    } else {
        match first_with_id(hosts, host.id) {
            Some(old) => HostView { auth: merged_auth(host.auth, old.auth), ..host },
            None => host,
        }
    }
}

/// The counter after a host was prepared.
pub open spec fn counter_after(counter: u64, host: HostView) -> u64 {
    if host.id.len() == 0 {
        if counter == u64::MAX {
            0
        } else {
            (counter + 1) as u64
        }
    } else {
        counter
    }
}

/// The hosts after one was saved: it replaces those with its id and stands
/// last.
pub open spec fn saved(hosts: Seq<HostView>, host: HostView) -> Seq<HostView> {
    without_id(hosts, host.id).push(host)
}

/// A copy of a host under a new name, with no id yet and with its secret as
/// it was resolved.
pub open spec fn copy_of(host: HostView, secret: Option<Seq<char>>) -> HostView {
    HostView {
        id: Seq::empty(),
        name: host.name + " copy"@,
        auth: match host.auth {
            AuthView::Password { password: _ } => AuthView::Password { password: secret },
            AuthView::Key { path, passphrase: _ } => AuthView::Key { path, passphrase: secret },
            AuthView::Agent => AuthView::Agent,
        },
        ..host
    }
}

/// The secret that an authentication holds.
pub open spec fn secret_of(auth: AuthView) -> Option<Seq<char>> {
    match auth {
        AuthView::Password { password } => password,
        AuthView::Key { path: _, passphrase } => passphrase,
        AuthView::Agent => None,
    }
}

fn merge_auth(new: AuthMethod, old: &AuthMethod) -> (r: AuthMethod)
    ensures
        r@ == merged_auth(new@, old@),
{
    match (new, old) {
        (AuthMethod::Password { password: None }, AuthMethod::Password { password }) => {
            AuthMethod::Password { password: text::copy_opt(password) }
        },
        (AuthMethod::Key { path, passphrase: None }, AuthMethod::Key { path: _, passphrase }) => {
            AuthMethod::Key { path, passphrase: text::copy_opt(passphrase) }
        },
        (new, _) => new,
    }
}

/// The saved hosts, in the order in which they were last saved.
pub struct HostStore {
    hosts: Vec<Host>,
    next_id: u64,
}

impl HostStore {
    /// The hosts that the store holds.
    pub closed spec fn hosts(&self) -> Seq<HostView> {
        host_views(self.hosts@)
    }

    /// The counter that goes into the next id.
    pub closed spec fn counter(&self) -> u64 {
        self.next_id
    }

    /// A store with the hosts that were read, or an empty one where nothing
    /// could be read.
    pub fn load(parsed: Option<Vec<Host>>) -> (r: Self)
        ensures
            r.hosts() == match parsed {
                Some(v) => host_views(v@),
                None => Seq::<HostView>::empty(),
            },
            r.counter() == 1,
    {
        let hosts: Vec<Host> = match parsed {
            Some(v) => v,
            None => Vec::new(),
        };
        assert(parsed is None ==> host_views(hosts@) =~= Seq::<HostView>::empty());
        HostStore { hosts, next_id: 1 }
    }

    /// The saved hosts.
    pub fn list(&self) -> (r: Vec<Host>)
        ensures
            host_views(r@) == self.hosts(),
    {
        let mut out: Vec<Host> = Vec::new();
        let mut i: usize = 0;
        while i < self.hosts.len()
            invariant
                i <= self.hosts@.len(),
                out@.len() == i,
                forall|j: int| 0 <= j < i ==> (#[trigger] out@[j])@ == self.hosts@[j]@,
            decreases self.hosts@.len() - i,
        {
            out.push(self.hosts[i].clone());
            i += 1;
        }
        assert(host_views(out@) =~= self.hosts());
        out
    }

    fn find_index(&self, id: &str) -> (r: Option<usize>)
        ensures
            match r {
                Some(i) => i < self.hosts@.len() && first_with_id(self.hosts(), id@) == Some(
                    self.hosts@[i as int]@,
                ),
                None => first_with_id(self.hosts(), id@) is None,
            },
    {
        let ghost all = self.hosts();
        let mut i: usize = 0;
        assert(all.skip(0) == all);
        while i < self.hosts.len()
            invariant
                i <= self.hosts@.len(),
                all == self.hosts(),
                first_with_id(all.skip(i as int), id@) == first_with_id(all, id@),
            decreases self.hosts@.len() - i,
        {
            assert(all.skip(i as int)[0] == self.hosts@[i as int]@);
            assert(all.skip(i as int).drop_first() == all.skip(i + 1));
            if text::same(self.hosts[i].id.as_str(), id) {
                return Some(i);
            }
            i += 1;
        }
        None
    }

    /// The saved host with the given id; the first one where there are more.
    pub fn get(&self, id: &str) -> (r: Option<Host>)
        ensures
            match r {
                Some(h) => first_with_id(self.hosts(), id@) == Some(h@),
                None => first_with_id(self.hosts(), id@) is None,
            },
    {
        match self.find_index(id) {
            Some(i) => Some(self.hosts[i].clone()),
            None => None,
        }
    }

    /// Makes a host ready to be saved: gives it an id if it has none, and
    /// otherwise fills a missing secret in from the saved host.
    pub fn prepare(&mut self, host: Host, now_millis: u128) -> (r: Host)
        ensures
            r@ == prepared(old(self).hosts(), old(self).counter(), host@, now_millis),
            final(self).hosts() == old(self).hosts(),
            final(self).counter() == counter_after(old(self).counter(), host@),
    {
        let mut host = host;
        if host.id.as_str().is_empty() {
            let mut id: String = "h".to_owned();
            id.append(text::hexadecimal(now_millis).as_str());
            id.append(text::hexadecimal(self.next_id as u128).as_str());
            self.next_id = if self.next_id == u64::MAX {
                0
            } else {
                self.next_id + 1
            };
            host.id = id;
        } else if let Some(i) = self.find_index(host.id.as_str()) {
            host.auth = merge_auth(host.auth, &self.hosts[i].auth);
        }
        host
    }

    /// Drops every saved host with the given id.
    pub fn remove(&mut self, id: &str)
        ensures
            final(self).hosts() == without_id(old(self).hosts(), id@),
            final(self).counter() == old(self).counter(),
    {
        let ghost all = self.hosts();
        let ghost keep = |h: HostView| h.id != id@;
        let n: usize = self.hosts.len();
        let mut i: usize = 0;
        let mut seen: usize = 0;
        proof {
            reveal(Seq::filter);
            assert(self.hosts() =~= all.take(0).filter(keep) + all.skip(0));
        }
        while seen < n
            invariant
                keep == (|h: HostView| h.id != id@),
                seen <= n == all.len(),
                i == all.take(seen as int).filter(keep).len(),
                host_views(self.hosts@) == all.take(seen as int).filter(keep) + all.skip(
                    seen as int,
                ),
                self.next_id == old(self).next_id,
            decreases n - seen,
        {
            let ghost before = self.hosts@;
            proof {
                reveal(Seq::filter);
                assert(all.take(seen + 1).drop_last() == all.take(seen as int));
                assert(all.take(seen + 1).last() == all[seen as int]);
                assert(host_views(before).len() == before.len());
                assert(host_views(before)[i as int] == all[seen as int]);
                assert(before[i as int]@ == all[seen as int]);
            }
            if text::same(self.hosts[i].id.as_str(), id) {
                self.hosts.remove(i);
                assert(host_views(self.hosts@) =~= host_views(before).remove(i as int));
                assert(host_views(self.hosts@) =~= all.take(seen + 1).filter(keep) + all.skip(
                    seen + 1,
                ));
            } else {
                i += 1;
                assert(host_views(self.hosts@) =~= all.take(seen + 1).filter(keep) + all.skip(
                    seen + 1,
                ));
            }
            seen += 1;
        }
        assert(all.take(seen as int) == all);
        assert(self.hosts() =~= without_id(all, id@));
    }

    /// Saves a prepared host whose secret was moved into the keyring or not.
    /// Returns what was saved.
    pub fn finish(&mut self, host: Host, stored: bool) -> (r: Host)
        ensures
            r@ == secrets::protected(host@, stored),
            final(self).hosts() == saved(old(self).hosts(), r@),
            final(self).counter() == old(self).counter(),
    {
        let mut host = host;
        secrets::protect_with(&mut host, stored);
        let id = host.id.clone();
        self.remove(id.as_str());
        let ghost before = self.hosts@;
        let out = host.clone();
        self.hosts.push(host);
        assert(self.hosts() =~= host_views(before).push(out@));
        out
    }

    /// Creates or updates a host: an empty id means a new one, and a missing
    /// secret the one saved before. A secret in the clear goes into the
    /// keyring where there is one. Returns what was saved.
    pub fn upsert(&mut self, k: &mut Keyring, host: Host, now_millis: u128) -> (r: Host)
        ensures
            ({
                let ready = prepared(old(self).hosts(), old(self).counter(), host@, now_millis);
                &&& secrets::offered(ready, old(k).log(), final(k).log())
                &&& r@ == secrets::protected(ready, secrets::taken(ready, final(k).log()))
                &&& final(self).hosts() == saved(old(self).hosts(), r@)
                &&& final(self).counter() == counter_after(old(self).counter(), host@)
            }),
    {
        let ready = self.prepare(host, now_millis);
        let stored = secrets::store_secret_of(k, &ready);
        self.finish(ready, stored)
    }

    /// Saves a copy of a host under a fresh id and name. Its secret is
    /// resolved first, so that the copy gets a keyring entry of its own.
    pub fn duplicate(&mut self, k: &mut Keyring, id: &str, now_millis: u128) -> (r: Result<
        Host,
        String,
    >)
        ensures
            match first_with_id(old(self).hosts(), id@) {
                None => {
                    &&& r matches Err(e) && e@ == "host not found"@
                    &&& final(self).hosts() == old(self).hosts()
                    &&& final(self).counter() == old(self).counter()
                    &&& final(k).log() == old(k).log()
                },
                Some(orig) => {
                    let v = secret_of(orig.auth);
                    let (before, now) = (old(k).log(), final(k).log());
                    let mid = now.take(before.len() + lookups(v));
                    let copy = copy_of(orig, secrets::found(v, mid));
                    let ready = prepared(old(self).hosts(), old(self).counter(), copy, now_millis);
                    &&& secrets::looked_up(v, before, mid)
                    &&& secrets::offered(ready, mid, now)
                    &&& r is Ok
                    &&& r->Ok_0@ == secrets::protected(ready, secrets::taken(ready, now))
                    &&& final(self).hosts() == saved(old(self).hosts(), r->Ok_0@)
                    &&& final(self).counter() == counter_after(old(self).counter(), copy)
                },
            },
    {
        match self.get(id) {
            None => Err("host not found".to_owned()),
            Some(orig) => {
                let ghost before = k.log();
                let secret = secrets::resolve_opt(k, &secret_field(&orig.auth));
                let ghost mid = k.log();
                let copy = duplicate_of(&orig, secret);
                let out = self.upsert(k, copy, now_millis);
                proof {
                    let n = before.len() + lookups(secret_of(orig@.auth));
                    assert(mid.len() == n);
                    if k.log() == mid {
                        assert(k.log().take(n) =~= mid);
                    } else {
                        assert(k.log().take(n) =~= k.log().drop_last());
                    }
                }
                Ok(out)
            },
        }
    }
}

/// How often the keyring is asked for a saved secret.
pub open spec fn lookups(v: Option<Seq<char>>) -> int {
    if secrets::key_to_load(v) is Some {
        1
    } else {
        0
    }
}

/// The secret that an authentication holds.
pub fn secret_field(auth: &AuthMethod) -> (r: Option<String>)
    ensures
        text::opt_text(r) == secret_of(auth@),
{
    match auth {
        AuthMethod::Password { password } => text::copy_opt(password),
        AuthMethod::Key { path: _, passphrase } => text::copy_opt(passphrase),
        AuthMethod::Agent => None,
    }
}

/// A copy of a host, not yet saved, that holds the given secret.
pub fn duplicate_of(host: &Host, secret: Option<String>) -> (r: Host)
    ensures
        r@ == copy_of(host@, text::opt_text(secret)),
{
    let mut copy = host.clone();
    copy.id = String::new();
    copy.name.append(" copy");
    copy.auth = match &host.auth {
        AuthMethod::Password { password: _ } => AuthMethod::Password { password: secret },
        AuthMethod::Key { path, passphrase: _ } => AuthMethod::Key {
            path: path.clone(),
            passphrase: secret,
        },
        AuthMethod::Agent => AuthMethod::Agent,
    };
    copy
}

/// Whether a text is empty or white space.
pub open spec fn blank(s: Seq<char>) -> bool {
    text::trim(s, CharClass::Space).len() == 0
}

fn is_blank(s: &str) -> (r: bool)
    ensures
        r == blank(s@),
{
    let chars = text::chars_of(s);
    text::trim_class(chars.as_slice(), CharClass::Space).len() == 0
}

/// Why a host cannot be saved, if it cannot.
pub open spec fn refusal(host: HostView) -> Option<Seq<char>> {
    if blank(host.name) || blank(host.host) || blank(host.username) {
        Some("name, host and username are required"@)
    } else if host.port == 0 {
        Some("invalid port"@)
    } else {
        None
    }
}

/// Checks what a host needs before it can be saved.
pub fn check_host(host: &Host) -> (r: Result<(), String>)
    ensures
        text::result_text(r) == match refusal(host@) {
            Some(e) => Err::<(), Seq<char>>(e),
            None => Ok(()),
        },
{
    if is_blank(host.name.as_str()) || is_blank(host.host.as_str()) || is_blank(
        host.username.as_str(),
    ) {
        return Err("name, host and username are required".to_owned());
    }
    if host.port == 0 {
        return Err("invalid port".to_owned());
    }
    Ok(())
}

/// Saves a host that has what it needs; otherwise says what is missing and
/// leaves the store as it is.
pub fn save_host(store: &mut HostStore, k: &mut Keyring, host: Host, now_millis: u128) -> (r: Result<
    Host,
    String,
>)
    ensures
        match refusal(host@) {
            Some(e) => {
                &&& r matches Err(m) && m@ == e
                &&& final(k).log() == old(k).log()
                &&& final(store).hosts() == old(store).hosts()
                &&& final(store).counter() == old(store).counter()
            },
            None => {
                let ready = prepared(old(store).hosts(), old(store).counter(), host@, now_millis);
                &&& r is Ok
                &&& secrets::offered(ready, old(k).log(), final(k).log())
                &&& r->Ok_0@ == secrets::protected(ready, secrets::taken(ready, final(k).log()))
                &&& final(store).hosts() == saved(old(store).hosts(), r->Ok_0@)
                &&& final(store).counter() == counter_after(old(store).counter(), host@)
            },
        },
{
    match check_host(&host) {
        Ok(()) => Ok(store.upsert(k, host, now_millis)),
        Err(e) => Err(e),
    }
}

/// The saved host with the given id, which has to be there.
pub fn require_host(store: &HostStore, id: &str) -> (r: Result<Host, String>)
    ensures
        match first_with_id(store.hosts(), id@) {
            Some(h) => r is Ok && r->Ok_0@ == h,
            None => r is Err && r->Err_0@ == "host not found"@,
        },
{
    match store.get(id) {
        Some(h) => Ok(h),
        None => Err("host not found".to_owned()),
    }
}

/// The host that connections to `host` go through, with the secret for it.
pub fn resolve_jump(store: &HostStore, host: &Host, jump_secret: Option<String>) -> (r: Option<
    (Host, Option<String>),
>)
    ensures
        match host@.jump {
            None => r is None,
            Some(id) => match first_with_id(store.hosts(), id) {
                None => r is None,
                Some(jh) => r is Some && r->Some_0.0@ == jh && text::opt_text(r->Some_0.1)
                    == text::opt_text(jump_secret),
            },
        },
{
    match &host.jump {
        None => None,
        Some(id) => match store.get(id.as_str()) {
            None => None,
            Some(jh) => Some((jh, jump_secret)),
        },
    }
}

proof fn lemma_first_pushed(hosts: Seq<HostView>, host: HostView, id: Seq<char>)
    ensures
        first_with_id(hosts.push(host), id) == match first_with_id(hosts, id) {
            Some(h) => Some(h),
            None => if host.id == id {
                Some(host)
            } else {
                None
            },
        },
    decreases hosts.len(),
{
    reveal_with_fuel(first_with_id, 2);
    if hosts.len() > 0 {
        assert(hosts.push(host).drop_first() == hosts.drop_first().push(host));
        lemma_first_pushed(hosts.drop_first(), host, id);
    } else {
        assert(hosts.push(host).drop_first() =~= Seq::<HostView>::empty());
    }
}

proof fn lemma_first_without(hosts: Seq<HostView>, gone: Seq<char>, id: Seq<char>)
    ensures
        first_with_id(without_id(hosts, gone), id) == if id == gone {
            None::<HostView>
        } else {
            first_with_id(hosts, id)
        },
    decreases hosts.len(),
{
    reveal(Seq::filter);
    let keep = |h: HostView| h.id != gone;
    if hosts.len() > 0 {
        let init = hosts.drop_last();
        lemma_first_without(init, gone, id);
        assert(hosts == init.push(hosts.last()));
        lemma_first_pushed(init, hosts.last(), id);
        lemma_first_pushed(without_id(init, gone), hosts.last(), id);
    }
}

/// A saved host is the one that its id then finds.
pub proof fn law_saved_is_found(hosts: Seq<HostView>, host: HostView)
    ensures
        first_with_id(saved(hosts, host), host.id) == Some(host),
{
    lemma_first_without(hosts, host.id, host.id);
    lemma_first_pushed(without_id(hosts, host.id), host, host.id);
}

/// Saving a host does not change what any other id finds.
pub proof fn law_saving_keeps_the_others(hosts: Seq<HostView>, host: HostView, id: Seq<char>)
    requires
        id != host.id,
    ensures
        first_with_id(saved(hosts, host), id) == first_with_id(hosts, id),
{
    lemma_first_without(hosts, host.id, id);
    lemma_first_pushed(without_id(hosts, host.id), host, id);
}

/// A removed id finds nothing, and every other id what it found before.
pub proof fn law_removed_is_gone(hosts: Seq<HostView>, gone: Seq<char>, id: Seq<char>)
    ensures
        first_with_id(without_id(hosts, gone), gone) is None,
        id != gone ==> first_with_id(without_id(hosts, gone), id) == first_with_id(hosts, id),
{
    lemma_first_without(hosts, gone, gone);
    lemma_first_without(hosts, gone, id);
}

/// Whether no two hosts share an id.
pub open spec fn unique_ids(hosts: Seq<HostView>) -> bool {
    forall|i: int, j: int|
        0 <= i < j < hosts.len() ==> (#[trigger] hosts[i]).id != (#[trigger] hosts[j]).id
}

proof fn lemma_without_members(hosts: Seq<HostView>, id: Seq<char>)
    ensures
        unique_ids(hosts) ==> unique_ids(without_id(hosts, id)),
        forall|i: int|
            0 <= i < without_id(hosts, id).len() ==> (#[trigger] without_id(hosts, id)[i]).id != id,
        forall|i: int|
            0 <= i < without_id(hosts, id).len() ==> hosts.contains(
                #[trigger] without_id(hosts, id)[i],
            ),
    decreases hosts.len(),
{
    reveal(Seq::filter);
    if hosts.len() > 0 {
        let init = hosts.drop_last();
        lemma_without_members(init, id);
        let kept = without_id(init, id);
        let out = without_id(hosts, id);
        assert(hosts[hosts.len() - 1] == hosts.last());
        assert forall|i: int| 0 <= i < out.len() implies hosts.contains(#[trigger] out[i]) by {
            if i < kept.len() {
                assert(out[i] == kept[i]);
                let k = choose|k: int| 0 <= k < init.len() && init[k] == kept[i];
                assert(hosts[k] == kept[i]);
            }
        }
        if unique_ids(hosts) {
            assert forall|i: int, j: int| 0 <= i < j < init.len() implies (#[trigger] init[i]).id
                != (#[trigger] init[j]).id by {
                assert(hosts[i] == init[i] && hosts[j] == init[j]);
            }
            assert forall|i: int, j: int| 0 <= i < j < out.len() implies (#[trigger] out[i]).id
                != (#[trigger] out[j]).id by {
                assert(out[i] == kept[i]);
                if j == kept.len() {
                    let k = choose|k: int| 0 <= k < init.len() && init[k] == kept[i];
                    assert(hosts[k] == kept[i]);
                } else {
                    assert(out[j] == kept[j]);
                }
            }
        }
    }
}

/// Saving a host keeps ids unique.
pub proof fn law_saving_keeps_ids_unique(hosts: Seq<HostView>, host: HostView)
    requires
        unique_ids(hosts),
    ensures
        unique_ids(saved(hosts, host)),
{
    lemma_without_members(hosts, host.id);
    let kept = without_id(hosts, host.id);
    let out = saved(hosts, host);
    assert forall|i: int, j: int| 0 <= i < j < out.len() implies (#[trigger] out[i]).id
        != (#[trigger] out[j]).id by {
        assert(out[i] == kept[i]);
        if j < kept.len() {
            assert(out[j] == kept[j]);
        }
    }
}

/// Removing a host keeps ids unique.
pub proof fn law_removing_keeps_ids_unique(hosts: Seq<HostView>, id: Seq<char>)
    requires
        unique_ids(hosts),
    ensures
        unique_ids(without_id(hosts, id)),
{
    lemma_without_members(hosts, id);
}

/// Saving the same host twice is the same as saving it once.
pub proof fn law_saving_twice_is_saving_once(hosts: Seq<HostView>, host: HostView)
    ensures
        saved(saved(hosts, host), host) == saved(hosts, host),
{
    reveal(Seq::filter);
    let once = saved(hosts, host);
    assert(once.drop_last() =~= without_id(hosts, host.id));
    lemma_without_members(hosts, host.id);
    lemma_without_is_kept(without_id(hosts, host.id), host.id);
    assert(without_id(once, host.id) == without_id(hosts, host.id));
}

proof fn lemma_without_is_kept(hosts: Seq<HostView>, id: Seq<char>)
    requires
        forall|i: int| 0 <= i < hosts.len() ==> (#[trigger] hosts[i]).id != id,
    ensures
        without_id(hosts, id) == hosts,
    decreases hosts.len(),
{
    reveal(Seq::filter);
    if hosts.len() > 0 {
        let init = hosts.drop_last();
        assert forall|i: int| 0 <= i < init.len() implies (#[trigger] init[i]).id != id by {
            assert(init[i] == hosts[i]);
        }
        assert(hosts[hosts.len() - 1].id != id);
        lemma_without_is_kept(init, id);
        assert(init.push(hosts.last()) =~= hosts);
    }
}

/// Saving a host again without a secret keeps the secret that was saved, as
/// long as the kind of authentication stays the same.
pub proof fn law_a_missing_secret_is_kept(
    hosts: Seq<HostView>,
    counter: u64,
    host: HostView,
    old: HostView,
    millis: u128,
)
    requires
        host.id.len() > 0,
        first_with_id(hosts, host.id) == Some(old),
        secret_of(host.auth) is None,
        host.auth is Password <==> old.auth is Password,
        host.auth is Key <==> old.auth is Key,
    ensures
        secret_of(prepared(hosts, counter, host, millis).auth) == secret_of(old.auth),
{
}

/// A secret that is given replaces the saved one.
pub proof fn law_a_given_secret_wins(
    hosts: Seq<HostView>,
    counter: u64,
    host: HostView,
    millis: u128,
)
    requires
        secret_of(host.auth) is Some,
    ensures
        prepared(hosts, counter, host, millis).auth == host.auth,
{
}

/// A fresh id is not empty, so that the host it was given to is found again.
pub proof fn law_fresh_ids_are_not_empty(millis: u128, counter: u64)
    ensures
        id_text(millis, counter).len() > 0,
{
    reveal_strlit("h");
}

/// Ids made in the same millisecond differ as long as the counter does.
pub proof fn law_fresh_ids_differ(millis: u128, a: u64, b: u64)
    requires
        a != b,
    ensures
        id_text(millis, a) != id_text(millis, b),
{
    let stem = "h"@ + text::hex(millis as nat);
    if id_text(millis, a) == id_text(millis, b) {
        assert(id_text(millis, a).skip(stem.len() as int) =~= text::hex(a as nat));
        assert(id_text(millis, b).skip(stem.len() as int) =~= text::hex(b as nat));
        text::lemma_digits_injective(a as nat, b as nat, 16);
    }
}

proof fn lemma_nothing_filtered(hosts: Seq<HostView>, id: Seq<char>)
    requires
        forall|i: int| 0 <= i < hosts.len() ==> (#[trigger] hosts[i]).id != id,
    ensures
        without_id(hosts, id) == hosts,
    decreases hosts.len(),
{
    reveal(Seq::filter);
    if hosts.len() > 0 {
        let init = hosts.drop_last();
        assert forall|i: int| 0 <= i < init.len() implies (#[trigger] init[i]).id != id by {
            assert(init[i] == hosts[i]);
        }
        lemma_nothing_filtered(init, id);
        assert(hosts[hosts.len() - 1].id != id);
        assert(init.push(hosts.last()) =~= hosts);
    } else {
        assert(without_id(hosts, id) =~= hosts);
    }
}

/// A copy of a host gets the fresh id and a name of its own, and stands behind
/// the other hosts, which stay as they are. The time and the counter must not
/// spell an id that is saved already.
pub proof fn law_a_copy_stands_behind_the_others(
    hosts: Seq<HostView>,
    counter: u64,
    orig: HostView,
    secret: Option<Seq<char>>,
    millis: u128,
    stored: bool,
)
    requires
        forall|i: int|
            0 <= i < hosts.len() ==> (#[trigger] hosts[i]).id != id_text(millis, counter),
    ensures
        ({
            let ready = prepared(hosts, counter, copy_of(orig, secret), millis);
            let copy = secrets::protected(ready, stored);
            &&& copy.id == id_text(millis, counter)
            &&& copy.name == orig.name + " copy"@
            &&& saved(hosts, copy) == hosts.push(copy)
        }),
{
    lemma_nothing_filtered(hosts, id_text(millis, counter));
}

/// Preparing a host changes nothing but an empty id and a missing secret: the
/// way to log in stays, a key keeps its own path whatever was saved before,
/// and every other field is that of the given host.
pub proof fn law_preparing_changes_little(
    hosts: Seq<HostView>,
    counter: u64,
    host: HostView,
    millis: u128,
)
    ensures
        ({
            let r = prepared(hosts, counter, host, millis);
            &&& r.name == host.name
            &&& r.host == host.host
            &&& r.port == host.port
            &&& r.username == host.username
            &&& r.x11 == host.x11
            &&& r.bookmarks == host.bookmarks
            &&& r.group == host.group
            &&& r.jump == host.jump
            &&& r.tunnels == host.tunnels
            &&& host.id.len() > 0 ==> r.id == host.id
            &&& host.id.len() == 0 ==> r.id == "h"@ + text::hex(millis as nat) + text::hex(
                counter as nat,
            )
            &&& host.id.len() == 0 ==> r.auth == host.auth
            &&& match host.auth {
                AuthView::Password { password } => r.auth is Password && (password is Some
                    ==> r.auth == host.auth),
                AuthView::Key { path, passphrase } => r.auth is Key && r.auth->path == path && (
                passphrase is Some ==> r.auth == host.auth),
                AuthView::Agent => r.auth is Agent,
            }
        }),
{
}

/// A secret comes only from the saved host of the same id, and only where both
/// log in the same way.
pub proof fn law_a_secret_comes_from_its_own_host(
    hosts: Seq<HostView>,
    counter: u64,
    host: HostView,
    millis: u128,
)
    requires
        forall|i: int|
            0 <= i < hosts.len() && (#[trigger] hosts[i]).id == host.id ==> {
                &&& !(host.auth is Password && hosts[i].auth is Password)
                &&& !(host.auth is Key && hosts[i].auth is Key)
            },
    ensures
        prepared(hosts, counter, host, millis).auth == host.auth,
{
    lemma_first(hosts, host.id);
}

proof fn lemma_first(hosts: Seq<HostView>, id: Seq<char>)
    ensures
        first_with_id(hosts, id) matches Some(h) ==> exists|i: int|
            0 <= i < hosts.len() && #[trigger] hosts[i] == h && h.id == id && (forall|j: int|
                0 <= j < i ==> (#[trigger] hosts[j]).id != id),
        first_with_id(hosts, id) is None <==> (forall|j: int|
            0 <= j < hosts.len() ==> (#[trigger] hosts[j]).id != id),
    decreases hosts.len(),
{
    if hosts.len() > 0 {
        let rest = hosts.drop_first();
        assert(forall|j: int| 0 < j < hosts.len() ==> #[trigger] hosts[j] == rest[j - 1]);
        assert(forall|j: int| 0 <= j < rest.len() ==> #[trigger] rest[j] == hosts[j + 1]);
        if hosts[0].id == id {
            assert(hosts[0] == first_with_id(hosts, id)->Some_0);
        } else {
            lemma_first(rest, id);
            if first_with_id(rest, id) is Some {
                let h = first_with_id(rest, id)->Some_0;
                let i = choose|i: int|
                    0 <= i < rest.len() && #[trigger] rest[i] == h && h.id == id && (forall|j: int|
                        0 <= j < i ==> (#[trigger] rest[j]).id != id);
                assert(hosts[i + 1] == h);
                assert forall|j: int| 0 <= j < i + 1 implies (#[trigger] hosts[j]).id != id by {
                    if j > 0 {
                        assert(rest[j - 1].id != id);
                    }
                }
            }
        }
    }
}

/// A host is looked up by its id: the first one that has it is found, and none
/// exactly if none has it.
pub proof fn law_the_first_with_an_id_is_found(hosts: Seq<HostView>, id: Seq<char>, i: int)
    ensures
        0 <= i < hosts.len() && hosts[i].id == id && (forall|j: int|
            0 <= j < i ==> (#[trigger] hosts[j]).id != id) ==> first_with_id(hosts, id) == Some(
            hosts[i],
        ),
        (forall|j: int| 0 <= j < hosts.len() ==> (#[trigger] hosts[j]).id != id)
            <==> first_with_id(hosts, id) is None,
{
    lemma_first(hosts, id);
}

/// A saved host comes last, as it is, and the others stay in their order: a
/// list without the id only grows by the host.
pub proof fn law_a_saved_host_comes_last(hosts: Seq<HostView>, host: HostView)
    ensures
        saved(hosts, host).last() == host,
        saved(hosts, host).drop_last() == hosts.filter(|h: HostView| h.id != host.id),
        first_with_id(hosts, host.id) is None ==> saved(hosts, host) == hosts.push(host),
{
    let r = saved(hosts, host);
    assert(r.drop_last() =~= without_id(hosts, host.id));
    lemma_first(hosts, host.id);
    if first_with_id(hosts, host.id) is None {
        lemma_filter_all(hosts, host.id);
    }
}

proof fn lemma_filter_all(hosts: Seq<HostView>, id: Seq<char>)
    requires
        forall|j: int| 0 <= j < hosts.len() ==> (#[trigger] hosts[j]).id != id,
    ensures
        without_id(hosts, id) == hosts,
    decreases hosts.len(),
{
    reveal(Seq::filter);
    if hosts.len() > 0 {
        assert(hosts[hosts.len() - 1].id != id);
        lemma_filter_all(hosts.drop_last(), id);
        assert(hosts.drop_last().push(hosts.last()) =~= hosts);
    }
}

/// A copy has everything that its model has, but for the id, a name that says
/// what it is, and the secret that it is given; the agent needs none.
pub proof fn law_a_copy_is_like_its_model(host: HostView, secret: Option<Seq<char>>)
    ensures
        ({
            let c = copy_of(host, secret);
            &&& c.id.len() == 0
            &&& c.name == host.name + " copy"@
            &&& c == (HostView { id: c.id, name: c.name, auth: c.auth, ..host })
            &&& host.auth is Password ==> c.auth == (AuthView::Password { password: secret })
            &&& host.auth is Key ==> c.auth == (AuthView::Key {
                path: host.auth->path,
                passphrase: secret,
            })
            &&& host.auth is Agent ==> c.auth == AuthView::Agent
        }),
{
}

/// The secret of a host is its password or the passphrase of its key.
pub proof fn law_each_way_has_its_secret(path: Seq<char>, secret: Option<Seq<char>>)
    ensures
        secret_of(AuthView::Password { password: secret }) == secret,
        secret_of(AuthView::Key { path, passphrase: secret }) == secret,
        secret_of(AuthView::Agent) is None,
{
}

/// The counter behind fresh ids goes on by one for every host without an id,
/// and begins anew after the last number; no other host moves it.
pub proof fn law_the_counter_moves_for_fresh_ids(counter: u64, host: HostView)
    ensures
        host.id.len() > 0 ==> counter_after(counter, host) == counter,
        host.id.len() == 0 && counter < u64::MAX ==> counter_after(counter, host) == counter + 1,
        host.id.len() == 0 && counter == u64::MAX ==> counter_after(counter, host) == 0,
{
}

/// A host is refused if its name, its address or its user is missing or holds
/// nothing but spaces, and if it has no port; every other host is accepted.
pub proof fn law_incomplete_hosts_are_refused(host: HostView)
    ensures
        ({
            let incomplete = text::all_spaces(host.name) || text::all_spaces(host.host)
                || text::all_spaces(host.username);
            &&& incomplete ==> refusal(host) == Some("name, host and username are required"@)
            &&& !incomplete && host.port == 0 ==> refusal(host) == Some("invalid port"@)
            &&& !incomplete && host.port != 0 ==> refusal(host) is None
        }),
{
    text::law_only_spaces_trim_to_nothing(host.name);
    text::law_only_spaces_trim_to_nothing(host.host);
    text::law_only_spaces_trim_to_nothing(host.username);
}

/// Removing an id takes every host that has it and leaves the others, in their
/// order.
pub proof fn law_removing_leaves_the_rest(hosts: Seq<HostView>, host: HostView, id: Seq<char>)
    ensures
        without_id(Seq::empty(), id).len() == 0,
        host.id == id ==> without_id(hosts.push(host), id) == without_id(hosts, id),
        host.id != id ==> without_id(hosts.push(host), id) == without_id(hosts, id).push(host),
{
    reveal(Seq::filter);
    assert(hosts.push(host).drop_last() =~= hosts);
}

/// A host stands for all of its fields: two hosts that are the same to the
/// library have the same texts, the same way to log in and the same tunnels.
pub proof fn law_a_host_stands_for_its_fields(h: Host, t: Tunnel, hosts: Seq<Host>, i: int)
    ensures
        h@.id == h.id@,
        h@.name == h.name@,
        h@.host == h.host@,
        h@.port == h.port,
        h@.username == h.username@,
        h@.x11 == h.x11,
        h@.group == h.group@,
        h@.jump == text::opt_text(h.jump),
        h@.bookmarks == text::texts(h.bookmarks@),
        h@.tunnels.len() == h.tunnels@.len(),
        0 <= i < h.tunnels@.len() ==> h@.tunnels[i] == h.tunnels@[i]@,
        match h.auth {
            AuthMethod::Password { password } => h@.auth == (AuthView::Password {
                password: text::opt_text(password),
            }),
            AuthMethod::Key { path, passphrase } => h@.auth == (AuthView::Key {
                path: path@,
                passphrase: text::opt_text(passphrase),
            }),
            AuthMethod::Agent => h@.auth == AuthView::Agent,
        },
        t@.kind == t.kind,
        t@.bind == t.bind@,
        t@.listen_port == t.listen_port,
        t@.target_host == t.target_host@,
        t@.target_port == t.target_port,
        host_views(hosts).len() == hosts.len(),
        0 <= i < hosts.len() ==> host_views(hosts)[i] == hosts[i]@,
{
}

/// To copy a host the keyring is asked for one entry where the secret is a
/// marker, and for none where it is not.
pub proof fn law_a_copy_looks_up_a_marker(secret: Seq<char>)
    ensures
        lookups(None) == 0,
        "keyring:"@.is_prefix_of(secret) ==> lookups(Some(secret)) == 1,
        !"keyring:"@.is_prefix_of(secret) ==> lookups(Some(secret)) == 0,
{
}

} // verus!
