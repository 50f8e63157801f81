//! Secrets in the OS keyring.
//!
//! A saved host then holds only a `keyring:<host>:<field>` marker. Where no
//! keyring can be reached the secret stays in the clear.

use vstd::prelude::*;
use crate::hosts;
use crate::hosts::{AuthMethod, Host};
use crate::text;
use crate::vault;
use crate::vault::{CallView, Exchange, Keyring, KeyringCall, KeyringReply, ReplyView};

verus! {

/// The service that keyring entries are filed under.
pub const SERVICE: &'static str = "dev.sshworkspace";

/// What a marker starts with.
pub const MARKER_PREFIX: &'static str = "keyring:";

/// Whether a saved secret is a marker.
pub open spec fn is_marker(s: Seq<char>) -> bool {
    "keyring:"@.is_prefix_of(s)
}

/// The name of a keyring entry.
pub open spec fn key_text(host_id: Seq<char>, field: Seq<char>) -> Seq<char> {
    host_id + ":"@ + field
}

/// The marker that stands for a keyring entry.
pub open spec fn marker_text(host_id: Seq<char>, field: Seq<char>) -> Seq<char> {
    "keyring:"@ + key_text(host_id, field)
}

/// The name of the keyring entry that a marker stands for.
pub open spec fn marker_key(marker: Seq<char>) -> Seq<char> {
    marker.skip("keyring:"@.len() as int)
}

/// The name of a keyring entry.
pub fn key(host_id: &str, field: &str) -> (r: String)
    ensures
        r@ == key_text(host_id@, field@),
{
    let mut out: String = host_id.to_owned();
    out.append(":");
    out.append(field);
    out
}

/// Whether a saved secret is a marker.
pub fn has_marker(s: &str) -> (r: bool)
    ensures
        r == is_marker(s@),
{
    let chars = text::chars_of(s);
    text::starts_with(chars.as_slice(), MARKER_PREFIX)
}

/// The request that files a secret of a host.
pub open spec fn store_request(host_id: Seq<char>, field: Seq<char>, value: Seq<char>) -> CallView {
    KeyringCall::Store { service: SERVICE@, user: key_text(host_id, field), password: value }
}

/// The request that looks an entry up.
pub open spec fn load_request(user: Seq<char>) -> CallView {
    KeyringCall::Load { service: SERVICE@, user }
}

/// The request that drops an entry.
pub open spec fn delete_request(user: Seq<char>) -> CallView {
    KeyringCall::Delete { service: SERVICE@, user }
}

/// The request that files a secret of a host.
pub fn store_call(host_id: &str, field: &str, value: &str) -> (r: KeyringCall<String>)
    ensures
        r@ == store_request(host_id@, field@, value@),
{
    KeyringCall::Store {
        service: SERVICE.to_owned(),
        user: key(host_id, field),
        password: value.to_owned(),
    }
}

/// The request that looks an entry up.
pub fn load_call(user: &str) -> (r: KeyringCall<String>)
    ensures
        r@ == load_request(user@),
{
    KeyringCall::Load { service: SERVICE.to_owned(), user: user.to_owned() }
}

/// The request that drops an entry.
pub fn delete_call(user: &str) -> (r: KeyringCall<String>)
    ensures
        r@ == delete_request(user@),
{
    KeyringCall::Delete { service: SERVICE.to_owned(), user: user.to_owned() }
}

/// What to save of a secret that was offered to the keyring, given its reply:
/// the marker, where the keyring took it.
pub open spec fn saved_form(host_id: Seq<char>, field: Seq<char>, reply: ReplyView) -> Option<
    Seq<char>,
> {
    match reply {
        KeyringReply::Done => Some(marker_text(host_id, field)),
        _ => None,
    }
}

/// What to save of a secret that was offered to the keyring: the marker, where
/// the keyring took it.
pub fn stored_as(host_id: &str, field: &str, reply: &KeyringReply<String>) -> (r: Option<String>)
    ensures
        text::opt_text(r) == saved_form(host_id@, field@, reply@),
{
    match reply {
        KeyringReply::Done => {
            let mut marker: String = MARKER_PREFIX.to_owned();
            marker.append(key(host_id, field).as_str());
            Some(marker)
        },
        _ => None,
    }
}

/// Files a secret in the keyring. Gives the marker to save, or nothing where
/// no keyring took it.
pub fn store(k: &mut Keyring, host_id: &str, field: &str, value: &str) -> (r: Option<String>)
    ensures
        vault::asked(old(k).log(), final(k).log(), store_request(host_id@, field@, value@)),
        text::opt_text(r) == saved_form(host_id@, field@, vault::said(final(k).log())),
{
    let reply = k.ask(&store_call(host_id, field, value));
    stored_as(host_id, field, &reply)
}

/// The keyring entry to look up for a saved secret: that of a marker.
pub open spec fn key_to_load(v: Option<Seq<char>>) -> Option<Seq<char>> {
    match v {
        Some(s) => if is_marker(s) {
            Some(marker_key(s))
        } else {
            None
        },
        None => None,
    }
}

/// The keyring entry to look up for a saved secret, if it is a marker.
pub fn lookup_key(v: &Option<String>) -> (r: Option<String>)
    ensures
        text::opt_text(r) == key_to_load(text::opt_text(*v)),
{
    match v {
        Some(s) => if has_marker(s.as_str()) {
            let chars = text::chars_of(s.as_str());
            let n: usize = MARKER_PREFIX.unicode_len();
            let rest = vstd::slice::slice_subrange(chars.as_slice(), n, chars.len());
            assert(rest@ =~= marker_key(s@));
            Some(text::string_of(rest))
        } else {
            None
        },
        None => None,
    }
}

/// The secret behind a saved one: what the keyring gave for a marker, and
/// anything else as it is.
pub open spec fn resolved(v: Option<Seq<char>>, loaded: Option<Seq<char>>) -> Option<Seq<char>> {
    match v {
        Some(s) => if is_marker(s) {
            loaded
        } else {
            v
        },
        None => None,
    }
}

/// The secret behind a saved one, given what the keyring said.
pub fn resolve_with(v: &Option<String>, loaded: Option<String>) -> (r: Option<String>)
    ensures
        text::opt_text(r) == resolved(text::opt_text(*v), text::opt_text(loaded)),
{
    match v {
        Some(s) => if has_marker(s.as_str()) {
            loaded
        } else {
            Some(s.clone())
        },
        None => None,
    }
}

/// The secret that a reply holds, if any.
pub open spec fn secret_in(reply: ReplyView) -> Option<Seq<char>> {
    match reply {
        KeyringReply::Secret(p) => Some(p),
        _ => None,
    }
}

/// The secret that the keyring gave, if any.
pub fn loaded(reply: KeyringReply<String>) -> (r: Option<String>)
    ensures
        text::opt_text(r) == secret_in(reply@),
{
    match reply {
        KeyringReply::Secret(p) => Some(p),
        _ => None,
    }
}

/// Whether the keyring was asked for a saved secret, and for nothing else,
/// between two records: once for a marker, and not at all for anything else.
pub open spec fn looked_up(
    v: Option<Seq<char>>,
    before: Seq<Exchange>,
    now: Seq<Exchange>,
) -> bool {
    match key_to_load(v) {
        Some(user) => vault::asked(before, now, load_request(user)),
        None => now == before,
    }
}

/// The secret behind a saved one, given the record after it was looked up.
pub open spec fn found(v: Option<Seq<char>>, now: Seq<Exchange>) -> Option<Seq<char>> {
    resolved(v, secret_in(vault::said(now)))
}

/// The secret behind a saved one: the keyring's for a marker, and anything
/// else as it is.
pub fn resolve_opt(k: &mut Keyring, v: &Option<String>) -> (r: Option<String>)
    ensures
        looked_up(text::opt_text(*v), old(k).log(), final(k).log()),
        text::opt_text(r) == found(text::opt_text(*v), final(k).log()),
{
    let reply = match lookup_key(v) {
        Some(user) => loaded(k.ask(&load_call(user.as_str()))),
        None => None,
    };
    resolve_with(v, reply)
}

/// The field of a host that holds its secret.
pub open spec fn secret_name(auth: hosts::AuthView) -> Seq<char> {
    match auth {
        hosts::AuthView::Password { password: _ } => "password"@,
        _ => "passphrase"@,
    }
}

/// The secret of a host that is still in the clear, if it has one.
pub open spec fn clear_secret(host: hosts::HostView) -> Option<Seq<char>> {
    match hosts::secret_of(host.auth) {
        Some(v) => if v.len() > 0 && !is_marker(v) {
            Some(v)
        } else {
            None
        },
        None => None,
    }
}

/// The authentication with the given secret in place of its own.
pub open spec fn with_secret(
    auth: hosts::AuthView,
    secret: Seq<char>,
) -> hosts::AuthView {
    match auth {
        hosts::AuthView::Password { password: _ } => hosts::AuthView::Password {
            password: Some(secret),
        },
        hosts::AuthView::Key { path, passphrase: _ } => hosts::AuthView::Key {
            path,
            passphrase: Some(secret),
        },
        hosts::AuthView::Agent => hosts::AuthView::Agent,
    }
}

/// A host after its secret was offered to the keyring, which took it or not.
pub open spec fn protected(
    host: hosts::HostView,
    stored: bool,
) -> hosts::HostView {
    if stored && clear_secret(host) is Some {
        hosts::HostView {
            auth: with_secret(host.auth, marker_text(host.id, secret_name(host.auth))),
            ..host
        }
    } else {
        host
    }
}

/// What to file in the keyring for a host: the field and the secret.
pub fn secret_to_store(host: &Host) -> (r: Option<(String, String)>)
    ensures
        match r {
            Some(p) => clear_secret(host@) == Some(p.1@) && p.0@ == secret_name(host@.auth),
            None => clear_secret(host@) is None,
        },
{
    let (field, slot) = match &host.auth {
        AuthMethod::Password { password } => ("password", password),
        AuthMethod::Key { path: _, passphrase } => ("passphrase", passphrase),
        AuthMethod::Agent => return None,
    };
    match slot {
        Some(v) => if !v.as_str().is_empty() && !has_marker(v.as_str()) {
            Some((field.to_owned(), v.clone()))
        } else {
            None
        },
        None => None,
    }
}

/// Replaces a secret that the keyring took by its marker.
pub fn protect_with(host: &mut Host, stored: bool)
    ensures
        final(host)@ == protected(old(host)@, stored),
{
    if !stored {
        return ;
    }
    if let Some((field, _)) = secret_to_store(host) {
        let mut marker: String = MARKER_PREFIX.to_owned();
        marker.append(key(host.id.as_str(), field.as_str()).as_str());
        match &mut host.auth {
            AuthMethod::Password { password } => {
                *password = Some(marker);
            },
            AuthMethod::Key { path: _, passphrase } => {
                *passphrase = Some(marker);
            },
            AuthMethod::Agent => {},
        }
    }
}

/// Whether the secret of a host was offered to the keyring, and nothing else
/// asked, between two records: once where it is in the clear, and not at all
/// otherwise.
pub open spec fn offered(
    host: hosts::HostView,
    before: Seq<Exchange>,
    now: Seq<Exchange>,
) -> bool {
    match clear_secret(host) {
        Some(v) => vault::asked(
            before,
            now,
            store_request(host.id, secret_name(host.auth), v),
        ),
        None => now == before,
    }
}

/// Whether the keyring took the secret of a host, given the record after it
/// was offered.
pub open spec fn taken(host: hosts::HostView, now: Seq<Exchange>) -> bool {
    clear_secret(host) is Some && vault::said(now) is Done
}

/// Files the secret of a host in the keyring. Says whether the keyring took
/// one; a host without a secret in the clear has none to take.
pub fn store_secret_of(k: &mut Keyring, host: &Host) -> (r: bool)
    ensures
        offered(host@, old(k).log(), final(k).log()),
        r == taken(host@, final(k).log()),
{
    match secret_to_store(host) {
        Some((field, value)) => match store(k, host.id.as_str(), field.as_str(), value.as_str()) {
            Some(_) => true,
            None => false,
        },
        None => false,
    }
}

/// Moves the secret of a host into the keyring and leaves a marker. Where the
/// keyring does not take it, or there is nothing to move, the host stays as
/// it is.
pub fn protect(k: &mut Keyring, host: &mut Host)
    ensures
        offered(old(host)@, old(k).log(), final(k).log()),
        final(host)@ == protected(old(host)@, taken(old(host)@, final(k).log())),
{
    let stored = store_secret_of(k, host);
    protect_with(host, stored);
}

/// The keyring entries that belong to a host.
pub open spec fn keys_of(host_id: Seq<char>) -> Seq<Seq<char>> {
    seq![key_text(host_id, "password"@), key_text(host_id, "passphrase"@)]
}

/// The keyring entries that belong to a host.
pub fn host_keys(host_id: &str) -> (r: Vec<String>)
    ensures
        text::texts(r@) == keys_of(host_id@),
{
    let mut out: Vec<String> = Vec::new();
    out.push(key(host_id, "password"));
    out.push(key(host_id, "passphrase"));
    assert(text::texts(out@) =~= keys_of(host_id@));
    out
}

/// Drops every keyring entry that belongs to a host: one after the other the
/// keyring is asked to, and nothing else is asked of it.
pub fn delete_host(k: &mut Keyring, host_id: &str)
    ensures
        ({
            let (before, now) = (old(k).log(), final(k).log());
            &&& now.len() == before.len() + keys_of(host_id@).len()
            &&& now.take(before.len() as int) == before
            &&& forall|i: int|
                0 <= i < keys_of(host_id@).len() ==> (#[trigger] now[before.len() + i]).call
                    == delete_request(keys_of(host_id@)[i])
        }),
{
    let keys = host_keys(host_id);
    let ghost before = k.log();
    let ghost all = keys_of(host_id@);
    let mut i: usize = 0;
    assert(k.log().take(before.len() as int) =~= before);
    while i < keys.len()
        invariant
            i <= keys@.len(),
            all == text::texts(keys@),
            k.log().len() == before.len() + i,
            k.log().take(before.len() as int) == before,
            forall|j: int|
                0 <= j < i ==> (#[trigger] k.log()[before.len() + j]).call == delete_request(all[j]),
        decreases keys@.len() - i,
    {
        let ghost so_far = k.log();
        let _ = k.ask(&delete_call(keys[i].as_str()));
        proof {
            assert forall|j: int| 0 <= j < so_far.len() implies k.log()[j] == #[trigger] so_far[j] by {
                assert(k.log().drop_last()[j] == so_far[j]);
            }
            assert(k.log().take(before.len() as int) =~= before) by {
                assert forall|j: int| 0 <= j < before.len() implies k.log()[j] == before[j] by {
                    assert(so_far.take(before.len() as int)[j] == so_far[j]);
                }
            }
            assert forall|j: int| 0 <= j < i + 1 implies (#[trigger] k.log()[before.len() + j]).call
                == delete_request(all[j]) by {
                if j < i {
                    assert(k.log()[before.len() + j] == so_far[before.len() + j]);
                } else {
                    assert(k.log()[before.len() + j] == k.log().last());
                }
            }
        }
        i += 1;
    }
}

/// The marker of a keyring entry is a marker, and leads back to the entry.
pub proof fn law_a_marker_leads_to_its_entry(host_id: Seq<char>, field: Seq<char>)
    ensures
        is_marker(marker_text(host_id, field)),
        key_to_load(Some(marker_text(host_id, field))) == Some(key_text(host_id, field)),
{
    let p = "keyring:"@;
    let m = marker_text(host_id, field);
    assert(m.subrange(0, p.len() as int) =~= p);
    assert(m.skip(p.len() as int) =~= key_text(host_id, field));
}

/// What a host's secret was filed under is what its saved form looks up, and
/// a keyring that gives back what was filed gives the secret back.
pub proof fn law_a_protected_secret_resolves(host: hosts::HostView, secret: Seq<char>)
    requires
        clear_secret(host) == Some(secret),
    ensures
        key_to_load(hosts::secret_of(protected(host, true).auth)) == Some(
            key_text(host.id, secret_name(host.auth)),
        ),
        resolved(hosts::secret_of(protected(host, true).auth), Some(secret)) == Some(secret),
        resolved(hosts::secret_of(protected(host, false).auth), None) == Some(secret),
{
    law_a_marker_leads_to_its_entry(host.id, secret_name(host.auth));
}

/// Where the keyring took the secret, what is saved of it is a marker.
pub proof fn law_only_a_marker_is_saved(host: hosts::HostView)
    ensures
        clear_secret(protected(host, true)) is None,
{
    if clear_secret(host) is Some {
        let m = marker_text(host.id, secret_name(host.auth));
        assert(is_marker(m)) by {
            assert(m.take(MARKER_PREFIX@.len() as int) =~= MARKER_PREFIX@);
        }
    }
}

/// Protecting a host once more changes nothing: nothing is in the clear.
pub proof fn law_protecting_twice_is_protecting_once(host: hosts::HostView, stored: bool)
    ensures
        protected(protected(host, true), stored) == protected(host, true),
{
    law_a_marker_leads_to_its_entry(host.id, secret_name(host.auth));
}

/// Protecting touches the secret and nothing else.
pub proof fn law_protecting_keeps_the_rest(host: hosts::HostView, stored: bool)
    ensures
        protected(host, stored) == (hosts::HostView {
            auth: protected(host, stored).auth,
            ..host
        }),
        protected(host, stored).auth is Password <==> host.auth is Password,
        protected(host, stored).auth is Key <==> host.auth is Key,
        host.auth matches hosts::AuthView::Key { path, passphrase: _ } ==> (protected(
            host,
            stored,
        ).auth matches hosts::AuthView::Key { path: p, passphrase: _ } && p == path),
{
}

/// Hosts with different ids share no keyring entry: what is stored or deleted
/// for one of them leaves the other alone.
pub proof fn law_hosts_share_no_entries(a: Seq<char>, b: Seq<char>, i: int, j: int)
    requires
        a != b,
        0 <= i < keys_of(a).len(),
        0 <= j < keys_of(b).len(),
    ensures
        keys_of(a)[i] != keys_of(b)[j],
{
    reveal_strlit("password");
    reveal_strlit("passphrase");
    let x = keys_of(a)[i];
    let y = keys_of(b)[j];
    if x == y {
        let f = if i == 0 {
            "password"@
        } else {
            "passphrase"@
        };
        let g = if j == 0 {
            "password"@
        } else {
            "passphrase"@
        };
        assert(x.last() == f.last());
        assert(y.last() == g.last());
        assert(f == g);
        assert(x.len() - f.len() == y.len() - g.len());
        assert(a =~= x.take(a.len() as int));
        assert(b =~= y.take(b.len() as int));
    }
}

/// Deleting a host's keyring entries covers the one that its secret was filed
/// under.
pub proof fn law_deleting_covers_what_was_stored(host: hosts::HostView)
    ensures
        keys_of(host.id).contains(key_text(host.id, secret_name(host.auth))),
{
    let keys = keys_of(host.id);
    match host.auth {
        hosts::AuthView::Password { password: _ } => {
            assert(keys[0] == key_text(host.id, secret_name(host.auth)));
        },
        _ => {
            assert(keys[1] == key_text(host.id, secret_name(host.auth)));
        },
    }
}

/// Every request goes to the same service, under the host and the name of its
/// field; a secret is stored as it is.
pub proof fn law_requests_go_to_one_service(
    host_id: Seq<char>,
    field: Seq<char>,
    value: Seq<char>,
)
    ensures
        ({
            let user = host_id + ":"@ + field;
            &&& store_request(host_id, field, value) == (CallView::Store {
                service: "dev.sshworkspace"@,
                user,
                password: value,
            })
            &&& load_request(user) == (CallView::Load { service: "dev.sshworkspace"@, user })
            &&& delete_request(user) == (CallView::Delete { service: "dev.sshworkspace"@, user })
            &&& key_text(host_id, field) == user
            &&& marker_text(host_id, field) == "keyring:"@ + user
        }),
{
}

/// A secret that was stored is saved as its marker, and one that was not is not
/// saved in its place.
pub proof fn law_a_marker_stands_for_a_stored_secret(
    host_id: Seq<char>,
    field: Seq<char>,
    reply: ReplyView,
)
    ensures
        saved_form(host_id, field, ReplyView::Done) == Some(
            "keyring:"@ + host_id + ":"@ + field,
        ),
        !(reply is Done) ==> saved_form(host_id, field, reply) is None,
{
    assert("keyring:"@ + (host_id + ":"@ + field) =~= "keyring:"@ + host_id + ":"@ + field);
}

/// A secret that was saved as it is needs no keyring; a marker is looked up
/// under the key behind it, and stands for what the keyring gives, or for
/// nothing; and where nothing was saved there is nothing to look up.
pub proof fn law_only_markers_are_looked_up(
    plain: Seq<char>,
    key: Seq<char>,
    given: Option<Seq<char>>,
)
    requires
        !"keyring:"@.is_prefix_of(plain),
    ensures
        resolved(Some(plain), given) == Some(plain),
        key_to_load(Some(plain)) is None,
        resolved(Some("keyring:"@ + key), given) == given,
        key_to_load(Some("keyring:"@ + key)) == Some(key),
        resolved(None, given) is None,
        key_to_load(None) is None,
{
    let m = "keyring:"@ + key;
    let n = "keyring:"@.len() as int;
    assert(m.take(n) =~= "keyring:"@);
    assert("keyring:"@.is_prefix_of(m));
    assert(m.skip(n) =~= key);
}

/// Only a secret in the keyring's own reply is one.
pub proof fn law_a_secret_is_in_the_reply(secret: Seq<char>)
    ensures
        secret_in(ReplyView::Secret(secret)) == Some(secret),
        secret_in(ReplyView::Done) is None,
        secret_in(ReplyView::Refused) is None,
{
}

/// A secret is offered to the keyring if there is one, it is not empty and it
/// is no marker yet; and a host is marked exactly if it was taken.
pub proof fn law_secrets_are_offered_to_the_keyring(host: hosts::HostView, stored: bool)
    ensures
        ({
            let saved = hosts::secret_of(host.auth);
            let clear = saved is Some && saved->Some_0.len() > 0 && !"keyring:"@.is_prefix_of(
                saved->Some_0,
            );
            &&& clear ==> clear_secret(host) == saved
            &&& !clear ==> clear_secret(host) is None
            &&& !(clear && stored) ==> protected(host, stored) == host
            &&& clear && stored && host.auth is Password ==> protected(host, stored) == (
            hosts::HostView {
                auth: hosts::AuthView::Password {
                    password: Some("keyring:"@ + (host.id + ":"@ + "password"@)),
                },
                ..host
            })
            &&& clear && stored && host.auth is Key ==> protected(host, stored) == (
            hosts::HostView {
                auth: hosts::AuthView::Key {
                    path: host.auth->path,
                    passphrase: Some("keyring:"@ + (host.id + ":"@ + "passphrase"@)),
                },
                ..host
            })
        }),
{
}

/// Deleting a host asks for both of its entries to be removed, the password's
/// and the passphrase's.
pub proof fn law_a_host_has_two_entries(host_id: Seq<char>)
    ensures
        keys_of(host_id) == seq![
            host_id + ":"@ + "password"@,
            host_id + ":"@ + "passphrase"@,
        ],
{
}

/// Offering a secret asks the keyring once, to store that secret under the
/// host's own entry, and nothing else is asked; without one to offer nothing is
/// asked at all. It was taken exactly if the keyring said so.
pub proof fn law_a_secret_is_offered_once(
    host: hosts::HostView,
    before: Seq<Exchange>,
    now: Seq<Exchange>,
)
    requires
        offered(host, before, now),
    ensures
        clear_secret(host) is None ==> now == before && !taken(host, now),
        clear_secret(host) is Some ==> {
            let field = if host.auth is Password {
                "password"@
            } else {
                "passphrase"@
            };
            &&& now.len() == before.len() + 1
            &&& now.drop_last() == before
            &&& now.last().call == (CallView::Store {
                service: "dev.sshworkspace"@,
                user: host.id + ":"@ + field,
                password: clear_secret(host)->Some_0,
            })
            &&& taken(host, now) <==> now.last().reply == ReplyView::Done
        },
{
}

/// Looking a saved secret up asks the keyring once, for the entry that its
/// marker names, and gives what it replied; a secret that was saved as it is,
/// or not at all, is not asked for.
pub proof fn law_a_marker_is_looked_up_once(
    v: Option<Seq<char>>,
    before: Seq<Exchange>,
    now: Seq<Exchange>,
)
    requires
        looked_up(v, before, now),
    ensures
        v is None ==> now == before && found(v, now) is None,
        v is Some && !"keyring:"@.is_prefix_of(v->Some_0) ==> now == before && found(v, now) == v,
        v is Some && "keyring:"@.is_prefix_of(v->Some_0) ==> {
            let user = v->Some_0.skip("keyring:"@.len() as int);
            &&& now.len() == before.len() + 1
            &&& now.drop_last() == before
            &&& now.last().call == (CallView::Load { service: "dev.sshworkspace"@, user })
            &&& now.last().reply is Secret ==> found(v, now) == Some(now.last().reply->Secret_0)
            &&& !(now.last().reply is Secret) ==> found(v, now) is None
        },
{
}

} // verus!
