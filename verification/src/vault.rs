//! The OS keyring: what it is asked, and what it says.

use vstd::prelude::*;

verus! {

/// A request to the keyring. Texts are of the type `S`.
#[derive(Debug)]
pub enum KeyringCall<S> {
    Store { service: S, user: S, password: S },
    Load { service: S, user: S },
    Delete { service: S, user: S },
}

/// What the text of a request says.
pub type CallView = KeyringCall<Seq<char>>;

impl View for KeyringCall<String> {
    type V = CallView;

    open spec fn view(&self) -> CallView {
        match *self {
            KeyringCall::Store { service, user, password } => KeyringCall::Store {
                service: service@,
                user: user@,
                password: password@,
            },
            KeyringCall::Load { service, user } => KeyringCall::Load {
                service: service@,
                user: user@,
            },
            KeyringCall::Delete { service, user } => KeyringCall::Delete {
                service: service@,
                user: user@,
            },
        }
    }
}

/// What the keyring said to a request. Texts are of the type `S`.
#[derive(Debug)]
pub enum KeyringReply<S> {
    Refused,
    Done,
    Secret(S),
}

/// What the text of a reply says.
pub type ReplyView = KeyringReply<Seq<char>>;

impl View for KeyringReply<String> {
    type V = ReplyView;

    open spec fn view(&self) -> ReplyView {
        match *self {
            KeyringReply::Refused => KeyringReply::Refused,
            KeyringReply::Done => KeyringReply::Done,
            KeyringReply::Secret(p) => KeyringReply::Secret(p@),
        }
    }
}

/// A request and what the keyring said to it.
pub struct Exchange {
    pub call: CallView,
    pub reply: ReplyView,
}

/// What a keyring call fails with. It is never looked into.
#[verifier::external_type_specification]
#[verifier::external_body]
pub struct ExKeyringError(keyring::Error);

/// The OS keyring, with a record of what it was asked and what it said. Only
/// the requests below add to the record.
pub struct Keyring {
    log: Ghost<Seq<Exchange>>,
}

/// Whether exactly one request was made between two records, and what it was.
pub open spec fn asked(before: Seq<Exchange>, now: Seq<Exchange>, call: CallView) -> bool {
    &&& now.len() == before.len() + 1
    &&& now.drop_last() == before
    &&& now.last().call == call
}

/// What the keyring said last.
pub open spec fn said(now: Seq<Exchange>) -> ReplyView {
    now.last().reply
}

/// What an answer to a request to store or to delete comes to.
pub open spec fn done_said(answer: Result<(), keyring::Error>) -> ReplyView {
    match answer {
        Ok(_) => KeyringReply::Done,
        Err(_) => KeyringReply::Refused,
    }
}

/// What an answer to a look-up comes to.
pub open spec fn secret_said(answer: Result<String, keyring::Error>) -> ReplyView {
    match answer {
        Ok(p) => KeyringReply::Secret(p@),
        Err(_) => KeyringReply::Refused,
    }
}

/// `keyring::Entry::new` and `keyring::Entry::set_password`: the password is
/// put into the platform's credential store under the service and the user.
/// Just this is asked. Whether the store takes it is up to the platform, and
/// nothing is claimed of it.
#[verifier::external_body]
fn set_password(k: &mut Keyring, service: &str, user: &str, password: &str) -> (r: Result<
    (),
    keyring::Error,
>)
    ensures
        asked(
            old(k).log(),
            final(k).log(),
            (KeyringCall::Store { service: service@, user: user@, password: password@ }),
        ),
        said(final(k).log()) == done_said(r),
{
    keyring::Entry::new(service, user)?.set_password(password)
}

/// `keyring::Entry::new` and `keyring::Entry::get_password`: the password that
/// the platform's credential store holds under the service and the user. Just
/// this is asked. What the store gives is up to the platform, and nothing is
/// claimed of it.
#[verifier::external_body]
fn get_password(k: &mut Keyring, service: &str, user: &str) -> (r: Result<String, keyring::Error>)
    ensures
        asked(
            old(k).log(),
            final(k).log(),
            (KeyringCall::Load { service: service@, user: user@ }),
        ),
        said(final(k).log()) == secret_said(r),
{
    keyring::Entry::new(service, user)?.get_password()
}

/// `keyring::Entry::new` and `keyring::Entry::delete_credential`: what the
/// platform's credential store holds under the service and the user is
/// dropped. Just this is asked. Whether the store does so is up to the
/// platform, and nothing is claimed of it.
#[verifier::external_body]
fn delete_credential(k: &mut Keyring, service: &str, user: &str) -> (r: Result<(), keyring::Error>)
    ensures
        asked(
            old(k).log(),
            final(k).log(),
            (KeyringCall::Delete { service: service@, user: user@ }),
        ),
        said(final(k).log()) == done_said(r),
{
    keyring::Entry::new(service, user)?.delete_credential()
}

impl Keyring {
    /// What the keyring was asked and what it said, the oldest first.
    pub closed spec fn log(&self) -> Seq<Exchange> {
        self.log@
    }

    /// The keyring, of which nothing was asked yet.
    pub fn new() -> (r: Self)
        ensures
            r.log() == Seq::<Exchange>::empty(),
    {
        Keyring { log: Ghost(Seq::empty()) }
    }

    /// Hands a request to the keyring. What it says is up to the platform's
    /// credential store, and an entry that cannot be had counts as a refusal;
    /// only a look-up can give a secret.
    pub fn ask(&mut self, call: &KeyringCall<String>) -> (r: KeyringReply<String>)
        ensures
            asked(old(self).log(), final(self).log(), call@),
            r@ == said(final(self).log()),
            r is Secret ==> call@ is Load,
            r is Done ==> !(call@ is Load),
    {
        match call {
            KeyringCall::Store { service, user, password } => done_reply(
                set_password(self, service.as_str(), user.as_str(), password.as_str()),
            ),
            KeyringCall::Load { service, user } => secret_reply(
                get_password(self, service.as_str(), user.as_str()),
            ),
            KeyringCall::Delete { service, user } => done_reply(
                delete_credential(self, service.as_str(), user.as_str()),
            ),
        }
    }
}

/// What the keyring's answer to a request to store or to delete comes to.
pub fn done_reply(answer: Result<(), keyring::Error>) -> (r: KeyringReply<String>)
    ensures
        r@ == done_said(answer),
{
    match answer {
        Ok(()) => KeyringReply::Done,
        Err(_) => KeyringReply::Refused,
    }
}

/// What the keyring's answer to a look-up comes to.
pub fn secret_reply(answer: Result<String, keyring::Error>) -> (r: KeyringReply<String>)
    ensures
        r@ == secret_said(answer),
{
    match answer {
        Ok(p) => KeyringReply::Secret(p),
        Err(_) => KeyringReply::Refused,
    }
}

/// A request is added to what was asked before, with the keyring's reply.
pub proof fn law_a_request_is_added_to_the_record(
    before: Seq<Exchange>,
    call: CallView,
    reply: ReplyView,
)
    ensures
        asked(before, before.push(Exchange { call, reply }), call),
        said(before.push(Exchange { call, reply })) == reply,
        !asked(before, before, call),
{
    assert(before.push(Exchange { call, reply }).drop_last() =~= before);
}

/// What the keyring answers is its reply: a secret that it gave, that it did as
/// it was asked, or that it refused.
pub proof fn law_an_answer_is_the_reply(
    done: Result<(), keyring::Error>,
    secret: Result<String, keyring::Error>,
)
    ensures
        done is Ok ==> done_said(done) == ReplyView::Done,
        done is Err ==> done_said(done) == ReplyView::Refused,
        secret is Ok ==> secret_said(secret) == ReplyView::Secret(secret->Ok_0@),
        secret is Err ==> secret_said(secret) == ReplyView::Refused,
{
}

/// A request stands for what it asks for, and a reply for what it says.
pub proof fn law_a_request_stands_for_what_it_asks_for(
    c: KeyringCall<String>,
    r: KeyringReply<String>,
)
    ensures
        match c {
            KeyringCall::Store { service, user, password } => c@ == (CallView::Store {
                service: service@,
                user: user@,
                password: password@,
            }),
            KeyringCall::Load { service, user } => c@ == (CallView::Load {
                service: service@,
                user: user@,
            }),
            KeyringCall::Delete { service, user } => c@ == (CallView::Delete {
                service: service@,
                user: user@,
            }),
        },
        match r {
            KeyringReply::Refused => r@ == ReplyView::Refused,
            KeyringReply::Done => r@ == ReplyView::Done,
            KeyringReply::Secret(p) => r@ == ReplyView::Secret(p@),
        },
{
}

} // verus!
