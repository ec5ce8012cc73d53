//! The beginning of a connection: the identification of the client, and the
//! packets that it sends until the connection is encrypted.
use crate::buffer::{cryptovec_bytes, room, SSHBuffer};
use crate::encrypted::EncryptedState;
use crate::error::Error;
use crate::kex::{Exchange, Kex, KexDh, KexInit};
use crate::msg;
use crate::server::config::Config;
use crate::session::CommonSession;
use crate::suite::Suite;
use russh_cryptovec::CryptoVec;
use std::sync::Arc;
use vstd::prelude::*;
#[allow(unused_imports)]
use vstd::string::StringSliceAdditionalSpecFns;

verus! {

/// `pattern` occurs in `s` at position `i`.
pub open spec fn occurs_at(pattern: Seq<u8>, s: Seq<u8>, i: int) -> bool {
    0 <= i <= s.len() - pattern.len() && s.subrange(i, i + pattern.len()) == pattern
}

/// `pattern` occurs in `s`.
pub open spec fn occurs_in(pattern: Seq<u8>, s: Seq<u8>) -> bool {
    exists|i: int| occurs_at(pattern, s, i)
}

/// The letters `wjyl`, by which cloud clients are recognised.
pub open spec fn cloud_mark() -> Seq<u8> {
    seq![119u8, 106u8, 121u8, 108u8]
}

/// Whether a client identifies itself as a cloud client. The mark is ASCII, so
/// that it occurs in the text of an identification, whatever else is in it,
/// where its bytes do.
pub fn is_cloud_id(sshid: &[u8]) -> (is_cloud: bool)
    ensures
        is_cloud == occurs_in(cloud_mark(), sshid@),
{
    let mut i: usize = 0;
    while i < sshid.len()
        invariant
            i <= sshid@.len(),
            forall|j: int| 0 <= j < i ==> !#[trigger] occurs_at(cloud_mark(), sshid@, j),
        decreases sshid@.len() - i,
    {
        let ghost part = sshid@.subrange(i as int, i + 4);
        if sshid.len() - i >= 4 && sshid[i] == 119 && sshid[i + 1] == 106 && sshid[i + 2] == 121
            && sshid[i + 3] == 108 {
            assert(part =~= cloud_mark());
            assert(occurs_at(cloud_mark(), sshid@, i as int));
            return true;
        }
        assert(!occurs_at(cloud_mark(), sshid@, i as int)) by {
            if part == cloud_mark() && i + 4 <= sshid@.len() {
                assert(part[0] == sshid@[i as int]);
                assert(part[1] == sshid@[i + 1]);
                assert(part[2] == sshid@[i + 2]);
                assert(part[3] == sshid@[i + 3]);
            }
        }
        i = i + 1;
    }
    false
}

/// `kexinit` is the first key exchange of a connection, before anything of it
/// was sent or received.
pub open spec fn first_kexinit(kexinit: KexInit, server_id: Seq<u8>, sshid: Seq<u8>) -> bool {
    &&& kexinit.algo is None
    &&& !kexinit.sent
    &&& kexinit.session_id is None
    &&& cryptovec_bytes(kexinit.exchange.client_id) == sshid
    &&& cryptovec_bytes(kexinit.exchange.server_id) == server_id
    &&& kexinit.exchange.keys_cleared()
}

/// `buffer` is a buffer through which nothing went.
pub open spec fn fresh_buffer(buffer: SSHBuffer) -> bool {
    &&& cryptovec_bytes(buffer.buffer) == Seq::<u8>::empty()
    &&& buffer.len == 0
    &&& buffer.bytes == 0
    &&& buffer.seqn == 0
}

/// What sending the proposal for a key exchange comes to: the exchange and the
/// cipher after it, and the bytes to be sent.
pub struct Proposal<S: Suite> {
    pub kexinit: KexInit,
    pub cipher: S::Ciphers,
    pub write_buffer: SSHBuffer,
}

/// `session` is a connection that has just begun with the given proposal.
pub open spec fn begun_session<P, S: Suite>(
    session: CommonSession<Arc<Config<P>>, S>,
    config: Arc<Config<P>>,
    is_cloud: bool,
    proposal: Proposal<S>,
) -> bool {
    &&& session.write_buffer == proposal.write_buffer
    &&& session.kex == Some(Kex::<S>::Init(proposal.kexinit))
    &&& session.auth_user@ == Seq::<char>::empty()
    &&& session.auth_method is None
    &&& session.cipher == proposal.cipher
    &&& session.encrypted is None
    &&& session.config == config
    &&& !session.wants_reply
    &&& !session.disconnected
    &&& cryptovec_bytes(session.buffer) == Seq::<u8>::empty()
    &&& session.is_cloud == is_cloud
}

/// The first key exchange of a connection between sides that identified
/// themselves as given.
pub fn first_exchange(server_id: &[u8], sshid: &[u8]) -> (kexinit: KexInit)
    requires
        room(0, server_id@.len()),
        room(0, sshid@.len()),
    ensures
        first_kexinit(kexinit, server_id@, sshid@),
{
    let mut exchange = Exchange::new();
    exchange.client_id.extend(sshid);
    exchange.server_id.extend(server_id);
    assert(cryptovec_bytes(exchange.client_id) =~= sshid@);
    assert(cryptovec_bytes(exchange.server_id) =~= server_id@);
    KexInit { exchange, algo: None, sent: false, session_id: None }
}

/// The state of a connection whose proposal for a key exchange is about to be
/// sent.
pub fn begin_session<P, S: Suite>(
    config: Arc<Config<P>>,
    is_cloud: bool,
    proposal: Proposal<S>,
) -> (session: CommonSession<Arc<Config<P>>, S>)
    ensures
        begun_session(session, config, is_cloud, proposal),
{
    CommonSession {
        write_buffer: proposal.write_buffer,
        kex: Some(Kex::Init(proposal.kexinit)),
        auth_user: String::new(),
        auth_method: None,
        cipher: proposal.cipher,
        encrypted: None,
        config,
        wants_reply: false,
        disconnected: false,
        buffer: CryptoVec::new(),
        is_cloud,
    }
}

/// Begins a connection with a client that identified itself as `sshid`. The
/// packets of the key exchange are in `cipher` until keys were exchanged.
/// `propose` writes the proposal for the key exchange.
pub fn read_ssh_id<P, S: Suite, F>(
    config: Arc<Config<P>>,
    sshid: &[u8],
    cipher: S::Ciphers,
    propose: F,
) -> (res: Result<CommonSession<Arc<Config<P>>, S>, Error>) where
    F: FnOnce(&Config<P>, Proposal<S>) -> Result<Proposal<S>, Error>,

    requires
        room(0, vstd::utf8::encode_utf8(config.server_id@).len()),
        room(0, sshid@.len()),
        forall|start: Proposal<S>|
            first_kexinit(start.kexinit, vstd::utf8::encode_utf8(config.server_id@), sshid@)
                && start.cipher == cipher && fresh_buffer(start.write_buffer)
                ==> #[trigger] call_requires(propose, (&*config, start)),
    ensures
        exists|start: Proposal<S>, proposed: Result<Proposal<S>, Error>|
            {
                &&& first_kexinit(
                    start.kexinit,
                    vstd::utf8::encode_utf8(config.server_id@),
                    sshid@,
                )
                &&& start.cipher == cipher
                &&& fresh_buffer(start.write_buffer)
                &&& #[trigger] call_ensures(propose, (&*config, start), proposed)
                &&& match proposed {
                    Ok(proposal) => res matches Ok(session) && begun_session(
                        session,
                        config,
                        occurs_in(cloud_mark(), sshid@),
                        proposal,
                    ),
                    Err(error) => res == Err::<CommonSession<Arc<Config<P>>, S>, Error>(error),
                }
            },
{
    let is_cloud = is_cloud_id(sshid);
    let kexinit = first_exchange(config.server_id.as_str().as_bytes(), sshid);
    let start = Proposal { kexinit, cipher, write_buffer: SSHBuffer::new() };
    match propose(&*config, start) {
        Ok(proposal) => Ok(begin_session(config, is_cloud, proposal)),
        Err(error) => Err(error),
    }
}

/// What is to be done with a packet of the other side.
#[derive(Debug)]
pub enum ReplyStep {
    /// The packet belongs to the negotiation of algorithms.
    ParseInit(KexInit),
    /// The packet belongs to the exchange of keys.
    ParseDh(KexDh),
    /// The packet belongs to the encrypted session.
    ReadEncrypted,
    /// Nothing more is to be done.
    Done,
}

/// The packet is a message with the given number.
pub open spec fn is_message(buf: Seq<u8>, number: u8) -> bool {
    buf.len() > 0 && buf[0] == number
}

impl<C, S: Suite> CommonSession<C, S> {
    /// A key exchange has run, and the other side is to announce its new keys.
    pub open spec fn awaits_new_keys(self) -> bool {
        self.kex matches Some(kex) && kex is Keys
    }

    /// Nothing but the key exchange differs, which is `kex` now.
    pub open spec fn only_kex_differs(self, old: CommonSession<C, S>, kex: Option<Kex<S>>) -> bool {
        self == CommonSession { kex, ..old }
    }

    /// What becomes of a packet of the other side, and of the connection.
    pub open spec fn replied(
        self,
        old: CommonSession<C, S>,
        buf: Seq<u8>,
        step: Result<ReplyStep, Error>,
    ) -> bool {
        if old.encrypted is Some {
            &&& step == Ok::<ReplyStep, Error>(ReplyStep::ReadEncrypted)
            &&& self == old
        } else {
            match old.kex {
                Some(Kex::Init(kexinit)) => if kexinit.algo is Some || is_message(
                    buf,
                    msg::KEXINIT,
                ) {
                    &&& step == Ok::<ReplyStep, Error>(ReplyStep::ParseInit(kexinit))
                    &&& self.only_kex_differs(old, None)
                } else {
                    // The other side has not started the key exchange.
                    &&& step == Ok::<ReplyStep, Error>(ReplyStep::Done)
                    &&& self == old
                },
                Some(Kex::Dh(kexdh)) => {
                    &&& step == Ok::<ReplyStep, Error>(ReplyStep::ParseDh(kexdh))
                    &&& self.only_kex_differs(old, None)
                },
                Some(Kex::Keys(newkeys)) => if is_message(buf, msg::NEWKEYS) {
                    &&& step == Ok::<ReplyStep, Error>(ReplyStep::Done)
                    &&& self.encrypted matches Some(enc)
                    &&& enc.begun(
                        EncryptedState::WaitingAuthServiceRequest { sent: false, accepted: false },
                        newkeys,
                        old.is_cloud,
                    )
                    &&& self == CommonSession {
                        kex: None,
                        encrypted: self.encrypted,
                        cipher: newkeys.cipher,
                        ..old
                    }
                } else {
                    &&& step == Err::<ReplyStep, Error>(Error::Kex)
                    &&& self.only_kex_differs(old, None)
                },
                _ => {
                    &&& step == Ok::<ReplyStep, Error>(ReplyStep::Done)
                    &&& self == old
                },
            }
        }
    }

    /// Decides what is to be done with a packet of the other side. A step of
    /// the key exchange is taken out of the connection, to be carried out and
    /// handed to `end_reply`.
    pub fn begin_reply(&mut self, buf: &[u8]) -> (step: Result<ReplyStep, Error>)
        ensures
            final(self).replied(*old(self), buf@, step),
    {
        if self.encrypted.is_some() {
            return Ok(ReplyStep::ReadEncrypted);
        }
        match self.kex.take() {
            Some(Kex::Init(kexinit)) => {
                if kexinit.algo.is_some() || (buf.len() > 0 && buf[0] == msg::KEXINIT) {
                    return Ok(ReplyStep::ParseInit(kexinit));
                }
                // The other side has not started the key exchange.
                self.kex = Some(Kex::Init(kexinit));
            },
            Some(Kex::Dh(kexdh)) => {
                return Ok(ReplyStep::ParseDh(kexdh));
            },
            Some(Kex::Keys(newkeys)) => {
                if !(buf.len() > 0 && buf[0] == msg::NEWKEYS) {
                    return Err(Error::Kex);
                }
                // Keys were exchanged, from now on the connection is encrypted.
                self.encrypted(
                    EncryptedState::WaitingAuthServiceRequest { sent: false, accepted: false },
                    newkeys,
                );
            },
            Some(kex) => {
                self.kex = Some(kex);
            },
            None => {},
        }
        Ok(ReplyStep::Done)
    }

    /// Goes on with the key exchange after one of its steps was carried out, or
    /// fails as the step did.
    pub fn end_reply(&mut self, kex: Result<Kex<S>, Error>) -> (res: Result<(), Error>)
        ensures
            match kex {
                Ok(kex) => {
                    &&& res is Ok
                    &&& final(self).only_kex_differs(*old(self), Some(kex))
                },
                Err(error) => {
                    &&& res == Err::<(), Error>(error)
                    &&& *final(self) == *old(self)
                },
            },
    {
        match kex {
            Ok(kex) => {
                self.kex = Some(kex);
                Ok(())
            },
            Err(error) => Err(error),
        }
    }
}

} // verus!
