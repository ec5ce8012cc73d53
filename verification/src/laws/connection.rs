//! What becomes of a connection: when it is encrypted, when it ends, and what is
//! done with each packet until then.
#![allow(unused_imports)]
use crate::algorithm::{Compress, Decompress};
use crate::be32::{be32, group_be32};
use crate::buffer::{cryptovec_bytes, SSHBuffer};
use crate::channel::ChannelId;
use crate::encrypted::{Encrypted, EncryptedState};
use crate::error::Error;
use crate::kex::{Kex, KexDh, KexInit, NewKeys};
use crate::laws::channels::{
    channel_flushed, flushed_packets, is_channel_message, law_byte, message_queued,
    nothing_happened, only_channel_touched,
};
use crate::laws::reader::{
    appended, holds_string, lemma_appended, lemma_holds_string, lemma_number_at, number_at,
};
use crate::server::connect::ReplyStep;
use crate::session::{disconnect_payload, CommonSession, Disconnect};
use crate::suite::Suite;
use crate::time::clock_read;
use crate::wire::{frames, ssh_string};
use russh_cryptovec::CryptoVec;
use vstd::prelude::*;
use vstd::string::StringSliceAdditionalSpecFns;

verus! {

broadcast use group_be32;

/// What does not change while a connection is set up, runs and ends.
pub open spec fn connection_kept<C, S: Suite>(
    before: CommonSession<C, S>,
    after: CommonSession<C, S>,
) -> bool {
    &&& after.auth_user == before.auth_user
    &&& after.config == before.config
    &&& after.auth_method == before.auth_method
    &&& after.wants_reply == before.wants_reply
    &&& after.buffer == before.buffer
    &&& after.is_cloud == before.is_cloud
}

/// An encrypted session that has just begun: it has the outcome of the key
/// exchange, no channels, nothing to send, and no compression.
pub open spec fn just_begun<S: Suite>(
    enc: Encrypted<S>,
    state: EncryptedState<S>,
    keys: NewKeys<S>,
    is_cloud: bool,
) -> bool {
    &&& enc.state == state
    &&& enc.exchange is Some
    &&& enc.exchange->0 == keys.exchange
    &&& enc.kex == keys.kex
    &&& enc.key == keys.key
    &&& enc.client_mac == keys.names.client_mac
    &&& enc.server_mac == keys.names.server_mac
    &&& enc.session_id == keys.session_id
    &&& enc.rekey is None
    &&& forall|id: u32| !enc.channels@.contains_key(id)
    &&& enc.last_channel_id == 1
    &&& cryptovec_bytes(enc.write).len() == 0
    &&& enc.write_cursor == 0
    &&& clock_read(enc.last_rekey)
    &&& enc.server_compression == keys.names.server_compression
    &&& enc.client_compression == keys.names.client_compression
    &&& enc.compress is Off
    &&& enc.decompress is Off
    &&& cryptovec_bytes(enc.compress_buffer).len() == 0
    &&& enc.is_cloud == is_cloud
}

/// From the first key exchange on a connection has an encrypted session, which
/// begins with the outcome of the exchange, and its cipher.
pub proof fn law_encrypted<C, S: Suite>(
    session: &mut CommonSession<C, S>,
    state: EncryptedState<S>,
    keys: NewKeys<S>,
)
    requires
        call_ensures(CommonSession::<C, S>::encrypted, (session, state, keys), ()),
    ensures
        connection_kept(*old(session), *final(session)),
        final(session).kex == old(session).kex,
        final(session).write_buffer == old(session).write_buffer,
        final(session).disconnected == old(session).disconnected,
        final(session).cipher == keys.cipher,
        final(session).encrypted is Some,
        just_begun(final(session).encrypted->0, state, keys, old(session).is_cloud),
{
}

/// New keys of an encrypted session replace its keys and its cipher. Its
/// identifier, its channels, its queue and its compression stay. Before a
/// connection is encrypted nothing happens.
pub proof fn law_newkeys<C, S: Suite>(session: &mut CommonSession<C, S>, keys: NewKeys<S>)
    requires
        call_ensures(CommonSession::<C, S>::newkeys, (session, keys), ()),
    ensures
        connection_kept(*old(session), *final(session)),
        final(session).kex == old(session).kex,
        final(session).write_buffer == old(session).write_buffer,
        final(session).disconnected == old(session).disconnected,
        final(session).encrypted is Some <==> old(session).encrypted is Some,
        old(session).encrypted is None ==> final(session).cipher == old(session).cipher,
        old(session).encrypted is Some ==> {
            let (before, after) = (old(session).encrypted->0, final(session).encrypted->0);
            &&& final(session).cipher == keys.cipher
            &&& after.exchange is Some
            &&& after.exchange->0 == keys.exchange
            &&& after.kex == keys.kex
            &&& after.key == keys.key
            &&& after.client_mac == keys.names.client_mac
            &&& after.server_mac == keys.names.server_mac
            &&& after.state == before.state
            &&& after.session_id == before.session_id
            &&& after.rekey == before.rekey
            &&& after.channels == before.channels
            &&& after.last_channel_id == before.last_channel_id
            &&& after.write == before.write
            &&& after.write_cursor == before.write_cursor
            &&& after.last_rekey == before.last_rekey
            &&& after.server_compression == before.server_compression
            &&& after.client_compression == before.client_compression
            &&& after.compress == before.compress
            &&& after.decompress == before.decompress
            &&& after.compress_buffer == before.compress_buffer
            &&& after.is_cloud == before.is_cloud
        },
{
}

/// The reasons to end a connection have the numbers from 1 to 15 that the
/// protocol gives them.
pub proof fn law_reason_codes(reason: Disconnect, code: u32)
    requires
        call_ensures(Disconnect::code, (reason,), code),
    ensures
        1 <= code <= 15,
        code == 1 <==> reason is HostNotAllowedToConnect,
        code == 2 <==> reason is ProtocolError,
        code == 3 <==> reason is KeyExchangeFailed,
        code == 4 <==> reason is Reserved,
        code == 5 <==> reason is MACError,
        code == 6 <==> reason is CompressionError,
        code == 7 <==> reason is ServiceNotAvailable,
        code == 8 <==> reason is ProtocolVersionNotSupported,
        code == 9 <==> reason is HostKeyNotVerifiable,
        code == 10 <==> reason is ConnectionLost,
        code == 11 <==> reason is ByApplication,
        code == 12 <==> reason is TooManyConnections,
        code == 13 <==> reason is AuthCancelledByUser,
        code == 14 <==> reason is NoMoreAuthMethodsAvailable,
        code == 15 <==> reason is IllegalUserName,
{
}

/// `payload` is the message that ends a connection for a reason with the given
/// number.
pub open spec fn is_disconnect(
    payload: Seq<u8>,
    code: u32,
    description: Seq<u8>,
    language_tag: Seq<u8>,
) -> bool {
    &&& payload.len() == 13 + description.len() + language_tag.len()
    &&& payload[0] == 1
    &&& number_at(payload, 1) == code
    &&& holds_string(payload, 5, description)
    &&& holds_string(payload, 9 + description.len() as int, language_tag)
}

/// The message that ends a connection was put behind the outgoing bytes.
pub open spec fn goodbye_appended(
    before: CryptoVec,
    after: CryptoVec,
    code: u32,
    description: Seq<u8>,
    language_tag: Seq<u8>,
) -> bool {
    exists|payload: Seq<u8>| #[trigger]
        is_disconnect(payload, code, description, language_tag) && appended(
            before,
            after,
            seq![payload],
        )
}

proof fn lemma_disconnect_payload(
    reason: Disconnect,
    description: Seq<u8>,
    language_tag: Seq<u8>,
)
    ensures
        is_disconnect(
            disconnect_payload(reason, description, language_tag),
            reason.number(),
            description,
            language_tag,
        ),
{
    let payload = disconnect_payload(reason, description, language_tag);
    let (d, t) = (ssh_string(description), ssh_string(language_tag));
    let head = seq![1u8];
    let code = be32(reason.number() as int);
    lemma_number_at(head, reason.number() as int, d + t);
    lemma_holds_string(head + code, description, t);
    lemma_holds_string(head + code + d, language_tag, Seq::empty());
    assert(payload =~= head + code + (d + t));
    assert(payload =~= (head + code) + d + t);
    assert(payload =~= (head + code + d) + t + Seq::<u8>::empty());
}

/// Ending a connection puts one message behind its outgoing bytes, those of its
/// encrypted session where it has one. The message holds the number of the
/// reason and both texts. Ending it again does nothing.
pub proof fn law_disconnect<C, S: Suite>(
    session: &mut CommonSession<C, S>,
    reason: Disconnect,
    description: &str,
    language_tag: &str,
    code: u32,
)
    requires
        call_ensures(
            CommonSession::<C, S>::disconnect,
            (session, reason, description, language_tag),
            (),
        ),
        call_ensures(Disconnect::code, (reason,), code),
    ensures
        old(session).disconnected ==> *final(session) == *old(session),
        !old(session).disconnected ==> {
            let (before, after) = (*old(session), *final(session));
            &&& after.disconnected
            &&& connection_kept(before, after)
            &&& after.kex == before.kex
            &&& after.cipher == before.cipher
            &&& after.encrypted is Some <==> before.encrypted is Some
            &&& before.encrypted is Some ==> {
                let (old_enc, enc) = (before.encrypted->0, after.encrypted->0);
                &&& after.write_buffer == before.write_buffer
                &&& enc == (Encrypted { write: enc.write, ..old_enc })
                &&& goodbye_appended(
                    old_enc.write,
                    enc.write,
                    code,
                    description.spec_bytes(),
                    language_tag.spec_bytes(),
                )
            }
            &&& before.encrypted is None ==> {
                &&& after.write_buffer.len == before.write_buffer.len
                &&& after.write_buffer.bytes == before.write_buffer.bytes
                &&& after.write_buffer.seqn == before.write_buffer.seqn
                &&& goodbye_appended(
                    before.write_buffer.buffer,
                    after.write_buffer.buffer,
                    code,
                    description.spec_bytes(),
                    language_tag.spec_bytes(),
                )
            }
        },
{
    let (before, after) = (*old(session), *final(session));
    let (d, t) = (description.spec_bytes(), language_tag.spec_bytes());
    let payload = disconnect_payload(reason, d, t);
    if !before.disconnected {
        lemma_disconnect_payload(reason, d, t);
        crate::wire::lemma_frames_one(payload);
        if before.encrypted is Some {
            lemma_appended(before.encrypted->0.write, after.encrypted->0.write, seq![payload]);
        } else {
            lemma_appended(before.write_buffer.buffer, after.write_buffer.buffer, seq![payload]);
        }
    }
}

/// Nothing of a connection but its encrypted session differs.
pub open spec fn only_session_differs<C, S: Suite>(
    before: CommonSession<C, S>,
    after: CommonSession<C, S>,
) -> bool {
    &&& connection_kept(before, after)
    &&& after.kex == before.kex
    &&& after.cipher == before.cipher
    &&& after.write_buffer == before.write_buffer
    &&& after.disconnected == before.disconnected
    &&& after.encrypted is Some <==> before.encrypted is Some
}

/// A message about a channel goes to the queue of the encrypted session, and
/// nowhere before there is one.
pub proof fn law_session_byte<C, S: Suite>(
    session: &mut CommonSession<C, S>,
    channel: ChannelId,
    message: u8,
)
    requires
        call_ensures(CommonSession::<C, S>::byte, (session, channel, message), ()),
    ensures
        only_session_differs(*old(session), *final(session)),
        old(session).encrypted is Some ==> {
            let (before, after) = (old(session).encrypted->0, final(session).encrypted->0);
            if before.channels@.contains_key(channel.0) {
                message_queued(before, after, channel, message)
            } else {
                nothing_happened(before, after)
            }
        },
{
    if old(session).encrypted is Some {
        let (before, after) = (old(session).encrypted->0, final(session).encrypted->0);
        crate::laws::channels::lemma_message_queued(before, after, channel, message);
    }
}

/// Where the other side opens a window further, the waiting data of that channel
/// goes to the queue of the encrypted session as far as the window allows.
pub proof fn law_window_adjusted<C, S: Suite>(
    session: &mut CommonSession<C, S>,
    channel: ChannelId,
)
    requires
        call_ensures(CommonSession::<C, S>::window_adjusted, (session, channel), ()),
    ensures
        only_session_differs(*old(session), *final(session)),
        old(session).encrypted is Some ==> {
            let (before, after) = (old(session).encrypted->0, final(session).encrypted->0);
            if before.channels@.contains_key(channel.0) {
                &&& only_channel_touched(before, after, channel)
                &&& channel_flushed(before.channels@[channel.0], after.channels@[channel.0])
                &&& appended(
                    before.write,
                    after.write,
                    flushed_packets(before.channels@[channel.0]),
                )
            } else {
                nothing_happened(before, after)
            }
        },
{
    if old(session).encrypted is Some {
        let (before, after) = (old(session).encrypted->0, final(session).encrypted->0);
        let payloads = before.pending_packets(channel);
        lemma_appended(before.write, after.write, payloads);
        if before.channels@.contains_key(channel.0) {
            crate::laws::channels::lemma_only_channel_touched(before, after, channel);
        } else {
            assert(frames(payloads) =~= Seq::<u8>::empty());
        }
    }
}

/// The packet begins with the given message number.
pub open spec fn begins_with(buf: Seq<u8>, number: u8) -> bool {
    buf.len() >= 1 && buf[0] == number
}

/// The negotiation of algorithms is going on.
pub open spec fn negotiates<C, S: Suite>(session: CommonSession<C, S>, kexinit: KexInit) -> bool {
    session.encrypted is None && session.kex == Some(Kex::<S>::Init(kexinit))
}

/// The exchange of keys is going on.
pub open spec fn exchanges<C, S: Suite>(session: CommonSession<C, S>, kexdh: KexDh) -> bool {
    session.encrypted is None && session.kex == Some(Kex::<S>::Dh(kexdh))
}

/// The other side is to announce its new keys.
pub open spec fn awaits<C, S: Suite>(session: CommonSession<C, S>, keys: NewKeys<S>) -> bool {
    session.encrypted is None && session.kex == Some(Kex::<S>::Keys(keys))
}

/// Which packets are handed on, and to what: of an encrypted connection every
/// packet goes to the session, while keys are exchanged every packet goes to the
/// exchange, and while algorithms are negotiated every packet that begins with
/// number 20, or any once the other side made its proposal, goes to the
/// negotiation. Where new keys are awaited, a packet that does not begin with
/// number 21 is refused. Every other packet needs nothing more.
pub proof fn law_begin_reply_hands_on<C, S: Suite>(
    session: &mut CommonSession<C, S>,
    buf: &[u8],
    step: Result<ReplyStep, Error>,
    kexinit: KexInit,
    kexdh: KexDh,
)
    requires
        call_ensures(CommonSession::<C, S>::begin_reply, (session, buf), step),
    ensures
        (step is Ok && step->Ok_0 is ReadEncrypted) <==> old(session).encrypted is Some,
        step == Ok::<ReplyStep, Error>(ReplyStep::ParseDh(kexdh)) <==> exchanges(
            *old(session),
            kexdh,
        ),
        step == Ok::<ReplyStep, Error>(ReplyStep::ParseInit(kexinit)) <==> negotiates(
            *old(session),
            kexinit,
        ) && (kexinit.algo is Some || begins_with(buf@, 20)),
        step is Err ==> step->Err_0 is Kex,
        step is Err <==> old(session).encrypted is None && old(session).kex is Some && old(session).kex->0 is Keys && !begins_with(buf@, 21),
{
}

/// What a packet does to a connection by itself: a step that is handed on, and a
/// refused packet, leave it without a key exchange. The announcement of new keys
/// encrypts it. Every other packet leaves it as it is.
pub proof fn law_begin_reply_changes<C, S: Suite>(
    session: &mut CommonSession<C, S>,
    buf: &[u8],
    step: Result<ReplyStep, Error>,
    keys: NewKeys<S>,
)
    requires
        call_ensures(CommonSession::<C, S>::begin_reply, (session, buf), step),
    ensures
        connection_kept(*old(session), *final(session)),
        final(session).write_buffer == old(session).write_buffer,
        final(session).disconnected == old(session).disconnected,
        step is Err || step->Ok_0 is ParseInit || step->Ok_0 is ParseDh ==> final(session).kex
            is None && final(session).encrypted == old(session).encrypted && final(session).cipher
            == old(session).cipher,
        awaits(*old(session), keys) && begins_with(buf@, 21) ==> {
            &&& final(session).kex is None
            &&& final(session).cipher == keys.cipher
            &&& final(session).encrypted is Some
            &&& final(session).encrypted->0.state is WaitingAuthServiceRequest
            &&& !final(session).encrypted->0.state->sent
            &&& !final(session).encrypted->0.state->accepted
            &&& just_begun(
                final(session).encrypted->0,
                final(session).encrypted->0.state,
                keys,
                old(session).is_cloud,
            )
        },
        step is Ok && (step->Ok_0 is Done || step->Ok_0 is ReadEncrypted) && !(old(session).encrypted is None && old(session).kex is Some && old(session).kex->0 is Keys)
            ==> *final(session) == *old(session),
{
}

/// A step of the key exchange that was carried out takes the place of the key
/// exchange, and nothing else changes. One that failed changes nothing.
pub proof fn law_end_reply<C, S: Suite>(
    session: &mut CommonSession<C, S>,
    kex: Result<Kex<S>, Error>,
    res: Result<(), Error>,
)
    requires
        call_ensures(CommonSession::<C, S>::end_reply, (session, kex), res),
    ensures
        res is Ok <==> kex is Ok,
        res is Err ==> res->Err_0 == kex->Err_0 && *final(session) == *old(session),
        res is Ok ==> {
            &&& final(session).kex is Some
            &&& final(session).kex->0 == kex->Ok_0
            &&& connection_kept(*old(session), *final(session))
            &&& final(session).encrypted == old(session).encrypted
            &&& final(session).write_buffer == old(session).write_buffer
            &&& final(session).cipher == old(session).cipher
            &&& final(session).disconnected == old(session).disconnected
        },
{
}

} // verus!
