//! What the server's side of a connection does: how it begins, to whom its
//! messages go, and what happens where a server does not decide.
#![allow(unused_imports)]
use crate::auth::{Auth, MethodSet};
use crate::be32::{be32_value, group_be32};
use crate::buffer::{cryptovec_bytes, position_after, string_at, SSHBuffer};
use crate::channel::ChannelId;
use crate::error::Error;
use crate::kex::{Kex, KexInit};
use crate::laws::exchange::no_keys_held;
use crate::laws::reader::number_at;
use crate::limits::Limits;
use crate::server::config::{ssh_id, Config};
use crate::server::connect::{
    begin_session, begun_session, cloud_mark, first_exchange, first_kexinit, fresh_buffer,
    is_cloud_id, occurs_at, occurs_in, read_ssh_id, Proposal,
};
use crate::server::response::Response;
use crate::server::session::{
    default_adjust_window, default_auth, default_channel_open, default_tcpip_forward,
    session_result, ChannelMsg, Session,
};
use crate::session::CommonSession;
use crate::suite::Suite;
use crate::time::Duration;
use russh_cryptovec::CryptoVec;
use russh_keys::key::KeyPair;
use std::sync::Arc;
use vstd::prelude::*;

verus! {

broadcast use group_be32;

/// A new buffer is empty, and nothing went through it.
pub proof fn law_buffer_begins_empty(buffer: SSHBuffer)
    requires
        call_ensures(SSHBuffer::new, (), buffer),
    ensures
        cryptovec_bytes(buffer.buffer).len() == 0,
        buffer.len == 0,
        buffer.bytes == 0,
        buffer.seqn == 0,
{
}

/// A side identifies itself by its line and its end, behind what it sent before.
pub proof fn law_send_ssh_id(buffer: &mut SSHBuffer, id: &[u8])
    requires
        call_ensures(SSHBuffer::send_ssh_id, (buffer, id), ()),
    ensures
        ({
            let (before, after) = (
                cryptovec_bytes(old(buffer).buffer),
                cryptovec_bytes(final(buffer).buffer),
            );
            &&& after.len() == before.len() + id@.len() + 2
            &&& after.take(before.len() as int) == before
            &&& after.skip(before.len() as int).take(id@.len() as int) == id@
            &&& after[after.len() - 2] == 13
            &&& after[after.len() - 1] == 10
        }),
        final(buffer).len == old(buffer).len,
        final(buffer).bytes == old(buffer).bytes,
        final(buffer).seqn == old(buffer).seqn,
{
    let (before, after) = (
        cryptovec_bytes(old(buffer).buffer),
        cryptovec_bytes(final(buffer).buffer),
    );
    assert(after.take(before.len() as int) =~= before);
    assert(after.skip(before.len() as int).take(id@.len() as int) =~= id@);
}

/// `text` stands somewhere in `s`.
pub open spec fn stands_in(text: Seq<u8>, s: Seq<u8>) -> bool {
    exists|head: Seq<u8>, tail: Seq<u8>| s == #[trigger] (head + text + tail)
}

/// A client is a cloud client where the text `wjyl` stands somewhere in its
/// identification, whatever stands before and behind it.
pub proof fn law_is_cloud_id(sshid: &[u8], is_cloud: bool)
    requires
        call_ensures(is_cloud_id, (sshid,), is_cloud),
    ensures
        is_cloud <==> stands_in(seq![119u8, 106u8, 121u8, 108u8], sshid@),
        vstd::utf8::encode_utf8("wjyl"@) == seq![119u8, 106u8, 121u8, 108u8],
{
    let mark = seq![119u8, 106u8, 121u8, 108u8];
    reveal_strlit("wjyl");
    vstd::utf8::is_ascii_chars_encode_utf8("wjyl"@);
    assert(vstd::utf8::encode_utf8("wjyl"@) =~= mark);
    lemma_occurs(mark, sshid@);
}

proof fn lemma_occurs(pattern: Seq<u8>, s: Seq<u8>)
    ensures
        occurs_in(pattern, s) <==> stands_in(pattern, s),
{
    if occurs_in(pattern, s) {
        let i = choose|i: int| occurs_at(pattern, s, i);
        let (head, tail) = (s.take(i), s.skip(i + pattern.len()));
        assert(s =~= head + s.subrange(i, i + pattern.len()) + tail);
        assert(s == head + pattern + tail);
    }
    if stands_in(pattern, s) {
        let (head, tail) = choose|head: Seq<u8>, tail: Seq<u8>|
            s == #[trigger] (head + pattern + tail);
        let i = head.len() as int;
        assert(s.subrange(i, i + pattern.len()) =~= pattern);
        assert(occurs_at(pattern, s, i));
    }
}

/// A key exchange of which nothing was sent or received, between sides that
/// identified themselves as given.
pub open spec fn untouched(kexinit: KexInit, server_id: Seq<u8>, client_id: Seq<u8>) -> bool {
    &&& cryptovec_bytes(kexinit.exchange.client_id) == client_id
    &&& cryptovec_bytes(kexinit.exchange.server_id) == server_id
    &&& no_keys_held(kexinit.exchange)
    &&& kexinit.algo is None
    &&& kexinit.sent == false
    &&& kexinit.session_id is None
}

/// The first key exchange knows who the sides are, and nothing else.
pub proof fn law_first_exchange(server_id: &[u8], sshid: &[u8], kexinit: KexInit)
    requires
        call_ensures(first_exchange, (server_id, sshid), kexinit),
    ensures
        untouched(kexinit, server_id@, sshid@),
{
}

/// A connection that has just begun: it has what came of the proposal, its key
/// exchange is under negotiation, nobody is authenticated, and nothing is
/// encrypted.
pub open spec fn begins_with_proposal<P, S: Suite>(
    session: CommonSession<Arc<Config<P>>, S>,
    config: Arc<Config<P>>,
    is_cloud: bool,
    proposal: Proposal<S>,
) -> bool {
    &&& session.config == config
    &&& session.is_cloud == is_cloud
    &&& session.kex is Some
    &&& session.kex->0 is Init
    &&& session.kex->0->Init_0 == proposal.kexinit
    &&& session.cipher == proposal.cipher
    &&& session.write_buffer == proposal.write_buffer
    &&& session.encrypted is None
    &&& session.auth_user@.len() == 0
    &&& session.auth_method is None
    &&& session.wants_reply == false
    &&& session.disconnected == false
    &&& cryptovec_bytes(session.buffer).len() == 0
}

/// A connection begins with its configuration and its proposal.
pub proof fn law_begin_session<P, S: Suite>(
    config: Arc<Config<P>>,
    is_cloud: bool,
    proposal: Proposal<S>,
    session: CommonSession<Arc<Config<P>>, S>,
)
    requires
        call_ensures(begin_session::<P, S>, (config, is_cloud, proposal), session),
    ensures
        begins_with_proposal(session, config, is_cloud, proposal),
{
}

/// What a proposal starts from: an untouched key exchange, the given cipher and
/// an empty buffer.
pub open spec fn starts_from<S: Suite>(
    start: Proposal<S>,
    server_id: Seq<u8>,
    client_id: Seq<u8>,
    cipher: S::Ciphers,
) -> bool {
    &&& untouched(start.kexinit, server_id, client_id)
    &&& start.cipher == cipher
    &&& cryptovec_bytes(start.write_buffer.buffer).len() == 0
    &&& start.write_buffer.len == 0
    &&& start.write_buffer.bytes == 0
    &&& start.write_buffer.seqn == 0
}

/// A connection begins with what the proposal made of an untouched key exchange
/// between the server of the configuration and the client, or fails as the
/// proposal did. It is one of a cloud client where the identification says so.
pub proof fn law_read_ssh_id<P, S: Suite, F>(
    config: Arc<Config<P>>,
    sshid: &[u8],
    cipher: S::Ciphers,
    propose: F,
    res: Result<CommonSession<Arc<Config<P>>, S>, Error>,
    is_cloud: bool,
) where F: FnOnce(&Config<P>, Proposal<S>) -> Result<Proposal<S>, Error>
    requires
        call_ensures(read_ssh_id::<P, S, F>, (config, sshid, cipher, propose), res),
        is_cloud <==> stands_in(seq![119u8, 106u8, 121u8, 108u8], sshid@),
    ensures
        exists|start: Proposal<S>, proposed: Result<Proposal<S>, Error>|
            {
                &&& starts_from(
                    start,
                    vstd::utf8::encode_utf8(config.server_id@),
                    sshid@,
                    cipher,
                )
                &&& #[trigger] call_ensures(propose, (&*config, start), proposed)
                &&& res is Ok <==> proposed is Ok
                &&& res is Ok ==> begins_with_proposal(
                    res->Ok_0,
                    config,
                    is_cloud,
                    proposed->Ok_0,
                )
                &&& res is Err ==> res->Err_0 == proposed->Err_0
            },
{
    lemma_occurs(seq![119u8, 106u8, 121u8, 108u8], sshid@);
}

/// The next answer stands behind its length of four bytes at the position that
/// was reached, and the next position is behind it. There is none where as many
/// were taken as the client announced, or where the message ends before it.
pub proof fn law_response_next<'a>(response: &mut Response<'a>, answer: Option<&'a [u8]>)
    requires
        call_ensures(Response::<'a>::next, (response,), answer),
    ensures
        final(response).s == old(response).s,
        old(response).n == 0 ==> answer is None && final(response).n == 0 && final(response).position == old(response).position,
        old(response).n > 0 ==> ({
            let (s, at) = (old(response).s@, old(response).position as int);
            let len = number_at(s, at);
            &&& final(response).n == old(response).n - 1
            &&& answer is Some <==> at + 4 <= s.len() && at + 4 + len <= s.len()
            &&& answer is Some ==> answer->0@ == s.subrange(at + 4, at + 4 + len)
                && final(response).position == at + 4 + len
            &&& at + 4 > s.len() ==> final(response).position == at
            &&& at + 4 <= s.len() < at + 4 + len ==> final(response).position == at + 4
        }),
{
    let (s, at) = (old(response).s@, old(response).position as int);
    reveal(be32_value);
    if at + 4 <= s.len() {
        assert(be32_value(s.skip(at)) == number_at(s, at));
    }
}

/// A session begins under its number, with the window of its configuration, and
/// without channels or packets.
pub proof fn law_session_new<P, S: Suite, R, H, T>(
    session_id: u64,
    common: CommonSession<Arc<Config<P>>, S>,
    receiver: R,
    sender: H,
    session: Session<P, S, R, H, T>,
)
    requires
        call_ensures(
            Session::<P, S, R, H, T>::new,
            (session_id, common, receiver, sender),
            session,
        ),
    ensures
        session.session_id == session_id,
        session.common == common,
        session.target_window_size == common.config.window_size,
        session.receiver == receiver,
        session.sender == sender,
        session.pending_reads@.len() == 0,
        session.pending_len == 0,
        forall|id: u32| !session.channels@.contains_key(id),
{
}

/// A confirmation goes to the user of its channel as it came, and nowhere where
/// the channel has none.
pub proof fn law_channel_open_confirmation<'a, P, S: Suite, R, H, T>(
    session: &'a Session<P, S, R, H, T>,
    id: ChannelId,
    max_packet_size: u32,
    window_size: u32,
    route: Option<(&'a T, ChannelMsg)>,
)
    requires
        call_ensures(
            Session::<P, S, R, H, T>::channel_open_confirmation,
            (session, id, max_packet_size, window_size),
            route,
        ),
    ensures
        route is Some <==> session.channels@.contains_key(id.0),
        route matches Some((user, message)) ==> {
            &&& *user == session.channels@[id.0]
            &&& message is Open
            &&& message->id == id
            &&& message->max_packet_size == max_packet_size
            &&& message->window_size == window_size
        },
{
}

/// Data goes to the user of its channel as it came, and nowhere where the channel
/// has none.
pub proof fn law_session_data<'a, P, S: Suite, R, H, T>(
    session: &'a Session<P, S, R, H, T>,
    channel: ChannelId,
    data: &[u8],
    route: Option<(&'a T, ChannelMsg)>,
)
    requires
        call_ensures(Session::<P, S, R, H, T>::data, (session, channel, data), route),
    ensures
        route is Some <==> session.channels@.contains_key(channel.0),
        route matches Some((user, message)) ==> {
            &&& *user == session.channels@[channel.0]
            &&& message is Data
            &&& cryptovec_bytes(message->Data_data) == data@
        },
{
}

/// Extended data goes to the user of its channel with its code, and nowhere where
/// the channel has none.
pub proof fn law_session_extended_data<'a, P, S: Suite, R, H, T>(
    session: &'a Session<P, S, R, H, T>,
    channel: ChannelId,
    code: u32,
    data: &[u8],
    route: Option<(&'a T, ChannelMsg)>,
)
    requires
        call_ensures(
            Session::<P, S, R, H, T>::extended_data,
            (session, channel, code, data),
            route,
        ),
    ensures
        route is Some <==> session.channels@.contains_key(channel.0),
        route matches Some((user, message)) ==> {
            &&& *user == session.channels@[channel.0]
            &&& message is ExtendedData
            &&& message->ext == code
            &&& cryptovec_bytes(message->ExtendedData_data) == data@
        },
{
}

/// A server that does not decide rejects every authentication and names no other
/// method, opens channels, forwards no ports, and keeps the target of a window.
pub proof fn law_defaults(auth: Auth, open: bool, forward: bool, current: u32, target: u32)
    requires
        call_ensures(default_auth, (), auth),
        call_ensures(default_channel_open, (), open),
        call_ensures(default_tcpip_forward, (), forward),
        call_ensures(default_adjust_window, (current,), target),
    ensures
        auth is Reject,
        auth->proceed_with_methods is None,
        open,
        !forward,
        target == current,
{
}

/// A session whose task ended ended as the task says. One whose task did not end
/// ended with the error of the task.
pub proof fn law_session_result<T, E>(r: Result<Result<T, E>, E>, res: Result<T, E>)
    requires
        call_ensures(session_result::<T, E>, (r,), res),
    ensures
        r is Ok ==> res == r->Ok_0,
        r is Err ==> res is Err && res->Err_0 == r->Err_0,
{
}

/// The line of a program: the version of the protocol, its name and its version.
pub proof fn law_ssh_id(name: &str, version: &str, id: String)
    requires
        call_ensures(ssh_id, (name, version), id),
    ensures
        id@ == seq!['S', 'S', 'H', '-', '2', '.', '0', '-'] + name@ + seq!['_'] + version@,
{
    reveal_strlit("SSH-2.0-");
    reveal_strlit("_");
    assert("SSH-2.0-"@ =~= seq!['S', 'S', 'H', '-', '2', '.', '0', '-']);
    assert("_"@ =~= seq!['_']);
}

/// The default configuration.
pub proof fn law_config_default<P: Default>(config: Config<P>)
    requires
        call_ensures(<Config<P> as Default>::default, (), config),
    ensures
        config.server_id@ == seq!['S', 'S', 'H', '-', '2', '.', '0', '-'] + seq![
            'r',
            'u',
            's',
            's',
            'h',
        ] + seq!['_'] + seq!['0', '.', '1', '.', '0'],
        config.methods.none && config.methods.password && config.methods.publickey,
        config.methods.hostbased && config.methods.keyboard_interactive,
        config.auth_banner is None,
        config.auth_rejection_time.nanos == 1_000_000_000,
        config.keys@.len() == 0,
        config.limits.rekey_write_limit == 1_073_741_824,
        config.limits.rekey_read_limit == 1_073_741_824,
        config.limits.rekey_time_limit.nanos == 3_600_000_000_000,
        config.window_size == 2_097_152,
        config.maximum_packet_size == 32_768,
        call_ensures(P::default, (), config.preferred),
        config.max_auth_attempts == 10,
        config.connection_timeout is Some,
        config.connection_timeout->0.nanos == 600_000_000_000,
{
    reveal_strlit("SSH-2.0-");
    reveal_strlit("russh");
    reveal_strlit("_");
    reveal_strlit("0.1.0");
    assert("SSH-2.0-"@ =~= seq!['S', 'S', 'H', '-', '2', '.', '0', '-']);
    assert("russh"@ =~= seq!['r', 'u', 's', 's', 'h']);
    assert("_"@ =~= seq!['_']);
    assert("0.1.0"@ =~= seq!['0', '.', '1', '.', '0']);
}

/// Packets that may be larger than 65535 bytes exceed what TCP carries in one
/// piece.
pub proof fn law_packets_exceed_tcp<P>(config: Config<P>, exceed: bool)
    requires
        call_ensures(Config::<P>::packets_exceed_tcp, (&config,), exceed),
    ensures
        exceed <==> config.maximum_packet_size >= 65_536,
{
}

/// The default limits are one gigabyte either way and one hour.
pub proof fn law_limits_default(limits: Limits)
    requires
        call_ensures(<Limits as Default>::default, (), limits),
    ensures
        limits.rekey_write_limit == 1_073_741_824,
        limits.rekey_read_limit == 1_073_741_824,
        limits.rekey_time_limit.nanos == 3_600_000_000_000,
{
}

/// A second has 10^9 nanoseconds.
pub proof fn law_seconds(secs: u64, time: Duration)
    requires
        call_ensures(Duration::from_secs, (secs,), time),
    ensures
        time.nanos == secs * 1_000_000_000,
{
}

/// The set of all methods has each of them.
pub proof fn law_all_methods(methods: MethodSet)
    requires
        call_ensures(MethodSet::all, (), methods),
    ensures
        methods.none,
        methods.password,
        methods.publickey,
        methods.hostbased,
        methods.keyboard_interactive,
{
}

} // verus!
