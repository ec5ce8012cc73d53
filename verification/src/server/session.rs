//! A running session of a server: the messages that go to the users of its
//! channels, and what happens where a server does not say otherwise.
use crate::auth::Auth;
use crate::buffer::{cryptovec_bytes, room};
use crate::channel::ChannelId;
use crate::server::config::Config;
use crate::session::CommonSession;
use crate::suite::Suite;
use russh_cryptovec::CryptoVec;
use std::collections::HashMap;
use std::sync::Arc;
use vstd::prelude::*;

verus! {

/// A message to the user of a channel.
#[derive(Debug)]
pub enum ChannelMsg {
    /// The other side confirmed the channel.
    Open { id: ChannelId, max_packet_size: u32, window_size: u32 },
    /// Data came in.
    Data { data: CryptoVec },
    /// Extended data came in.
    ExtendedData { ext: u32, data: CryptoVec },
}

/// A running session. `R` receives what is asked of the session, `H` asks it,
/// and `T` takes messages to the user of a channel.
pub struct Session<P, S: Suite, R, H, T> {
    pub session_id: u64,
    pub common: CommonSession<Arc<Config<P>>, S>,
    pub target_window_size: u32,
    pub receiver: R,
    pub sender: H,
    pub pending_reads: Vec<CryptoVec>,
    pub pending_len: u32,
    /// The users of the channels, by the number of their `ChannelId`.
    pub channels: HashMap<u32, T>,
}

impl<P, S: Suite, R, H, T> Session<P, S, R, H, T> {
    /// A session that has just begun. Its channels begin with the window of the
    /// configuration.
    pub fn new(
        session_id: u64,
        common: CommonSession<Arc<Config<P>>, S>,
        receiver: R,
        sender: H,
    ) -> (session: Session<P, S, R, H, T>)
        ensures
            session.session_id == session_id,
            session.common == common,
            session.target_window_size == common.config.window_size,
            session.receiver == receiver,
            session.sender == sender,
            session.pending_reads@ == Seq::<CryptoVec>::empty(),
            session.pending_len == 0,
            session.channels@ == Map::<u32, T>::empty(),
    {
        Session {
            session_id,
            target_window_size: common.config.window_size,
            common,
            receiver,
            sender,
            pending_reads: Vec::new(),
            pending_len: 0,
            channels: HashMap::new(),
        }
    }

    /// `route` leads to the user of the given channel, if it has one.
    pub open spec fn leads_to<'a>(
        &'a self,
        channel: ChannelId,
        route: Option<(&'a T, ChannelMsg)>,
    ) -> bool {
        match route {
            Some((user, _)) => self.channels@.contains_key(channel.0) && *user
                == self.channels@[channel.0],
            None => !self.channels@.contains_key(channel.0),
        }
    }

    /// To whom a confirmation that a channel is open goes, and as what.
    pub fn channel_open_confirmation<'a>(
        &'a self,
        id: ChannelId,
        max_packet_size: u32,
        window_size: u32,
    ) -> (route: Option<(&'a T, ChannelMsg)>)
        ensures
            self.leads_to(id, route),
            route matches Some((_, message)) ==> message == (ChannelMsg::Open {
                id,
                max_packet_size,
                window_size,
            }),
    {
        match self.channels.get(&id.0) {
            Some(user) => Some((user, ChannelMsg::Open { id, max_packet_size, window_size })),
            None => None,
        }
    }

    /// To whom data of a channel goes, and as what.
    pub fn data<'a>(&'a self, channel: ChannelId, data: &[u8]) -> (route: Option<
        (&'a T, ChannelMsg),
    >)
        requires
            self.channels@.contains_key(channel.0) ==> room(0, data@.len()),
        ensures
            self.leads_to(channel, route),
            route matches Some((_, message)) ==> (message matches ChannelMsg::Data { data: copy }
                && cryptovec_bytes(copy) == data@),
    {
        match self.channels.get(&channel.0) {
            Some(user) => Some((user, ChannelMsg::Data { data: CryptoVec::from_slice(data) })),
            None => None,
        }
    }

    /// To whom extended data of a channel goes, and as what. Code 1 means
    /// that it comes from stderr, other codes are not defined (see
    /// [RFC4254](https://tools.ietf.org/html/rfc4254#section-5.2)).
    pub fn extended_data<'a>(&'a self, channel: ChannelId, code: u32, data: &[u8]) -> (route:
        Option<(&'a T, ChannelMsg)>)
        requires
            self.channels@.contains_key(channel.0) ==> room(0, data@.len()),
        ensures
            self.leads_to(channel, route),
            route matches Some((_, message)) ==> (message matches ChannelMsg::ExtendedData {
                ext,
                data: copy,
            } && ext == code && cryptovec_bytes(copy) == data@),
    {
        match self.channels.get(&channel.0) {
            Some(user) => Some(
                (user, ChannelMsg::ExtendedData { ext: code, data: CryptoVec::from_slice(data) }),
            ),
            None => None,
        }
    }
}

/// The answer to an authentication request that a server does not look at.
pub fn default_auth() -> (auth: Auth)
    ensures
        auth == (Auth::Reject { proceed_with_methods: None }),
{
    Auth::Reject { proceed_with_methods: None }
}

/// Whether a channel is opened where a server does not decide it.
pub fn default_channel_open() -> (granted: bool)
    ensures
        granted,
{
    true
}

/// Whether ports are forwarded, or no longer forwarded, where a server does not
/// decide it.
pub fn default_tcpip_forward() -> (granted: bool)
    ensures
        !granted,
{
    false
}

/// The next target of a window that was opened again, where a server does not
/// choose one.
pub fn default_adjust_window(current: u32) -> (target: u32)
    ensures
        target == current,
{
    current
}

/// How a session ended whose task ended with `r`: as the session did, or with
/// the error of a task that did not finish.
pub fn session_result<T, E>(r: Result<Result<T, E>, E>) -> (res: Result<T, E>)
    ensures
        res == match r {
            Ok(ended) => ended,
            Err(error) => Err(error),
        },
{
    match r {
        Ok(Ok(x)) => Ok(x),
        Err(e) => Err(e),
        Ok(Err(e)) => Err(e),
    }
}

} // verus!
