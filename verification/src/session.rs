//! The state of a connection, before and after it is encrypted.
use crate::algorithm::{Compress, Decompress};
#[allow(unused_imports)]
use crate::be32::{be32, group_be32};
use crate::buffer::{cryptovec_bytes, extend_ssh_string, push_packet, room, SSHBuffer};
use crate::channel::ChannelId;
use crate::encrypted::{Encrypted, EncryptedState};
use crate::kex::{Kex, NewKeys};
use crate::msg;
use crate::suite::Suite;
use crate::time::{clock_read, law_clock_read_is_now, now};
use crate::wire::{frame, ssh_string};
use russh_cryptovec::CryptoVec;
use std::collections::HashMap;
use vstd::prelude::*;
#[allow(unused_imports)]
use vstd::string::StringSliceAdditionalSpecFns;

verus! {

broadcast use group_be32;

/// Why a side ends a connection.
#[derive(Clone, Copy, Debug, PartialEq, Eq, Structural)]
pub enum Disconnect {
    HostNotAllowedToConnect,
    ProtocolError,
    KeyExchangeFailed,
    Reserved,
    MACError,
    CompressionError,
    ServiceNotAvailable,
    ProtocolVersionNotSupported,
    HostKeyNotVerifiable,
    ConnectionLost,
    ByApplication,
    TooManyConnections,
    AuthCancelledByUser,
    NoMoreAuthMethodsAvailable,
    IllegalUserName,
}

impl Disconnect {
    /// The number of the reason in the protocol.
    pub open spec fn number(self) -> u32 {
        match self {
            Disconnect::HostNotAllowedToConnect => 1,
            Disconnect::ProtocolError => 2,
            Disconnect::KeyExchangeFailed => 3,
            Disconnect::Reserved => 4,
            Disconnect::MACError => 5,
            Disconnect::CompressionError => 6,
            Disconnect::ServiceNotAvailable => 7,
            Disconnect::ProtocolVersionNotSupported => 8,
            Disconnect::HostKeyNotVerifiable => 9,
            Disconnect::ConnectionLost => 10,
            Disconnect::ByApplication => 11,
            Disconnect::TooManyConnections => 12,
            Disconnect::AuthCancelledByUser => 13,
            Disconnect::NoMoreAuthMethodsAvailable => 14,
            Disconnect::IllegalUserName => 15,
        }
    }

    /// The number of the reason in the protocol.
    pub fn code(self) -> (code: u32)
        ensures
            code == self.number(),
    {
        match self {
            Disconnect::HostNotAllowedToConnect => 1,
            Disconnect::ProtocolError => 2,
            Disconnect::KeyExchangeFailed => 3,
            Disconnect::Reserved => 4,
            Disconnect::MACError => 5,
            Disconnect::CompressionError => 6,
            Disconnect::ServiceNotAvailable => 7,
            Disconnect::ProtocolVersionNotSupported => 8,
            Disconnect::HostKeyNotVerifiable => 9,
            Disconnect::ConnectionLost => 10,
            Disconnect::ByApplication => 11,
            Disconnect::TooManyConnections => 12,
            Disconnect::AuthCancelledByUser => 13,
            Disconnect::NoMoreAuthMethodsAvailable => 14,
            Disconnect::IllegalUserName => 15,
        }
    }
}

/// The payload of the message that ends a connection.
pub open spec fn disconnect_payload(
    reason: Disconnect,
    description: Seq<u8>,
    language_tag: Seq<u8>,
) -> Seq<u8> {
    seq![msg::DISCONNECT] + be32(reason.number() as int) + ssh_string(description) + ssh_string(
        language_tag,
    )
}

/// The state of a connection.
pub struct CommonSession<Config, S: Suite> {
    pub auth_user: String,
    pub config: Config,
    pub encrypted: Option<Encrypted<S>>,
    pub auth_method: Option<S::AuthMethod>,
    pub write_buffer: SSHBuffer,
    pub kex: Option<Kex<S>>,
    pub cipher: S::Ciphers,
    pub wants_reply: bool,
    pub disconnected: bool,
    pub buffer: CryptoVec,
    pub is_cloud: bool,
}

impl<C, S: Suite> CommonSession<C, S> {
    /// Nothing but the key exchange, the cipher, the encrypted session, the
    /// outgoing bytes and whether the connection ended differs.
    pub open spec fn same_session(self, other: CommonSession<C, S>) -> bool {
        &&& self.auth_user == other.auth_user
        &&& self.config == other.config
        &&& self.auth_method == other.auth_method
        &&& self.wants_reply == other.wants_reply
        &&& self.buffer == other.buffer
        &&& self.is_cloud == other.is_cloud
    }

    /// Takes over the outcome of another key exchange. Nothing happens before
    /// the connection is encrypted.
    pub fn newkeys(&mut self, newkeys: NewKeys<S>)
        ensures
            final(self).same_session(*old(self)),
            final(self).kex == old(self).kex,
            final(self).write_buffer == old(self).write_buffer,
            final(self).disconnected == old(self).disconnected,
            match old(self).encrypted {
                Some(before) => {
                    &&& final(self).cipher == newkeys.cipher
                    &&& final(self).encrypted == Some(
                        Encrypted {
                            exchange: Some(newkeys.exchange),
                            kex: newkeys.kex,
                            key: newkeys.key,
                            client_mac: newkeys.names.client_mac,
                            server_mac: newkeys.names.server_mac,
                            ..before
                        },
                    )
                },
                None => {
                    &&& final(self).cipher == old(self).cipher
                    &&& final(self).encrypted is None
                },
            },
    {
        if let Some(enc) = &mut self.encrypted {
            enc.exchange = Some(newkeys.exchange);
            enc.kex = newkeys.kex;
            enc.key = newkeys.key;
            enc.client_mac = newkeys.names.client_mac;
            enc.server_mac = newkeys.names.server_mac;
            self.cipher = newkeys.cipher;
        }
    }
}

impl<S: Suite> Encrypted<S> {
    /// `self` is an encrypted session that has just begun with the given keys.
    pub open spec fn begun(self, state: EncryptedState<S>, newkeys: NewKeys<S>, is_cloud: bool)
        -> bool {
        &&& self.state == state
        &&& self.exchange == Some(newkeys.exchange)
        &&& self.kex == newkeys.kex
        &&& self.key == newkeys.key
        &&& self.client_mac == newkeys.names.client_mac
        &&& self.server_mac == newkeys.names.server_mac
        &&& self.session_id == newkeys.session_id
        &&& self.rekey is None
        &&& self.channels@ == Map::<u32, crate::channel::ChannelParams>::empty()
        &&& self.last_channel_id == 1
        &&& self.queue() == Seq::<u8>::empty()
        &&& self.write_cursor == 0
        &&& clock_read(self.last_rekey)
        &&& self.server_compression == newkeys.names.server_compression
        &&& self.client_compression == newkeys.names.client_compression
        &&& self.compress == Compress::<S::Deflate>::Off
        &&& self.decompress == Decompress::<S::Inflate>::Off
        &&& cryptovec_bytes(self.compress_buffer) == Seq::<u8>::empty()
        &&& self.is_cloud == is_cloud
    }
}

impl<C, S: Suite> CommonSession<C, S> {
    /// Begins an encrypted session with the outcome of the first key exchange.
    pub fn encrypted(&mut self, state: EncryptedState<S>, newkeys: NewKeys<S>)
        ensures
            final(self).same_session(*old(self)),
            final(self).kex == old(self).kex,
            final(self).write_buffer == old(self).write_buffer,
            final(self).disconnected == old(self).disconnected,
            final(self).cipher == newkeys.cipher,
            final(self).encrypted matches Some(enc) && enc.begun(
                state,
                newkeys,
                old(self).is_cloud,
            ),
    {
        proof {
            broadcast use law_clock_read_is_now;

        }
        self.encrypted = Some(
            Encrypted {
                exchange: Some(newkeys.exchange),
                kex: newkeys.kex,
                key: newkeys.key,
                client_mac: newkeys.names.client_mac,
                server_mac: newkeys.names.server_mac,
                session_id: newkeys.session_id,
                state,
                rekey: None,
                channels: HashMap::new(),
                last_channel_id: 1,
                write: CryptoVec::new(),
                write_cursor: 0,
                last_rekey: now(),
                server_compression: newkeys.names.server_compression,
                client_compression: newkeys.names.client_compression,
                compress: Compress::Off,
                compress_buffer: CryptoVec::new(),
                decompress: Decompress::Off,
                is_cloud: self.is_cloud,
            },
        );
        self.cipher = newkeys.cipher;
    }

    /// The bytes to which outgoing packets are appended.
    pub open spec fn outgoing(self) -> Seq<u8> {
        match self.encrypted {
            Some(enc) => enc.queue(),
            None => cryptovec_bytes(self.write_buffer.buffer),
        }
    }

    /// Nothing but the outgoing bytes differs, in the encrypted session where
    /// there is one.
    pub open spec fn only_outgoing_differs(self, old: CommonSession<C, S>) -> bool {
        &&& self.same_session(old)
        &&& self.kex == old.kex
        &&& self.cipher == old.cipher
        &&& match old.encrypted {
            Some(before) => {
                &&& self.encrypted matches Some(after) && after == (Encrypted {
                    write: after.write,
                    ..before
                })
                &&& self.write_buffer == old.write_buffer
            },
            None => {
                &&& self.encrypted is None
                &&& self.write_buffer == (SSHBuffer {
                    buffer: self.write_buffer.buffer,
                    ..old.write_buffer
                })
            },
        }
    }

    /// Send a disconnect message. Only the first one is sent.
    pub fn disconnect(&mut self, reason: Disconnect, description: &str, language_tag: &str)
        requires
            !old(self).disconnected ==> room(
                old(self).outgoing().len(),
                4 + disconnect_payload(
                    reason,
                    description.spec_bytes(),
                    language_tag.spec_bytes(),
                ).len(),
            ),
        ensures
            if old(self).disconnected {
                *final(self) == *old(self)
            } else {
                &&& final(self).disconnected
                &&& final(self).only_outgoing_differs(*old(self))
                &&& final(self).outgoing() == old(self).outgoing() + frame(
                    disconnect_payload(
                        reason,
                        description.spec_bytes(),
                        language_tag.spec_bytes(),
                    ),
                )
            },
    {
        if !self.disconnected {
            self.disconnected = true;
            let mut packet = CryptoVec::new();
            packet.push(msg::DISCONNECT);
            packet.push_u32_be(reason.code());
            extend_ssh_string(&mut packet, description.as_bytes());
            extend_ssh_string(&mut packet, language_tag.as_bytes());
            assert(cryptovec_bytes(packet) =~= disconnect_payload(
                reason,
                description.spec_bytes(),
                language_tag.spec_bytes(),
            ));
            if let Some(enc) = &mut self.encrypted {
                push_packet(&mut enc.write, &packet);
            } else {
                push_packet(&mut self.write_buffer.buffer, &packet);
            }
        }
    }

    /// Send a single byte message onto the channel. Nothing happens before the
    /// connection is encrypted.
    pub fn byte(&mut self, channel: ChannelId, msg: u8)
        requires
            old(self).encrypted matches Some(enc) ==> enc.has_room(enc.byte_packets(channel, msg)),
        ensures
            final(self).same_session(*old(self)),
            final(self).kex == old(self).kex,
            final(self).cipher == old(self).cipher,
            final(self).write_buffer == old(self).write_buffer,
            final(self).disconnected == old(self).disconnected,
            match old(self).encrypted {
                Some(before) => {
                    &&& final(self).encrypted matches Some(after)
                    &&& after.queued(before, before.byte_packets(channel, msg))
                    &&& after.same_channels(before)
                },
                None => final(self).encrypted is None,
            },
    {
        if let Some(enc) = &mut self.encrypted {
            enc.byte(channel, msg)
        }
    }

    /// Sends waiting data of a channel whose window the other side opened
    /// further.
    pub fn window_adjusted(&mut self, channel: ChannelId)
        requires
            old(self).encrypted matches Some(enc) ==> {
                &&& enc.channels@.contains_key(channel.0) ==> enc.channels@[channel.0].can_drain()
                &&& enc.has_room(enc.pending_packets(channel))
            },
        ensures
            final(self).same_session(*old(self)),
            final(self).kex == old(self).kex,
            final(self).cipher == old(self).cipher,
            final(self).write_buffer == old(self).write_buffer,
            final(self).disconnected == old(self).disconnected,
            match old(self).encrypted {
                Some(before) => {
                    &&& final(self).encrypted matches Some(after)
                    &&& after.queued(before, before.pending_packets(channel))
                    &&& if before.channels@.contains_key(channel.0) {
                        &&& after.only_channel_differs(before, channel)
                        &&& after.channels@[channel.0].flushed(before.channels@[channel.0])
                    } else {
                        after.same_channels(before)
                    }
                },
                None => final(self).encrypted is None,
            },
    {
        if let Some(enc) = &mut self.encrypted {
            enc.flush_pending(channel);
        }
    }
}

} // verus!
