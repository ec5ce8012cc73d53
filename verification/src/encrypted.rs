//! An encrypted session: its queue of packets and its channels.
use crate::algorithm::{Compress, Compression, Decompress, KexAlgorithm, MacName};
#[allow(unused_imports)]
use crate::be32::{be32, be32_value, group_be32, two32};
use crate::buffer::{as_slice, cryptovec_bytes, push_packet, read_u32, room, SSHBuffer};
use crate::channel::{
    data_noqueue, drained_in_order, enumerates, flush_channel, lemma_drained_in_order_len,
    lemma_no_packets, send_packets, window_part, ChannelId, ChannelParams, Pending,
};
use crate::error::Error;
use crate::kex::{Exchange, Kex};
use crate::limits::Limits;
use crate::msg;
use crate::suite::Suite;
use crate::time::{
    clock_read, duration_since, law_clock_read_is_now, nanos_since, now, Duration,
};
use crate::wire::{frames, lemma_frames_append, unframe};
use russh_cryptovec::CryptoVec;
use std::collections::hash_map::Entry;
use std::collections::{HashMap, VecDeque};
use std::time::Instant;
use vstd::prelude::*;
#[allow(unused_imports)]
use vstd::std_specs::iter::IteratorSpec;

verus! {

broadcast use group_be32;

/// How far the authentication of an encrypted session has come.
pub enum EncryptedState<S: Suite> {
    WaitingAuthServiceRequest { sent: bool, accepted: bool },
    WaitingAuthRequest(S::AuthRequest),
    InitCompression,
    Authenticated,
}

/// The state of a session from the first exchange of keys on.
pub struct Encrypted<S: Suite> {
    pub state: EncryptedState<S>,
    pub exchange: Option<Exchange>,
    pub kex: KexAlgorithm<S::Kex>,
    pub key: usize,
    pub client_mac: MacName,
    pub server_mac: MacName,
    pub session_id: CryptoVec,
    pub rekey: Option<Kex<S>>,
    /// The open channels, by the number of their `ChannelId`.
    pub channels: HashMap<u32, ChannelParams>,
    pub last_channel_id: u32,
    /// The queue of packets. Those before `write_cursor` were sent.
    pub write: CryptoVec,
    pub write_cursor: usize,
    pub last_rekey: Instant,
    pub server_compression: Compression,
    pub client_compression: Compression,
    pub compress: Compress<S::Deflate>,
    pub decompress: Decompress<S::Inflate>,
    pub compress_buffer: CryptoVec,
    pub is_cloud: bool,
}

impl<S: Suite> Encrypted<S> {
    /// Nothing but the queue, the channels and the last channel number differs.
    pub open spec fn same_connection(self, other: Encrypted<S>) -> bool {
        &&& self.state == other.state
        &&& self.exchange == other.exchange
        &&& self.kex == other.kex
        &&& self.key == other.key
        &&& self.client_mac == other.client_mac
        &&& self.server_mac == other.server_mac
        &&& self.session_id == other.session_id
        &&& self.rekey == other.rekey
        &&& self.last_rekey == other.last_rekey
        &&& self.server_compression == other.server_compression
        &&& self.client_compression == other.client_compression
        &&& self.compress == other.compress
        &&& self.decompress == other.decompress
        &&& self.compress_buffer == other.compress_buffer
        &&& self.is_cloud == other.is_cloud
    }

    /// The bytes of the queue of packets.
    pub open spec fn queue(self) -> Seq<u8> {
        cryptovec_bytes(self.write)
    }

    /// `self` is `old` with the given packets added to the queue.
    pub open spec fn queued(self, old: Encrypted<S>, payloads: Seq<Seq<u8>>) -> bool {
        &&& self.queue() == old.queue() + frames(payloads)
        &&& self.write_cursor == old.write_cursor
        &&& self.same_connection(old)
    }

    /// The queue has room for the given packets.
    pub open spec fn has_room(self, payloads: Seq<Seq<u8>>) -> bool {
        room(self.queue().len(), frames(payloads).len())
    }
}

/// The payload of a message that consists of its number and the channel.
pub open spec fn byte_payload(message: u8, recipient: u32) -> Seq<u8> {
    seq![message] + be32(recipient as int)
}

impl<S: Suite> Encrypted<S> {
    /// The packets that `byte` queues.
    pub open spec fn byte_packets(self, channel: ChannelId, message: u8) -> Seq<Seq<u8>> {
        if self.channels@.contains_key(channel.0) {
            seq![byte_payload(message, self.channels@[channel.0].recipient_channel)]
        } else {
            Seq::empty()
        }
    }

    /// Queues a message that consists of its number and a channel. Nothing
    /// happens where there is no such channel.
    pub fn byte(&mut self, channel: ChannelId, msg: u8)
        requires
            old(self).has_room(old(self).byte_packets(channel, msg)),
        ensures
            final(self).queued(*old(self), old(self).byte_packets(channel, msg)),
            final(self).channels@ == old(self).channels@,
            final(self).last_channel_id == old(self).last_channel_id,
    {
        if let Some(params) = self.channels.get(&channel.0) {
            proof {
                crate::wire::lemma_frames_one(byte_payload(msg, params.recipient_channel));
            }
            let mut packet = CryptoVec::new();
            packet.push(msg);
            packet.push_u32_be(params.recipient_channel);
            assert(cryptovec_bytes(packet) =~= byte_payload(msg, params.recipient_channel));
            push_packet(&mut self.write, &packet);
        } else {
            assert(self.queue() =~= old(self).queue() + frames(Seq::empty()));
        }
    }
}

/// The window for incoming data after `len` more bytes came in. Data that
/// exceeds the window is ignored. Lengths count modulo 2^32.
pub open spec fn window_after_data(window: u32, len: nat) -> int {
    if len as int % two32() <= window {
        window - len as int % two32()
    } else {
        window as int
    }
}

/// The payload of a message that opens the window of a channel further.
pub open spec fn window_adjust_payload(recipient: u32, amount: int) -> Seq<u8> {
    seq![msg::CHANNEL_WINDOW_ADJUST] + be32(recipient as int) + be32(amount)
}

impl<S: Suite> Encrypted<S> {
    /// Nothing but the given channel differs, and it is there in both.
    pub open spec fn only_channel_differs(self, old: Encrypted<S>, channel: ChannelId) -> bool {
        &&& old.channels@.contains_key(channel.0)
        &&& self.channels@ == old.channels@.insert(channel.0, self.channels@[channel.0])
        &&& self.channels@[channel.0].same_channel(old.channels@[channel.0])
        &&& self.last_channel_id == old.last_channel_id
    }

    /// The channels are the same.
    pub open spec fn same_channels(self, old: Encrypted<S>) -> bool {
        &&& self.channels@ == old.channels@
        &&& self.last_channel_id == old.last_channel_id
    }

    /// Whether `adjust_window_size` opens the window again.
    pub open spec fn adjusts_window(self, channel: ChannelId, len: nat, target: u32) -> bool {
        &&& self.channels@.contains_key(channel.0)
        &&& window_after_data(self.channels@[channel.0].sender_window_size, len) < target / 2
    }

    /// The packets that `adjust_window_size` queues.
    pub open spec fn adjust_packets(self, channel: ChannelId, len: nat, target: u32) -> Seq<
        Seq<u8>,
    > {
        let params = self.channels@[channel.0];
        if self.adjusts_window(channel, len, target) {
            seq![
                window_adjust_payload(
                    params.recipient_channel,
                    target - window_after_data(params.sender_window_size, len),
                ),
            ]
        } else {
            Seq::empty()
        }
    }

    /// `self` is `old` after `len` bytes came in on a channel whose window is
    /// opened up to `target` again.
    pub open spec fn took_data(
        self,
        old: Encrypted<S>,
        channel: ChannelId,
        len: nat,
        target: u32,
    ) -> bool {
        &&& self.queued(old, old.adjust_packets(channel, len, target))
        &&& if old.channels@.contains_key(channel.0) {
            let before = old.channels@[channel.0];
            let after = self.channels@[channel.0];
            &&& self.only_channel_differs(old, channel)
            &&& after.recipient_window_size == before.recipient_window_size
            &&& after.pending_data == before.pending_data
            &&& after.sender_window_size == if old.adjusts_window(channel, len, target) {
                target as int
            } else {
                window_after_data(before.sender_window_size, len)
            }
        } else {
            self.same_channels(old)
        }
    }

    /// Takes incoming data off the window of its channel. Where less than half
    /// of the target window is left, queues a message that opens the window up
    /// to the target, and tells so.
    pub fn adjust_window_size(&mut self, channel: ChannelId, data: &[u8], target: u32) -> (adjusted:
        bool)
        requires
            old(self).has_room(old(self).adjust_packets(channel, data@.len(), target)),
        ensures
            adjusted == old(self).adjusts_window(channel, data@.len(), target),
            final(self).took_data(*old(self), channel, data@.len(), target),
    {
        let ghost payloads = self.adjust_packets(channel, data@.len(), target);
        proof {
            crate::wire::lemma_frames_one(payloads[0]);
            assert(frames(Seq::empty()) =~= Seq::<u8>::empty());
        }
        match self.channels.entry(channel.0) {
            Entry::Occupied(entry) => {
                let params = entry.into_mut();
                let len = (data.len() as u64 % 0x1_0000_0000) as u32;
                // Ignore extra data.
                // https://tools.ietf.org/html/rfc4254#section-5.2
                if len <= params.sender_window_size {
                    params.sender_window_size = params.sender_window_size - len;
                }
                if params.sender_window_size < target / 2 {
                    let mut packet = CryptoVec::new();
                    packet.push(msg::CHANNEL_WINDOW_ADJUST);
                    packet.push_u32_be(params.recipient_channel);
                    packet.push_u32_be(target - params.sender_window_size);
                    assert(cryptovec_bytes(packet) =~= payloads[0]);
                    push_packet(&mut self.write, &packet);
                    params.sender_window_size = target;
                    true
                } else {
                    false
                }
            },
            Entry::Vacant(_) => {
                assert(old(self).channels@.remove(channel.0) =~= old(self).channels@);
                false
            },
        }
    }
}

/// A sequence of references whose values make up a set names exactly the
/// elements of that set.
proof fn lemma_named_by(refs: Seq<&u32>, ids: Set<u32>)
    requires
        refs.unref().to_set() == ids,
    ensures
        forall|j: int| 0 <= j < refs.len() ==> ids.contains(*#[trigger] refs[j]),
        forall|id: u32| #[trigger]
            ids.contains(id) ==> exists|j: int| 0 <= j < refs.len() && *#[trigger] refs[j] == id,
{
    let values = refs.unref();
    assert forall|j: int| 0 <= j < refs.len() implies ids.contains(*#[trigger] refs[j]) by {
        assert(values[j] == *refs[j]);
        assert(values.to_set().contains(values[j]));
    }
    assert forall|id: u32| #[trigger] ids.contains(id) implies exists|j: int|
        0 <= j < refs.len() && *#[trigger] refs[j] == id by {
        assert(values.to_set().contains(id));
        let j = choose|j: int| 0 <= j < values.len() && values[j] == id;
        assert(*refs[j] == id);
    }
}

impl<S: Suite> Encrypted<S> {
    /// The packets that `flush_pending` queues.
    pub open spec fn pending_packets(self, channel: ChannelId) -> Seq<Seq<u8>> {
        if self.channels@.contains_key(channel.0) {
            self.channels@[channel.0].drained().payloads
        } else {
            Seq::empty()
        }
    }

    /// `self` is `old` after `size` bytes of the waiting data of a channel were
    /// queued, which is as much as its window allowed.
    pub open spec fn flushed_pending(
        self,
        old: Encrypted<S>,
        channel: ChannelId,
        size: nat,
    ) -> bool {
        &&& self.queued(old, old.pending_packets(channel))
        &&& if old.channels@.contains_key(channel.0) {
            &&& size == old.channels@[channel.0].drained().size
            &&& self.only_channel_differs(old, channel)
            &&& self.channels@[channel.0].flushed(old.channels@[channel.0])
        } else {
            &&& size == 0
            &&& self.same_channels(old)
        }
    }

    /// Queues as much of the waiting data of a channel as its window allows,
    /// and returns how many bytes that was.
    pub fn flush_pending(&mut self, channel: ChannelId) -> (pending_size: usize)
        requires
            old(self).channels@.contains_key(channel.0)
                ==> old(self).channels@[channel.0].can_drain(),
            old(self).has_room(old(self).pending_packets(channel)),
        ensures
            final(self).flushed_pending(*old(self), channel, pending_size as nat),
    {
        match self.channels.entry(channel.0) {
            Entry::Occupied(entry) => flush_channel(&mut self.write, entry.into_mut()),
            Entry::Vacant(_) => {
                assert(old(self).channels@.remove(channel.0) =~= old(self).channels@);
                assert(self.queue() =~= self.queue() + frames(Seq::empty()));
                0
            },
        }
    }

    /// Queues as much of the waiting data of every channel as its window
    /// allows. Channels have no order, so that their packets come in any.
    pub fn flush_all_pending(&mut self)
        requires
            forall|id: u32| #[trigger]
                old(self).channels@.contains_key(id) ==> old(self).channels@[id].can_drain(),
            forall|order: Seq<u32>| #[trigger]
                enumerates(order, old(self).channels@.dom()) ==> old(self).has_room(
                    drained_in_order(old(self).channels@, order),
                ),
        ensures
            exists|order: Seq<u32>| #[trigger]
                enumerates(order, old(self).channels@.dom()) && final(self).queued(
                    *old(self),
                    drained_in_order(old(self).channels@, order),
                ),
            final(self).channels@.dom() == old(self).channels@.dom(),
            forall|id: u32| #[trigger]
                old(self).channels@.contains_key(id) ==> final(self).channels@[id].flushed(
                    old(self).channels@[id],
                ),
            final(self).last_channel_id == old(self).last_channel_id,
    {
        let ids = self.channel_numbers();
        let ghost order = ids@;
        let ghost start = *self;
        assert(enumerates(order, start.channels@.dom()));
        assert(order.take(0) =~= Seq::<u32>::empty());
        assert(self.queue() =~= start.queue() + frames(Seq::empty()));
        let mut i: usize = 0;
        while i < ids.len()
            invariant
                i <= order.len(),
                order == ids@,
                enumerates(order, start.channels@.dom()),
                forall|id: u32| #[trigger]
                    start.channels@.contains_key(id) ==> start.channels@[id].can_drain(),
                start.has_room(drained_in_order(start.channels@, order)),
                self.queued(start, drained_in_order(start.channels@, order.take(i as int))),
                self.channels@.dom() == start.channels@.dom(),
                self.last_channel_id == start.last_channel_id,
                forall|j: int|
                    0 <= j < i ==> self.channels@[#[trigger] order[j]].flushed(
                        start.channels@[order[j]],
                    ),
                forall|j: int|
                    i <= j < order.len() ==> self.channels@[#[trigger] order[j]]
                        == start.channels@[order[j]],
            decreases order.len() - i,
        {
            let ghost now = *self;
            let id = ids[i];
            proof {
                assert(order.to_set().contains(order[i as int]));
                assert(order.take(i + 1).drop_last() =~= order.take(i as int));
                let done = drained_in_order(start.channels@, order.take(i as int));
                lemma_frames_append(done, now.pending_packets(ChannelId(id)));
                lemma_drained_in_order_len(start.channels@, order, i + 1);
            }
            self.flush_pending(ChannelId(id));
            i = i + 1;
            assert(self.queue() =~= start.queue() + frames(
                drained_in_order(start.channels@, order.take(i as int)),
            ));
        }
        assert(order.take(i as int) =~= order);
        assert forall|id: u32| #[trigger]
            start.channels@.contains_key(id) implies self.channels@[id].flushed(
            start.channels@[id],
        ) by {
            assert(order.to_set().contains(id));
            let j = choose|j: int| 0 <= j < order.len() && order[j] == id;
            assert(self.channels@[order[j]].flushed(start.channels@[order[j]]));
        }
    }

    /// The numbers of all channels, in some order.
    fn channel_numbers(&self) -> (ids: Vec<u32>)
        ensures
            enumerates(ids@, self.channels@.dom()),
    {
        let mut ids: Vec<u32> = Vec::new();
        let keys = self.channels.keys();
        proof {
            lemma_named_by(keys.remaining(), self.channels@.dom());
        }
        for id in it: keys
            invariant
                ids@.len() == it.index(),
                forall|j: int|
                    #![trigger ids@[j]]
                    #![trigger it.seq()[j]]
                    0 <= j < ids@.len() ==> ids@[j] == *it.seq()[j],
                it.seq().no_duplicates(),
                forall|j: int|
                    0 <= j < it.seq().len() ==> self.channels@.contains_key(
                        *#[trigger] it.seq()[j],
                    ),
                forall|id: u32| #[trigger]
                    self.channels@.contains_key(id) ==> exists|j: int|
                        0 <= j < it.seq().len() && *#[trigger] it.seq()[j] == id,
        {
            ids.push(*id);
        }
        assert forall|id: u32| ids@.to_set().contains(id) implies self.channels@.contains_key(
            id,
        ) by {
            let j = choose|j: int| 0 <= j < ids@.len() && ids@[j] == id;
            assert(self.channels@.contains_key(ids@[j]));
        }
        assert(ids@.to_set() =~= self.channels@.dom());
        ids
    }
}

/// What a channel keeps of a buffer of which the first `sent` bytes were sent:
/// the buffer waits behind what waited before unless all of it was sent.
pub open spec fn kept(
    before: Seq<Pending>,
    buf: CryptoVec,
    ext: Option<u32>,
    sent: nat,
) -> Seq<Pending> {
    if sent < cryptovec_bytes(buf).len() {
        before.push((buf, ext, sent as usize))
    } else {
        before
    }
}

impl<S: Suite> Encrypted<S> {
    /// Whether `data` puts everything behind what waits already: nothing may
    /// overtake waiting data, nor be sent while keys are exchanged.
    pub open spec fn data_waits(self, channel: ChannelId) -> bool {
        self.channels@[channel.0].pending_data@.len() > 0 || self.rekey is Some
    }

    /// The part of a buffer that `data` sends at once.
    pub open spec fn data_part(self, channel: ChannelId, data: Seq<u8>) -> Seq<u8> {
        if !self.channels@.contains_key(channel.0) || self.data_waits(channel) {
            Seq::empty()
        } else {
            window_part(data, 0, self.channels@[channel.0].recipient_window_size as nat)
        }
    }

    /// The packets that `data` queues.
    pub open spec fn data_packets(self, channel: ChannelId, data: Seq<u8>) -> Seq<Seq<u8>> {
        self.channels@[channel.0].packets(None, self.data_part(channel, data))
    }

    /// `self` is `old` after a buffer was sent on a channel, as far as its window
    /// allowed.
    pub open spec fn sent_data(self, old: Encrypted<S>, channel: ChannelId, buf: CryptoVec) -> bool {
        &&& self.queued(old, old.data_packets(channel, cryptovec_bytes(buf)))
        &&& if old.channels@.contains_key(channel.0) {
            let before = old.channels@[channel.0];
            let after = self.channels@[channel.0];
            let sent = old.data_part(channel, cryptovec_bytes(buf)).len();
            &&& self.only_channel_differs(old, channel)
            &&& after.sender_window_size == before.sender_window_size
            &&& after.recipient_window_size == before.recipient_window_size - sent
            &&& after.pending_data@ == if old.data_waits(channel) {
                before.pending_data@.push((buf, None, 0))
            } else {
                kept(before.pending_data@, buf, None, sent)
            }
        } else {
            self.same_channels(old)
        }
    }

    /// Sends data on a channel, as far as its window allows. The rest waits.
    /// Nothing happens where there is no such channel.
    pub fn data(&mut self, channel: ChannelId, buf0: CryptoVec)
        requires
            old(self).channels@.contains_key(channel.0) ==> {
                let params = old(self).channels@[channel.0];
                &&& params.confirmed
                &&& params.recipient_maximum_packet_size > 0 || old(self).data_part(
                    channel,
                    cryptovec_bytes(buf0),
                ).len() == 0
            },
            old(self).has_room(old(self).data_packets(channel, cryptovec_bytes(buf0))),
        ensures
            final(self).sent_data(*old(self), channel, buf0),
    {
        proof {
            lemma_no_packets(self.channels@[channel.0], None);
            assert(self.queue() + frames(Seq::empty()) =~= self.queue());
        }
        match self.channels.entry(channel.0) {
            Entry::Occupied(entry) => {
                let params = entry.into_mut();
                if params.pending_data.len() > 0 || self.rekey.is_some() {
                    params.pending_data.push_back((buf0, None, 0));
                    return;
                }
                let buf_len = data_noqueue(&mut self.write, params, as_slice(&buf0), 0);
                if buf_len < buf0.len() {
                    params.pending_data.push_back((buf0, None, buf_len));
                }
            },
            Entry::Vacant(_) => {
                assert(old(self).channels@.remove(channel.0) =~= old(self).channels@);
            },
        }
    }

    /// The part of a buffer that `extended_data` sends at once.
    pub open spec fn extended_data_part(self, channel: ChannelId, data: Seq<u8>) -> Seq<u8> {
        if !self.channels@.contains_key(channel.0)
            || self.channels@[channel.0].pending_data@.len() > 0 {
            Seq::empty()
        } else {
            window_part(data, 0, self.channels@[channel.0].recipient_window_size as nat)
        }
    }

    /// The packets that `extended_data` queues.
    pub open spec fn extended_data_packets(
        self,
        channel: ChannelId,
        ext: u32,
        data: Seq<u8>,
    ) -> Seq<Seq<u8>> {
        self.channels@[channel.0].packets(Some(ext), self.extended_data_part(channel, data))
    }

    /// `self` is `old` after a buffer was sent on a channel as extended data, as
    /// far as its window allowed.
    pub open spec fn sent_extended_data(
        self,
        old: Encrypted<S>,
        channel: ChannelId,
        ext: u32,
        buf: CryptoVec,
    ) -> bool {
        &&& self.queued(old, old.extended_data_packets(channel, ext, cryptovec_bytes(buf)))
        &&& if old.channels@.contains_key(channel.0) {
            let before = old.channels@[channel.0];
            let after = self.channels@[channel.0];
            let sent = old.extended_data_part(channel, cryptovec_bytes(buf)).len();
            &&& self.only_channel_differs(old, channel)
            &&& after.sender_window_size == before.sender_window_size
            &&& after.recipient_window_size == before.recipient_window_size - sent
            &&& after.pending_data@ == if before.pending_data@.len() > 0 {
                before.pending_data@.push((buf, Some(ext), 0))
            } else {
                kept(before.pending_data@, buf, Some(ext), sent)
            }
        } else {
            self.same_channels(old)
        }
    }

    /// Sends extended data, such as what a process writes to its standard
    /// error, on a channel, as far as its window allows. The rest waits.
    /// Nothing happens where there is no such channel.
    pub fn extended_data(&mut self, channel: ChannelId, ext: u32, buf0: CryptoVec)
        requires
            old(self).channels@.contains_key(channel.0) ==> {
                let params = old(self).channels@[channel.0];
                &&& params.confirmed
                &&& params.recipient_maximum_packet_size > 0 || old(self).extended_data_part(
                    channel,
                    cryptovec_bytes(buf0),
                ).len() == 0
            },
            old(self).has_room(
                old(self).extended_data_packets(channel, ext, cryptovec_bytes(buf0)),
            ),
        ensures
            final(self).sent_extended_data(*old(self), channel, ext, buf0),
    {
        proof {
            lemma_no_packets(self.channels@[channel.0], Some(ext));
            assert(self.queue() + frames(Seq::empty()) =~= self.queue());
        }
        match self.channels.entry(channel.0) {
            Entry::Occupied(entry) => {
                let params = entry.into_mut();
                if params.pending_data.len() > 0 {
                    params.pending_data.push_back((buf0, Some(ext), 0));
                    return;
                }
                let window = params.recipient_window_size as usize;
                let buf_len = if buf0.len() > window {
                    window
                } else {
                    buf0.len()
                };
                let buf = vstd::slice::slice_subrange(as_slice(&buf0), 0, buf_len);
                assert(buf@ =~= old(self).extended_data_part(channel, cryptovec_bytes(buf0)));
                send_packets(&mut self.write, params, Some(ext), buf);
                if buf_len < buf0.len() {
                    params.pending_data.push_back((buf0, Some(ext), buf_len));
                }
            },
            Entry::Vacant(_) => {
                assert(old(self).channels@.remove(channel.0) =~= old(self).channels@);
            },
        }
    }

    /// Whether data of a channel waits to be sent.
    pub fn has_pending_data(&self, channel: ChannelId) -> (pending: bool)
        ensures
            pending == (self.channels@.contains_key(channel.0)
                && self.channels@[channel.0].pending_data@.len() > 0),
    {
        if let Some(params) = self.channels.get(&channel.0) {
            params.pending_data.len() > 0
        } else {
            false
        }
    }

    /// How many more bytes may come in on a channel.
    pub fn sender_window_size(&self, channel: ChannelId) -> (size: usize)
        ensures
            size == if self.channels@.contains_key(channel.0) {
                self.channels@[channel.0].sender_window_size as int
            } else {
                0
            },
    {
        if let Some(params) = self.channels.get(&channel.0) {
            params.sender_window_size as usize
        } else {
            0
        }
    }

    /// Tells the other side that no more data will come on a channel.
    pub fn eof(&mut self, channel: ChannelId)
        requires
            old(self).has_room(old(self).byte_packets(channel, msg::CHANNEL_EOF)),
        ensures
            final(self).queued(*old(self), old(self).byte_packets(channel, msg::CHANNEL_EOF)),
            final(self).same_channels(*old(self)),
    {
        self.byte(channel, msg::CHANNEL_EOF)
    }
}

/// The number that comes `steps` after `last`, where the largest number is
/// followed by zero.
pub open spec fn channel_number(last: u32, steps: int) -> int {
    (last + steps) % two32()
}

/// `id` is the first number after `last` that is not in use.
pub open spec fn first_free(last: u32, used: Set<u32>, id: u32) -> bool {
    &&& !used.contains(id)
    &&& exists|steps: int| #[trigger]
        channel_number(last, steps) == id && 1 <= steps <= two32() && forall|earlier: int|
            1 <= earlier < steps ==> used.contains(#[trigger] channel_number(last, earlier) as u32)
}

impl<S: Suite> Encrypted<S> {
    /// Moves to the first channel number after the last one that is not in use.
    pub fn new_channel_id(&mut self) -> (id: ChannelId)
        requires
            exists|free: u32| !old(self).channels@.contains_key(free),
        ensures
            first_free(old(self).last_channel_id, old(self).channels@.dom(), id.0),
            final(self).last_channel_id == id.0,
            final(self).channels@ == old(self).channels@,
            final(self).queue() == old(self).queue(),
            final(self).write_cursor == old(self).write_cursor,
            final(self).same_connection(*old(self)),
    {
        let ghost last = self.last_channel_id;
        let ghost free = choose|free: u32| !self.channels@.contains_key(free);
        let ghost distance = (free - last - 1) % two32() + 1;
        let ghost mut steps: int = 1;
        self.last_channel_id = self.last_channel_id.wrapping_add(1);
        while self.channels.contains_key(&self.last_channel_id)
            invariant
                1 <= steps <= distance <= two32(),
                distance == (free - last - 1) % two32() + 1,
                !self.channels@.contains_key(free),
                self.last_channel_id == channel_number(last, steps),
                forall|earlier: int|
                    1 <= earlier < steps ==> self.channels@.contains_key(
                        #[trigger] channel_number(last, earlier) as u32,
                    ),
                self.channels@ == old(self).channels@,
                self.write == old(self).write,
                self.write_cursor == old(self).write_cursor,
                self.same_connection(*old(self)),
            decreases distance - steps,
        {
            assert(channel_number(last, steps) as u32 == self.last_channel_id);
            self.last_channel_id = self.last_channel_id.wrapping_add(1);
            proof {
                steps = steps + 1;
            }
        }
        ChannelId(self.last_channel_id)
    }
}

impl<S: Suite> Encrypted<S> {
    /// Opens a channel under the first free number after the last one, with
    /// the given limits for incoming data. Nothing may be sent on it yet.
    pub fn new_channel(&mut self, window_size: u32, maxpacket: u32) -> (id: ChannelId)
        requires
            exists|free: u32| !old(self).channels@.contains_key(free),
        ensures
            first_free(old(self).last_channel_id, old(self).channels@.dom(), id.0),
            final(self).last_channel_id == id.0,
            final(self).channels@ == old(self).channels@.insert(
                id.0,
                final(self).channels@[id.0],
            ),
            ({
                let params = final(self).channels@[id.0];
                &&& params.recipient_channel == 0
                &&& params.sender_channel == id
                &&& params.sender_window_size == window_size
                &&& params.recipient_window_size == 0
                &&& params.sender_maximum_packet_size == maxpacket
                &&& params.recipient_maximum_packet_size == 0
                &&& !params.confirmed
                &&& !params.wants_reply
                &&& params.pending_data@ == Seq::<Pending>::empty()
            }),
            final(self).queue() == old(self).queue(),
            final(self).write_cursor == old(self).write_cursor,
            final(self).same_connection(*old(self)),
    {
        let id = self.new_channel_id();
        self.channels.insert(
            id.0,
            ChannelParams {
                recipient_channel: 0,
                sender_channel: id,
                sender_window_size: window_size,
                recipient_window_size: 0,
                sender_maximum_packet_size: maxpacket,
                recipient_maximum_packet_size: 0,
                confirmed: false,
                wants_reply: false,
                pending_data: VecDeque::new(),
            },
        );
        id
    }
}

/// What outgoing packets go through: the compressor with its buffer, the
/// cipher, and the buffer of sealed packets.
pub struct Line<D, C> {
    pub compress: Compress<D>,
    pub compress_buffer: CryptoVec,
    pub cipher: C,
    pub write_buffer: SSHBuffer,
}

/// One packet was compressed by `compress`, and what came out was sealed by
/// `seal`.
pub open spec fn transmits<D, C, Z, W>(
    compress: Z,
    seal: W,
    before: Line<D, C>,
    payload: Seq<u8>,
    after: Line<D, C>,
) -> bool where
    Z: Fn(Compress<D>, CryptoVec, &[u8]) -> (Compress<D>, CryptoVec, Result<CryptoVec, Error>),
    W: Fn(C, SSHBuffer, &[u8]) -> (C, SSHBuffer),
 {
    exists|input: &[u8], packet: CryptoVec, output: &[u8]|
        {
            &&& input@ == payload
            &&& output@ == cryptovec_bytes(packet)
            &&& #[trigger] call_ensures(
                compress,
                (before.compress, before.compress_buffer, input),
                (after.compress, after.compress_buffer, Ok(packet)),
            )
            &&& #[trigger] call_ensures(
                seal,
                (before.cipher, before.write_buffer, output),
                (after.cipher, after.write_buffer),
            )
        }
}

/// One packet could not be compressed by `compress`, and nothing was sealed.
pub open spec fn rejects<D, C, Z>(
    compress: Z,
    before: Line<D, C>,
    payload: Seq<u8>,
    after: Line<D, C>,
    error: Error,
) -> bool where
    Z: Fn(Compress<D>, CryptoVec, &[u8]) -> (Compress<D>, CryptoVec, Result<CryptoVec, Error>),
 {
    &&& after.cipher == before.cipher
    &&& after.write_buffer == before.write_buffer
    &&& exists|input: &[u8]|
        input@ == payload && #[trigger] call_ensures(
            compress,
            (before.compress, before.compress_buffer, input),
            (after.compress, after.compress_buffer, Err(error)),
        )
}

/// The packets were transmitted one after the other, and took the line through
/// the given states.
pub open spec fn transmitted<D, C, Z, W>(
    compress: Z,
    seal: W,
    lines: Seq<Line<D, C>>,
    payloads: Seq<Seq<u8>>,
) -> bool where
    Z: Fn(Compress<D>, CryptoVec, &[u8]) -> (Compress<D>, CryptoVec, Result<CryptoVec, Error>),
    W: Fn(C, SSHBuffer, &[u8]) -> (C, SSHBuffer),
 {
    &&& lines.len() == payloads.len() + 1
    &&& forall|i: int|
        0 <= i < payloads.len() ==> transmits(
            compress,
            seal,
            lines[i],
            #[trigger] payloads[i],
            lines[i + 1],
        )
}

/// One more packet can be transmitted after others.
proof fn lemma_transmitted_push<D, C, Z, W>(
    compress: Z,
    seal: W,
    lines: Seq<Line<D, C>>,
    payloads: Seq<Seq<u8>>,
    next: Line<D, C>,
    payload: Seq<u8>,
) where
    Z: Fn(Compress<D>, CryptoVec, &[u8]) -> (Compress<D>, CryptoVec, Result<CryptoVec, Error>),
    W: Fn(C, SSHBuffer, &[u8]) -> (C, SSHBuffer),

    requires
        transmitted(compress, seal, lines, payloads),
        transmits(compress, seal, lines.last(), payload, next),
    ensures
        transmitted(compress, seal, lines.push(next), payloads.push(payload)),
{
    let (all, sent) = (lines.push(next), payloads.push(payload));
    assert forall|i: int| 0 <= i < sent.len() implies transmits(
        compress,
        seal,
        all[i],
        #[trigger] sent[i],
        all[i + 1],
    ) by {
        if i < payloads.len() {
            assert(sent[i] == payloads[i]);
        }
    }
}

/// Only the first packets were transmitted, and took the line through the given
/// states. The next one could not be compressed.
pub open spec fn interrupted<D, C, Z, W>(
    compress: Z,
    seal: W,
    lines: Seq<Line<D, C>>,
    payloads: Seq<Seq<u8>>,
    after: Line<D, C>,
    error: Error,
) -> bool where
    Z: Fn(Compress<D>, CryptoVec, &[u8]) -> (Compress<D>, CryptoVec, Result<CryptoVec, Error>),
    W: Fn(C, SSHBuffer, &[u8]) -> (C, SSHBuffer),
 {
    &&& 1 <= lines.len() <= payloads.len()
    &&& transmitted(compress, seal, lines, payloads.take(lines.len() - 1))
    &&& rejects(compress, lines.last(), payloads[lines.len() - 1], after, error)
}

/// What `flush` hands back: the cipher, the buffer of sealed packets, and
/// whether keys must be exchanged again.
pub struct Flushed<C> {
    pub cipher: C,
    pub write_buffer: SSHBuffer,
    pub rekey: Result<bool, Error>,
}

impl<S: Suite> Encrypted<S> {
    /// The payloads of the packets that were queued and not sent, or `None`
    /// where the queue does not consist of complete packets.
    pub open spec fn unsent(self) -> Option<Seq<Seq<u8>>> {
        if self.write_cursor >= self.queue().len() {
            Some(Seq::empty())
        } else {
            unframe(self.queue().skip(self.write_cursor as int))
        }
    }

    /// What was not sent of the queue consists of complete packets.
    pub open spec fn well_formed(self) -> bool {
        self.write_cursor <= self.queue().len() && self.unsent() is Some
    }

    /// The line that outgoing packets go through.
    pub open spec fn line<C>(self, cipher: C, write_buffer: SSHBuffer) -> Line<S::Deflate, C> {
        Line {
            compress: self.compress,
            compress_buffer: self.compress_buffer,
            cipher,
            write_buffer,
        }
    }

    /// Nothing but the queue, the compressor and its buffer differs.
    pub open spec fn same_but_line(self, other: Encrypted<S>) -> bool {
        &&& self.state == other.state
        &&& self.exchange == other.exchange
        &&& self.kex == other.kex
        &&& self.key == other.key
        &&& self.client_mac == other.client_mac
        &&& self.server_mac == other.server_mac
        &&& self.session_id == other.session_id
        &&& self.rekey == other.rekey
        &&& self.last_rekey == other.last_rekey
        &&& self.server_compression == other.server_compression
        &&& self.client_compression == other.client_compression
        &&& self.decompress == other.decompress
        &&& self.is_cloud == other.is_cloud
        &&& self.channels == other.channels
        &&& self.last_channel_id == other.last_channel_id
    }

    /// Whether keys must be exchanged again, at a time that was read from the
    /// clock.
    pub open spec fn rekey_answer(self, limits: Limits, written: usize, answer: bool) -> bool {
        if self.kex.skip_exchange {
            !answer
        } else {
            exists|now: Instant|
                clock_read(now) && answer == limits.reached(
                    written as int,
                    #[trigger] nanos_since(now, self.last_rekey) as int,
                )
        }
    }

    /// Sends every packet of the queue that was not sent yet, in the order in
    /// which they were queued: compresses it, then seals it into
    /// `write_buffer`. Stops at a packet that cannot be compressed, which stays
    /// in the queue. Otherwise empties the queue and tells whether keys must be
    /// exchanged again.
    pub fn flush<C, Z, W>(
        &mut self,
        limits: &Limits,
        cipher: C,
        write_buffer: SSHBuffer,
        compress: Z,
        seal: W,
    ) -> (res: Flushed<C>) where
        Z: Fn(Compress<S::Deflate>, CryptoVec, &[u8]) -> (
            Compress<S::Deflate>,
            CryptoVec,
            Result<CryptoVec, Error>,
        ),
        W: Fn(C, SSHBuffer, &[u8]) -> (C, SSHBuffer),

        requires
            old(self).unsent() is Some,
            forall|c: Compress<S::Deflate>, b: CryptoVec, p: &[u8]|
                call_requires(compress, (c, b, p)),
            forall|c: C, b: SSHBuffer, p: &[u8]| call_requires(seal, (c, b, p)),
        ensures
            final(self).same_but_line(*old(self)),
            final(self).well_formed(),
            match res.rekey {
                Ok(answer) => {
                    &&& final(self).queue() == Seq::<u8>::empty()
                    &&& final(self).write_cursor == 0
                    &&& old(self).rekey_answer(*limits, res.write_buffer.bytes, answer)
                    &&& exists|lines: Seq<Line<S::Deflate, C>>| #[trigger]
                        transmitted(compress, seal, lines, old(self).unsent()->0) && lines.first()
                            == old(self).line(cipher, write_buffer) && lines.last()
                            == final(self).line(res.cipher, res.write_buffer)
                },
                Err(error) => {
                    &&& final(self).queue() == old(self).queue()
                    &&& exists|lines: Seq<Line<S::Deflate, C>>| #[trigger]
                        interrupted(
                            compress,
                            seal,
                            lines,
                            old(self).unsent()->0,
                            final(self).line(res.cipher, res.write_buffer),
                            error,
                        ) && lines.first() == old(self).line(cipher, write_buffer)
                            && final(self).unsent() == Some(
                            old(self).unsent()->0.skip(lines.len() - 1),
                        )
                },
            },
    {
        let ghost start = *self;
        let ghost packets = self.unsent()->0;
        let ghost first = self.line(cipher, write_buffer);
        let ghost mut lines = seq![first];
        let mut key = cipher;
        let mut sealed = write_buffer;
        let mut compressor = Compress::Off;
        let mut compress_buffer = CryptoVec::new();
        std::mem::swap(&mut self.compress, &mut compressor);
        std::mem::swap(&mut self.compress_buffer, &mut compress_buffer);
        assert(packets.take(0) =~= Seq::<Seq<u8>>::empty());
        assert(packets.skip(0) =~= packets);
        while self.write_cursor < self.write.len()
            invariant
                self.same_but_line(start),
                self.write == start.write,
                start.unsent() == Some(packets),
                self.unsent() == Some(packets.skip(lines.len() - 1)),
                1 <= lines.len() <= packets.len() + 1,
                transmitted(compress, seal, lines, packets.take(lines.len() - 1)),
                start == *old(self),
                first == start.line(cipher, write_buffer),
                lines.first() == first,
                lines.last() == (Line {
                    compress: compressor,
                    compress_buffer,
                    cipher: key,
                    write_buffer: sealed,
                }),
                forall|c: Compress<S::Deflate>, b: CryptoVec, p: &[u8]|
                    call_requires(compress, (c, b, p)),
                forall|c: C, b: SSHBuffer, p: &[u8]| call_requires(seal, (c, b, p)),
            decreases self.queue().len() - self.write_cursor,
        {
            // Read a single packet, compress it and seal it.
            let ghost sent = lines.len() - 1;
            let rest = vstd::slice::slice_subrange(
                as_slice(&self.write),
                self.write_cursor,
                self.write.len(),
            );
            assert(rest@ =~= self.queue().skip(self.write_cursor as int));
            let len = read_u32(rest) as usize;
            let to_write = vstd::slice::slice_subrange(rest, 4, 4 + len);
            proof {
                let n = 4 + be32_value(rest@);
                let others = unframe(rest@.skip(n))->0;
                assert(packets.skip(sent) == seq![to_write@] + others);
                assert(packets.skip(sent).len() >= 1);
                assert(packets.skip(sent)[0] == packets[sent]);
                assert(packets.skip(sent + 1) =~= packets.skip(sent).drop_first());
                assert(packets.skip(sent).drop_first() =~= others);
                assert(packets.take(sent + 1) =~= packets.take(sent).push(packets[sent]));
            }
            let (next_compressor, next_buffer, packet) = compress(
                compressor,
                compress_buffer,
                to_write,
            );
            compressor = next_compressor;
            compress_buffer = next_buffer;
            match packet {
                Err(error) => {
                    self.compress = compressor;
                    self.compress_buffer = compress_buffer;
                    let res = Flushed { cipher: key, write_buffer: sealed, rekey: Err(error) };
                    proof {
                        let before = lines.last();
                        let after = self.line(res.cipher, res.write_buffer);
                        assert(call_ensures(
                            compress,
                            (before.compress, before.compress_buffer, to_write),
                            (after.compress, after.compress_buffer, Err(error)),
                        ));
                        assert(rejects(compress, before, packets[sent], after, error));
                        assert(interrupted(
                            compress,
                            seal,
                            lines,
                            old(self).unsent()->0,
                            after,
                            error,
                        ));
                    }
                    return res;
                },
                Ok(packet) => {
                    let output = as_slice(&packet);
                    let (next_key, next_sealed) = seal(key, sealed, output);
                    key = next_key;
                    sealed = next_sealed;
                    proof {
                        let next = Line {
                            compress: compressor,
                            compress_buffer,
                            cipher: key,
                            write_buffer: sealed,
                        };
                        let before = lines.last();
                        assert(call_ensures(
                            compress,
                            (before.compress, before.compress_buffer, to_write),
                            (next.compress, next.compress_buffer, Ok(packet)),
                        ));
                        assert(call_ensures(
                            seal,
                            (before.cipher, before.write_buffer, output),
                            (next.cipher, next.write_buffer),
                        ));
                        assert(transmits(compress, seal, before, to_write@, next));
                        lemma_transmitted_push(
                            compress,
                            seal,
                            lines,
                            packets.take(sent),
                            next,
                            to_write@,
                        );
                        lines = lines.push(next);
                    }
                },
            }
            self.write_cursor = self.write_cursor + 4 + len;
            proof {
                let n = 4 + be32_value(rest@);
                assert(self.queue().skip(self.write_cursor as int) =~= rest@.skip(n));
                assert(rest@.skip(n).len() == 0 ==> packets.skip(sent + 1) =~= Seq::empty());
            }
        }
        self.compress = compressor;
        self.compress_buffer = compress_buffer;
        // All packets have been sent.
        self.write_cursor = 0;
        self.write.clear();
        if self.kex.skip_exchange {
            return Flushed { cipher: key, write_buffer: sealed, rekey: Ok(false) };
        }
        proof {
            broadcast use law_clock_read_is_now;

        }
        let elapsed = Duration { nanos: duration_since(now(), self.last_rekey) };
        let due = limits.rekey_due(sealed.bytes, elapsed);
        Flushed { cipher: key, write_buffer: sealed, rekey: Ok(due) }
    }
}

} // verus!
