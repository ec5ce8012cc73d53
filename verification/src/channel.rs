//! Channels: their flow control parameters, the division of outgoing data into
//! packets, and the data that waits for the other side to open its window.
#[allow(unused_imports)]
use crate::be32::{be32, group_be32};
use crate::buffer::{as_slice, cryptovec_bytes, extend_ssh_string, push_packet, room};
use crate::msg;
use crate::wire::{chunks, concat, frames, lemma_frames_append, ssh_string};
use russh_cryptovec::CryptoVec;
use std::collections::VecDeque;
use vstd::prelude::*;

verus! {

broadcast use group_be32;

/// The number by which this side knows a channel.
#[derive(Clone, Copy, Debug, PartialEq, Eq, PartialOrd, Ord, Hash, Structural)]
pub struct ChannelId(pub u32);

/// Data that waits to be sent: the buffer, the code of extended data, and the
/// number of bytes of the buffer that were sent already.
pub type Pending = (CryptoVec, Option<u32>, usize);

/// The parameters of a channel.
#[derive(Debug)]
pub struct ChannelParams {
    pub recipient_channel: u32,
    pub sender_channel: ChannelId,
    pub recipient_window_size: u32,
    pub sender_window_size: u32,
    pub recipient_maximum_packet_size: u32,
    pub sender_maximum_packet_size: u32,
    /// Has the other side confirmed the channel?
    pub confirmed: bool,
    pub wants_reply: bool,
    pub pending_data: VecDeque<Pending>,
}

/// The payload of a packet that carries `chunk` to the other side's channel
/// `recipient`, as extended data where there is a code for it.
pub open spec fn channel_payload(recipient: u32, ext: Option<u32>, chunk: Seq<u8>) -> Seq<u8> {
    match ext {
        None => seq![msg::CHANNEL_DATA] + be32(recipient as int) + ssh_string(chunk),
        Some(code) => seq![msg::CHANNEL_EXTENDED_DATA] + be32(recipient as int) + be32(code as int)
            + ssh_string(chunk),
    }
}

/// The payloads of the packets that carry `data`, none of them with more than
/// `max` bytes of it.
pub open spec fn packets(recipient: u32, ext: Option<u32>, max: u32, data: Seq<u8>) -> Seq<
    Seq<u8>,
> {
    chunks(data, max as nat).map_values(|chunk: Seq<u8>| channel_payload(recipient, ext, chunk))
}

/// The data that a packet carries, behind the message number, the channel, the
/// code of extended data and the length.
pub open spec fn carried(ext: Option<u32>, payload: Seq<u8>) -> Seq<u8> {
    match ext {
        None => payload.skip(9),
        Some(_) => payload.skip(13),
    }
}

/// The data that packets carry, one after the other.
pub open spec fn carried_by(ext: Option<u32>, payloads: Seq<Seq<u8>>) -> Seq<u8> {
    concat(payloads.map_values(|payload: Seq<u8>| carried(ext, payload)))
}

/// What is left to be sent of a buffer.
pub open spec fn left_of(pending: Pending) -> Seq<u8> {
    if pending.2 >= cryptovec_bytes(pending.0).len() {
        Seq::empty()
    } else {
        cryptovec_bytes(pending.0).skip(pending.2 as int)
    }
}

/// What is left to be sent of waiting data, in the order in which it waits.
pub open spec fn waiting(pending: Seq<Pending>) -> Seq<u8> {
    concat(pending.map_values(|p: Pending| left_of(p)))
}

/// Every buffer of waiting data has a length that the machine can express.
pub open spec fn expressible(pending: Seq<Pending>) -> bool {
    forall|i: int|
        0 <= i < pending.len() ==> cryptovec_bytes((#[trigger] pending[i]).0).len() <= usize::MAX
}

/// How many of the bytes from `from` on fit into the window.
pub open spec fn sendable(len: nat, from: nat, window: nat) -> nat {
    if from >= len {
        0
    } else if len - from <= window {
        (len - from) as nat
    } else {
        window
    }
}

/// The bytes of `data` from `from` on that fit into the window.
pub open spec fn window_part(data: Seq<u8>, from: nat, window: nat) -> Seq<u8> {
    if from >= data.len() {
        Seq::empty()
    } else {
        data.subrange(from as int, (from + sendable(data.len(), from, window)) as int)
    }
}

/// What becomes of waiting data when as much of it is sent as the window
/// allows: the payloads of the packets, the number of bytes sent, and what goes
/// on waiting.
pub struct Drained {
    pub payloads: Seq<Seq<u8>>,
    pub size: nat,
    pub rest: Seq<Pending>,
}

/// Waiting data can be sent: packets may hold something, or nothing is to be put
/// into one.
pub open spec fn drainable(max: u32, pending: Seq<Pending>, window: nat) -> bool {
    ||| max > 0
    ||| window == 0
    ||| forall|i: int|
        #![trigger pending[i]]
        0 <= i < pending.len() ==> pending[i].2 >= cryptovec_bytes(pending[i].0).len()
}

/// Sends waiting data in its order, until the window is full or nothing waits.
/// All of it is sent as data: the code of extended data that had to wait is not
/// sent with it.
pub open spec fn drain(
    recipient: u32,
    max: u32,
    pending: Seq<Pending>,
    window: nat,
) -> Drained
    decreases pending.len(),
{
    if pending.len() == 0 {
        Drained { payloads: Seq::empty(), size: 0, rest: Seq::empty() }
    } else {
        let (buf, ext, from) = pending.first();
        let data = cryptovec_bytes(buf);
        let n = sendable(data.len(), from as nat, window);
        let payloads = packets(recipient, None, max, window_part(data, from as nat, window));
        if from + n < data.len() {
            Drained {
                payloads,
                size: n,
                rest: seq![(buf, ext, (from + n) as usize)] + pending.drop_first(),
            }
        } else {
            let others = drain(recipient, max, pending.drop_first(), (window - n) as nat);
            Drained {
                payloads: payloads + others.payloads,
                size: n + others.size,
                rest: others.rest,
            }
        }
    }
}

impl ChannelParams {
    /// What sending the waiting data of this channel comes to.
    pub open spec fn drained(self) -> Drained {
        drain(
            self.recipient_channel,
            self.recipient_maximum_packet_size,
            self.pending_data@,
            self.recipient_window_size as nat,
        )
    }

    /// The waiting data of this channel can be sent.
    pub open spec fn can_drain(self) -> bool {
        drainable(
            self.recipient_maximum_packet_size,
            self.pending_data@,
            self.recipient_window_size as nat,
        )
    }

    /// `self` is `old` after as much of its waiting data was sent as its window
    /// allowed.
    pub open spec fn flushed(self, old: ChannelParams) -> bool {
        &&& self.same_channel(old)
        &&& self.sender_window_size == old.sender_window_size
        &&& self.recipient_window_size == old.recipient_window_size - old.drained().size
        &&& self.pending_data@ == old.drained().rest
    }

    /// The same channel with another window for outgoing data.
    pub open spec fn with_recipient_window(self, window: int) -> ChannelParams {
        ChannelParams { recipient_window_size: window as u32, ..self }
    }

    /// Nothing but the windows and the waiting data differs.
    pub open spec fn same_channel(self, other: ChannelParams) -> bool {
        &&& self.recipient_channel == other.recipient_channel
        &&& self.sender_channel == other.sender_channel
        &&& self.recipient_maximum_packet_size == other.recipient_maximum_packet_size
        &&& self.sender_maximum_packet_size == other.sender_maximum_packet_size
        &&& self.confirmed == other.confirmed
        &&& self.wants_reply == other.wants_reply
    }

    /// The packets that carry `data` on this channel.
    pub open spec fn packets(self, ext: Option<u32>, data: Seq<u8>) -> Seq<Seq<u8>> {
        packets(self.recipient_channel, ext, self.recipient_maximum_packet_size, data)
    }
}

/// The packets that the waiting data of several channels goes into, channel by
/// channel in the given order.
pub open spec fn drained_in_order(channels: Map<u32, ChannelParams>, order: Seq<u32>) -> Seq<
    Seq<u8>,
>
    decreases order.len(),
{
    if order.len() == 0 {
        Seq::empty()
    } else {
        drained_in_order(channels, order.drop_last()) + channels[order.last()].drained().payloads
    }
}

/// `order` names each of `ids` once.
pub open spec fn enumerates(order: Seq<u32>, ids: Set<u32>) -> bool {
    order.no_duplicates() && order.to_set() == ids
}

/// The first piece of `data` is its first packet, the rest makes up the others.
pub proof fn lemma_packets_unfold(recipient: u32, ext: Option<u32>, max: u32, data: Seq<u8>)
    requires
        data.len() > 0,
        max > 0,
    ensures
        ({
            let off = if data.len() <= max {
                data.len() as int
            } else {
                max as int
            };
            packets(recipient, ext, max, data) == seq![
                channel_payload(recipient, ext, data.take(off)),
            ] + packets(recipient, ext, max, data.skip(off))
        }),
{
    let off = if data.len() <= max {
        data.len() as int
    } else {
        max as int
    };
    if data.len() <= max {
        assert(data.take(off) =~= data);
        assert(data.skip(off) =~= Seq::<u8>::empty());
    }
    assert(packets(recipient, ext, max, data) =~= seq![
        channel_payload(recipient, ext, data.take(off)),
    ] + packets(recipient, ext, max, data.skip(off)));
}

/// Nothing goes into no packet.
pub proof fn lemma_no_packets(channel: ChannelParams, ext: Option<u32>)
    ensures
        channel.packets(ext, Seq::empty()) == Seq::<Seq<u8>>::empty(),
{
    assert(channel.packets(ext, Seq::empty()) =~= Seq::<Seq<u8>>::empty());
}

/// The packets of the first channels take no more room than those of all.
pub proof fn lemma_drained_in_order_len(
    channels: Map<u32, ChannelParams>,
    order: Seq<u32>,
    count: int,
)
    requires
        0 <= count <= order.len(),
    ensures
        frames(drained_in_order(channels, order.take(count))).len() <= frames(
            drained_in_order(channels, order),
        ).len(),
    decreases order.len(),
{
    if count == order.len() {
        assert(order.take(count) =~= order);
    } else {
        let front = order.drop_last();
        lemma_drained_in_order_len(channels, front, count);
        assert(front.take(count) =~= order.take(count));
        lemma_frames_append(
            drained_in_order(channels, front),
            channels[order.last()].drained().payloads,
        );
    }
}

/// Builds the payload of a packet that carries `chunk`.
fn channel_packet(recipient: u32, ext: Option<u32>, chunk: &[u8]) -> (packet: CryptoVec)
    requires
        room(0, channel_payload(recipient, ext, chunk@).len()),
    ensures
        cryptovec_bytes(packet) == channel_payload(recipient, ext, chunk@),
{
    let mut packet = CryptoVec::new();
    match ext {
        None => {
            packet.push(msg::CHANNEL_DATA);
            packet.push_u32_be(recipient);
        },
        Some(code) => {
            packet.push(msg::CHANNEL_EXTENDED_DATA);
            packet.push_u32_be(recipient);
            packet.push_u32_be(code);
        },
    }
    extend_ssh_string(&mut packet, chunk);
    assert(cryptovec_bytes(packet) =~= channel_payload(recipient, ext, chunk@));
    packet
}

/// Appends to `write` the packets that carry `data` on `channel`, and takes
/// what was sent off the window.
pub(crate) fn send_packets(
    write: &mut CryptoVec,
    channel: &mut ChannelParams,
    ext: Option<u32>,
    data: &[u8],
)
    requires
        data@.len() <= old(channel).recipient_window_size,
        data@.len() == 0 || old(channel).recipient_maximum_packet_size > 0,
        room(cryptovec_bytes(*old(write)).len(), frames(old(channel).packets(ext, data@)).len()),
    ensures
        cryptovec_bytes(*final(write)) == cryptovec_bytes(*old(write)) + frames(
            old(channel).packets(ext, data@),
        ),
        *final(channel) == old(channel).with_recipient_window(
            old(channel).recipient_window_size - data@.len(),
        ),
{
    let ghost all = frames(channel.packets(ext, data@));
    let ghost start = *channel;
    let ghost before = cryptovec_bytes(*write);
    let mut sent: usize = 0;
    assert(data@.skip(0) =~= data@);
    while sent < data.len()
        invariant
            sent <= data@.len() <= start.recipient_window_size,
            data@.len() == 0 || start.recipient_maximum_packet_size > 0,
            *channel == start.with_recipient_window(start.recipient_window_size - sent),
            all == frames(start.packets(ext, data@)),
            room(before.len(), all.len()),
            cryptovec_bytes(*write) + frames(start.packets(ext, data@.skip(sent as int))) == before
                + all,
        decreases data@.len() - sent,
    {
        // The length that may go into one packet.
        let left = data.len() - sent;
        let max = channel.recipient_maximum_packet_size as usize;
        let off = if left <= max {
            left
        } else {
            max
        };
        let chunk = vstd::slice::slice_subrange(data, sent, sent + off);
        let ghost queued = cryptovec_bytes(*write);
        let ghost rest = data@.skip(sent as int);
        let ghost payload = channel_payload(start.recipient_channel, ext, chunk@);
        proof {
            lemma_packets_unfold(
                start.recipient_channel,
                ext,
                start.recipient_maximum_packet_size,
                rest,
            );
            assert(rest.take(off as int) =~= chunk@);
            assert(rest.skip(off as int) =~= data@.skip(sent + off));
            assert(start.packets(ext, rest).drop_first() =~= start.packets(
                ext,
                data@.skip(sent + off),
            ));
            assert(start.packets(ext, rest).first() == payload);
            assert((cryptovec_bytes(*write) + frames(start.packets(ext, rest))).len() == (before
                + all).len());
        }
        let packet = channel_packet(channel.recipient_channel, ext, chunk);
        push_packet(write, &packet);
        channel.recipient_window_size = channel.recipient_window_size - off as u32;
        sent = sent + off;
        assert(cryptovec_bytes(*write) + frames(start.packets(ext, data@.skip(sent as int)))
            =~= queued + frames(start.packets(ext, rest)));
    }
    assert(data@.skip(sent as int) =~= Seq::<u8>::empty());
    assert(start.packets(ext, data@.skip(sent as int)) =~= Seq::<Seq<u8>>::empty());
    assert(cryptovec_bytes(*write) =~= before + all);
}

/// Push the largest amount of `&buf0[from..]` that can fit into the window,
/// dividing it into packets if it is too large, and return the length that was
/// written.
pub(crate) fn data_noqueue(
    write: &mut CryptoVec,
    channel: &mut ChannelParams,
    buf0: &[u8],
    from: usize,
) -> (written: usize)
    requires
        ({
            let part = window_part(
                buf0@,
                from as nat,
                old(channel).recipient_window_size as nat,
            );
            &&& part.len() == 0 || old(channel).recipient_maximum_packet_size > 0
            &&& room(
                cryptovec_bytes(*old(write)).len(),
                frames(old(channel).packets(None, part)).len(),
            )
        }),
    ensures
        written == sendable(
            buf0@.len(),
            from as nat,
            old(channel).recipient_window_size as nat,
        ),
        cryptovec_bytes(*final(write)) == cryptovec_bytes(*old(write)) + frames(
            old(channel).packets(
                None,
                window_part(buf0@, from as nat, old(channel).recipient_window_size as nat),
            ),
        ),
        *final(channel) == old(channel).with_recipient_window(
            old(channel).recipient_window_size - written,
        ),
{
    if from >= buf0.len() {
        assert(channel.packets(None, Seq::empty()) =~= Seq::<Seq<u8>>::empty());
        assert(cryptovec_bytes(*write) =~= cryptovec_bytes(*write) + frames(Seq::empty()));
        return 0;
    }
    let left = buf0.len() - from;
    let window = channel.recipient_window_size as usize;
    let size = if left > window {
        window
    } else {
        left
    };
    let buf = vstd::slice::slice_subrange(buf0, from, from + size);
    send_packets(write, channel, None, buf);
    size
}

/// Sends as much of the waiting data of a channel as its window allows, and
/// returns how much that was.
pub(crate) fn flush_channel(write: &mut CryptoVec, channel: &mut ChannelParams) -> (flushed: usize)
    requires
        old(channel).can_drain(),
        room(cryptovec_bytes(*old(write)).len(), frames(old(channel).drained().payloads).len()),
    ensures
        flushed == old(channel).drained().size,
        cryptovec_bytes(*final(write)) == cryptovec_bytes(*old(write)) + frames(
            old(channel).drained().payloads,
        ),
        final(channel).flushed(*old(channel)),
{
    let ghost start = *channel;
    let ghost before = cryptovec_bytes(*write);
    let ghost total = channel.drained();
    let mut pending_size: usize = 0;
    loop
        invariant_except_break
            channel.can_drain(),
            channel.same_channel(start),
            channel.sender_window_size == start.sender_window_size,
            channel.recipient_window_size == start.recipient_window_size - pending_size,
            total == start.drained(),
            room(before.len(), frames(total.payloads).len()),
            total.size == pending_size + channel.drained().size,
            total.rest == channel.drained().rest,
            cryptovec_bytes(*write) + frames(channel.drained().payloads) == before + frames(
                total.payloads,
            ),
        ensures
            channel.same_channel(start),
            channel.sender_window_size == start.sender_window_size,
            channel.recipient_window_size == start.recipient_window_size - pending_size,
            total.size == pending_size,
            total.rest == channel.pending_data@,
            cryptovec_bytes(*write) == before + frames(total.payloads),
        decreases channel.pending_data@.len(),
    {
        let ghost current = *channel;
        match channel.pending_data.pop_front() {
            None => {
                assert(cryptovec_bytes(*write) + frames(current.drained().payloads)
                    =~= cryptovec_bytes(*write));
                assert(current.pending_data@ =~= total.rest);
                break;
            },
            Some((buf, a, from)) => {
                let ghost queued = cryptovec_bytes(*write);
                let ghost popped = *channel;
                let ghost data = cryptovec_bytes(buf);
                let ghost window = current.recipient_window_size as nat;
                let ghost payloads = current.packets(None, window_part(data, from as nat, window));
                let ghost n = sendable(data.len(), from as nat, window);
                let ghost others = drain(
                    current.recipient_channel,
                    current.recipient_maximum_packet_size,
                    popped.pending_data@,
                    (window - n) as nat,
                );
                proof {
                    assert(current.pending_data@.first() == (buf, a, from));
                    assert(popped.pending_data@ =~= current.pending_data@.drop_first());
                    if from + n >= data.len() {
                        lemma_frames_append(payloads, others.payloads);
                    }
                    assert((queued + frames(current.drained().payloads)).len() == (before + frames(
                        total.payloads,
                    )).len());
                }
                let size = data_noqueue(write, channel, as_slice(&buf), from);
                pending_size = pending_size + size;
                if size < buf.len() && from < buf.len() - size {
                    channel.pending_data.push_front((buf, a, from + size));
                    break;
                }
                proof {
                    assert(channel.pending_data@ == popped.pending_data@);
                    if channel.recipient_maximum_packet_size == 0 && channel.recipient_window_size
                        != 0 {
                        assert forall|i: int|
                            #![trigger channel.pending_data@[i]]
                            0 <= i < channel.pending_data@.len() implies channel.pending_data@[i].2
                            >= cryptovec_bytes(channel.pending_data@[i].0).len() by {
                            assert(channel.pending_data@[i] == current.pending_data@[i + 1]);
                        }
                    }
                    assert(cryptovec_bytes(*write) + frames(channel.drained().payloads) =~= queued
                        + frames(current.drained().payloads));
                }
            },
        }
    }
    pending_size
}

} // verus!
