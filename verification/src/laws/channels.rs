//! What each operation on the channels of an encrypted session does, in numbers:
//! the packets that it queues as the other side reads them, and what is left of
//! windows and waiting data.
#![allow(unused_imports)]
use crate::be32::{be32, group_be32};
use crate::buffer::cryptovec_bytes;
use crate::channel::{
    drain, drained_in_order, enumerates, ChannelId, ChannelParams, Pending,
};
use crate::encrypted::{byte_payload, channel_number, window_adjust_payload, Encrypted};
use crate::laws::law_drain_fills_window;
use crate::laws::reader::{
    appended, carries, law_packets_carry_pieces, lemma_appended, lemma_number_at, number_at,
};
use crate::suite::Suite;
use crate::wire::frames;
use russh_cryptovec::CryptoVec;
use vstd::prelude::*;

verus! {

broadcast use group_be32;

/// Nothing but the queue, the channels and the last channel number differs, and
/// the same packets of the queue were sent.
pub open spec fn session_kept<S: Suite>(before: Encrypted<S>, after: Encrypted<S>) -> bool {
    &&& after.state == before.state
    &&& after.exchange == before.exchange
    &&& after.kex == before.kex
    &&& after.key == before.key
    &&& after.client_mac == before.client_mac
    &&& after.server_mac == before.server_mac
    &&& after.session_id == before.session_id
    &&& after.rekey == before.rekey
    &&& after.write_cursor == before.write_cursor
    &&& after.last_rekey == before.last_rekey
    &&& after.server_compression == before.server_compression
    &&& after.client_compression == before.client_compression
    &&& after.compress == before.compress
    &&& after.decompress == before.decompress
    &&& after.compress_buffer == before.compress_buffer
    &&& after.is_cloud == before.is_cloud
}

/// The session is the same in everything that can be told of it.
pub open spec fn nothing_happened<S: Suite>(before: Encrypted<S>, after: Encrypted<S>) -> bool {
    &&& session_kept(before, after)
    &&& cryptovec_bytes(after.write) == cryptovec_bytes(before.write)
    &&& after.channels@ == before.channels@
    &&& after.last_channel_id == before.last_channel_id
}

/// Nothing but one channel and the queue differs, and of that channel nothing
/// but the windows and the waiting data.
pub open spec fn only_channel_touched<S: Suite>(
    before: Encrypted<S>,
    after: Encrypted<S>,
    channel: ChannelId,
) -> bool {
    &&& session_kept(before, after)
    &&& after.last_channel_id == before.last_channel_id
    &&& after.channels@.dom() == before.channels@.dom()
    &&& forall|id: u32|
        id != channel.0 && before.channels@.contains_key(id) ==> #[trigger] after.channels@[id]
            == before.channels@[id]
    &&& parameters_kept(before.channels@[channel.0], after.channels@[channel.0])
}

/// Nothing but the windows and the waiting data of a channel differs.
pub open spec fn parameters_kept(before: ChannelParams, after: ChannelParams) -> bool {
    &&& after.recipient_channel == before.recipient_channel
    &&& after.sender_channel == before.sender_channel
    &&& after.recipient_maximum_packet_size == before.recipient_maximum_packet_size
    &&& after.sender_maximum_packet_size == before.sender_maximum_packet_size
    &&& after.confirmed == before.confirmed
    &&& after.wants_reply == before.wants_reply
}

pub proof fn lemma_only_channel_touched<S: Suite>(
    before: Encrypted<S>,
    after: Encrypted<S>,
    channel: ChannelId,
)
    requires
        after.only_channel_differs(before, channel),
        after.same_connection(before),
        after.write_cursor == before.write_cursor,
    ensures
        only_channel_touched(before, after, channel),
{
    assert(after.channels@.dom() =~= before.channels@.dom());
}

/// How much of `len` bytes a window lets through.
pub open spec fn let_through(len: nat, window: u32) -> nat {
    if len <= window {
        len
    } else {
        window as nat
    }
}

/// A buffer went out on a channel as far as `n` bytes of it: as packets of the
/// largest size that the other side accepts, which are taken off the window. The
/// rest waits, marked by where it begins.
pub open spec fn went_out<S: Suite>(
    before: Encrypted<S>,
    after: Encrypted<S>,
    channel: ChannelId,
    ext: Option<u32>,
    buf: CryptoVec,
    n: nat,
    keep: bool,
) -> bool {
    let (old_params, params) = (before.channels@[channel.0], after.channels@[channel.0]);
    &&& only_channel_touched(before, after, channel)
    &&& exists|payloads: Seq<Seq<u8>>| #[trigger]
        appended(before.write, after.write, payloads) && carries(
            payloads,
            old_params.recipient_channel,
            ext,
            old_params.recipient_maximum_packet_size,
            cryptovec_bytes(buf).take(n as int),
        )
    &&& params.sender_window_size == old_params.sender_window_size
    &&& params.recipient_window_size == old_params.recipient_window_size - n
    &&& params.pending_data@ == if keep {
        old_params.pending_data@.push((buf, ext, n as usize))
    } else {
        old_params.pending_data@
    }
}

/// Sending data: nothing goes out where data of the channel waits already or
/// keys are exchanged, else as much as the window lets through. What does not go
/// out waits behind what waited.
pub proof fn law_data<S: Suite>(enc: &mut Encrypted<S>, channel: ChannelId, buf: CryptoVec)
    requires
        call_ensures(Encrypted::<S>::data, (enc, channel, buf), ()),
        old(enc).channels@.contains_key(channel.0)
            ==> old(enc).channels@[channel.0].recipient_maximum_packet_size > 0 || cryptovec_bytes(
            buf,
        ).len() == 0 || old(enc).channels@[channel.0].recipient_window_size == 0 || old(enc).channels@[channel.0].pending_data@.len() > 0 || old(enc).rekey is Some,
    ensures
        !old(enc).channels@.contains_key(channel.0) ==> nothing_happened(*old(enc), *final(enc)),
        old(enc).channels@.contains_key(channel.0) ==> ({
            let params = old(enc).channels@[channel.0];
            let len = cryptovec_bytes(buf).len();
            let waits = params.pending_data@.len() > 0 || old(enc).rekey is Some;
            let n = if waits {
                0
            } else {
                let_through(len, params.recipient_window_size)
            };
            went_out(*old(enc), *final(enc), channel, None, buf, n, waits || n < len)
        }),
{
    let (before, after) = (*old(enc), *final(enc));
    let params = before.channels@[channel.0];
    let data = cryptovec_bytes(buf);
    let payloads = before.data_packets(channel, data);
    lemma_appended(before.write, after.write, payloads);
    if before.channels@.contains_key(channel.0) {
        lemma_only_channel_touched(before, after, channel);
        let waits = params.pending_data@.len() > 0 || before.rekey is Some;
        let n = if waits {
            0
        } else {
            let_through(data.len(), params.recipient_window_size)
        };
        assert(before.data_part(channel, data) =~= data.take(n as int));
        law_packets_carry_pieces(
            params.recipient_channel,
            None,
            params.recipient_maximum_packet_size,
            data.take(n as int),
        );
    } else {
        assert(payloads =~= Seq::<Seq<u8>>::empty());
        assert(frames(payloads) =~= Seq::<u8>::empty());
    }
}

/// Sending extended data: nothing goes out where data of the channel waits
/// already, else as much as the window lets through. What does not go out waits
/// behind what waited.
pub proof fn law_extended_data<S: Suite>(
    enc: &mut Encrypted<S>,
    channel: ChannelId,
    ext: u32,
    buf: CryptoVec,
)
    requires
        call_ensures(Encrypted::<S>::extended_data, (enc, channel, ext, buf), ()),
        old(enc).channels@.contains_key(channel.0)
            ==> old(enc).channels@[channel.0].recipient_maximum_packet_size > 0 || cryptovec_bytes(
            buf,
        ).len() == 0 || old(enc).channels@[channel.0].recipient_window_size == 0 || old(enc).channels@[channel.0].pending_data@.len() > 0,
    ensures
        !old(enc).channels@.contains_key(channel.0) ==> nothing_happened(*old(enc), *final(enc)),
        old(enc).channels@.contains_key(channel.0) ==> ({
            let params = old(enc).channels@[channel.0];
            let len = cryptovec_bytes(buf).len();
            let waits = params.pending_data@.len() > 0;
            let n = if waits {
                0
            } else {
                let_through(len, params.recipient_window_size)
            };
            went_out(*old(enc), *final(enc), channel, Some(ext), buf, n, waits || n < len)
        }),
{
    let (before, after) = (*old(enc), *final(enc));
    let params = before.channels@[channel.0];
    let data = cryptovec_bytes(buf);
    let payloads = before.extended_data_packets(channel, ext, data);
    lemma_appended(before.write, after.write, payloads);
    if before.channels@.contains_key(channel.0) {
        lemma_only_channel_touched(before, after, channel);
        let n = if params.pending_data@.len() > 0 {
            0
        } else {
            let_through(data.len(), params.recipient_window_size)
        };
        assert(before.extended_data_part(channel, data) =~= data.take(n as int));
        law_packets_carry_pieces(
            params.recipient_channel,
            Some(ext),
            params.recipient_maximum_packet_size,
            data.take(n as int),
        );
    } else {
        assert(payloads =~= Seq::<Seq<u8>>::empty());
        assert(frames(payloads) =~= Seq::<u8>::empty());
    }
}

/// Where nothing waits, nothing is sent.
pub proof fn law_drain_nothing(recipient: u32, max: u32, window: nat)
    ensures
        drain(recipient, max, Seq::empty(), window).payloads.len() == 0,
        drain(recipient, max, Seq::empty(), window).size == 0,
        drain(recipient, max, Seq::empty(), window).rest.len() == 0,
{
}

/// Of one waiting buffer as much is sent, from where it was left, as the window
/// lets through: as data, in packets of the largest size that the other side
/// accepts. Where not all of it is sent it goes on waiting, marked by where the
/// rest begins.
pub proof fn law_drain_one(recipient: u32, max: u32, pending: Pending, window: nat)
    requires
        max > 0 || window == 0 || pending.2 >= cryptovec_bytes(pending.0).len(),
        cryptovec_bytes(pending.0).len() <= usize::MAX,
    ensures
        ({
            let (data, from) = (cryptovec_bytes(pending.0), pending.2 as int);
            let drained = drain(recipient, max, seq![pending], window);
            let left = if from < data.len() {
                data.len() - from
            } else {
                0
            };
            let n = if left <= window {
                left
            } else {
                window as int
            };
            &&& drained.size == n
            &&& n == 0 ==> drained.payloads.len() == 0
            &&& n > 0 ==> carries(
                drained.payloads,
                recipient,
                None,
                max,
                data.subrange(from, from + n),
            )
            &&& n == left ==> drained.rest.len() == 0
            &&& n < left ==> drained.rest == seq![(pending.0, pending.1, (from + n) as usize)] && (
            from + n) as usize == from + n
        }),
{
    reveal_with_fuel(drain, 2);
    let (data, from) = (cryptovec_bytes(pending.0), pending.2 as int);
    let all = seq![pending];
    let left = if from < data.len() {
        data.len() - from
    } else {
        0
    };
    let n = if left <= window {
        left
    } else {
        window as int
    };
    assert(all.drop_first() =~= Seq::<Pending>::empty());
    assert(all.first() == pending);
    let none = Seq::<Seq<u8>>::empty();
    if n > 0 {
        law_packets_carry_pieces(recipient, None, max, data.subrange(from, from + n));
        let payloads = crate::channel::packets(
            recipient,
            None,
            max,
            data.subrange(from, from + n),
        );
        assert(payloads + none =~= payloads);
    } else {
        let part = crate::channel::window_part(data, from as nat, window);
        assert(part =~= Seq::<u8>::empty());
        law_packets_carry_pieces(recipient, None, max, part);
    }
    let rest = seq![(pending.0, pending.1, (from + n) as usize)];
    assert(rest + Seq::<Pending>::empty() =~= rest);
}

/// Sending waiting data in two parts: the second part is sent only once nothing
/// of the first waits, with what the first left of the window.
pub proof fn law_drain_in_turn(
    recipient: u32,
    max: u32,
    first: Seq<Pending>,
    second: Seq<Pending>,
    window: nat,
)
    ensures
        ({
            let one = drain(recipient, max, first, window);
            let two = drain(recipient, max, second, (window - one.size) as nat);
            let both = drain(recipient, max, first + second, window);
            &&& one.size <= window
            &&& one.rest.len() == 0 ==> {
                &&& both.payloads == one.payloads + two.payloads
                &&& both.size == one.size + two.size
                &&& both.rest == two.rest
            }
            &&& one.rest.len() > 0 ==> {
                &&& both.payloads == one.payloads
                &&& both.size == one.size
                &&& both.rest == one.rest + second
            }
        }),
    decreases first.len(),
{
    let all = first + second;
    law_drain_fills_window(recipient, max, first, window);
    if first.len() == 0 {
        let two = drain(recipient, max, second, window);
        assert(all =~= second);
        assert(Seq::<Seq<u8>>::empty() + two.payloads =~= two.payloads);
    } else {
        let (buf, ext, from) = first.first();
        let data = cryptovec_bytes(buf);
        let n = crate::channel::sendable(data.len(), from as nat, window);
        assert(all.first() == first.first());
        assert(all.drop_first() =~= first.drop_first() + second);
        if from + n < data.len() {
            let stays = seq![(buf, ext, (from + n) as usize)];
            assert(stays + (first.drop_first() + second) =~= (stays + first.drop_first())
                + second);
        } else {
            law_drain_in_turn(recipient, max, first.drop_first(), second, (window - n) as nat);
            let payloads = crate::channel::packets(
                recipient,
                None,
                max,
                crate::channel::window_part(data, from as nat, window),
            );
            let one = drain(recipient, max, first.drop_first(), (window - n) as nat);
            let two = drain(recipient, max, second, (window - n - one.size) as nat);
            assert(payloads + (one.payloads + two.payloads) =~= (payloads + one.payloads)
                + two.payloads);
        }
    }
}

/// A channel was flushed: its waiting data went out as far as its window allows.
pub open spec fn channel_flushed(before: ChannelParams, after: ChannelParams) -> bool {
    let drained = drain(
        before.recipient_channel,
        before.recipient_maximum_packet_size,
        before.pending_data@,
        before.recipient_window_size as nat,
    );
    &&& parameters_kept(before, after)
    &&& after.sender_window_size == before.sender_window_size
    &&& after.recipient_window_size == before.recipient_window_size - drained.size
    &&& after.pending_data@ == drained.rest
}

/// The packets into which the waiting data of a channel goes.
pub open spec fn flushed_packets(before: ChannelParams) -> Seq<Seq<u8>> {
    drain(
        before.recipient_channel,
        before.recipient_maximum_packet_size,
        before.pending_data@,
        before.recipient_window_size as nat,
    ).payloads
}

/// Flushing a channel sends what waits on it, as far as its window allows, and
/// tells how much that is: what the window lost.
pub proof fn law_flush_pending<S: Suite>(enc: &mut Encrypted<S>, channel: ChannelId, size: usize)
    requires
        call_ensures(Encrypted::<S>::flush_pending, (enc, channel), size),
    ensures
        !old(enc).channels@.contains_key(channel.0) ==> nothing_happened(*old(enc), *final(enc))
            && size == 0,
        old(enc).channels@.contains_key(channel.0) ==> {
            let (before, after) = (old(enc).channels@[channel.0], final(enc).channels@[channel.0]);
            &&& only_channel_touched(*old(enc), *final(enc), channel)
            &&& channel_flushed(before, after)
            &&& appended(old(enc).write, final(enc).write, flushed_packets(before))
            &&& size == before.recipient_window_size - after.recipient_window_size
        },
{
    let payloads = old(enc).pending_packets(channel);
    lemma_appended(old(enc).write, final(enc).write, payloads);
    if old(enc).channels@.contains_key(channel.0) {
        lemma_only_channel_touched(*old(enc), *final(enc), channel);
    } else {
        assert(frames(payloads) =~= Seq::<u8>::empty());
    }
}

/// Flushing all channels flushes each of them as if it were flushed alone. The
/// packets of a channel come together, and those of the channels in any order.
pub proof fn law_flush_all_pending<S: Suite>(enc: &mut Encrypted<S>)
    requires
        call_ensures(Encrypted::<S>::flush_all_pending, (enc,), ()),
    ensures
        session_kept(*old(enc), *final(enc)),
        final(enc).last_channel_id == old(enc).last_channel_id,
        final(enc).channels@.dom() == old(enc).channels@.dom(),
        forall|id: u32| #[trigger]
            old(enc).channels@.contains_key(id) ==> channel_flushed(
                old(enc).channels@[id],
                final(enc).channels@[id],
            ),
        exists|order: Seq<u32>|
            {
                &&& #[trigger] order.no_duplicates()
                &&& forall|id: u32| order.contains(id) <==> old(enc).channels@.contains_key(id)
                &&& appended(
                    old(enc).write,
                    final(enc).write,
                    order.map_values(
                        |id: u32| flushed_packets(old(enc).channels@[id]),
                    ).flatten(),
                )
            },
{
    let channels = old(enc).channels@;
    let order = choose|order: Seq<u32>| #[trigger]
        enumerates(order, channels.dom()) && final(enc).queued(
            *old(enc),
            drained_in_order(channels, order),
        );
    let groups = order.map_values(|id: u32| flushed_packets(channels[id]));
    lemma_drained_is_flattened(channels, order);
    groups.lemma_flatten_and_flatten_alt_are_equivalent();
    lemma_appended(old(enc).write, final(enc).write, groups.flatten());
    assert forall|id: u32| order.contains(id) <==> channels.contains_key(id) by {
        assert(order.to_set().contains(id) <==> order.contains(id));
    }
    assert(order.no_duplicates());
}

proof fn lemma_drained_is_flattened(channels: Map<u32, ChannelParams>, order: Seq<u32>)
    ensures
        drained_in_order(channels, order) == order.map_values(
            |id: u32| flushed_packets(channels[id]),
        ).flatten_alt(),
    decreases order.len(),
{
    let f = |id: u32| flushed_packets(channels[id]);
    if order.len() > 0 {
        lemma_drained_is_flattened(channels, order.drop_last());
        assert(order.map_values(f).drop_last() =~= order.drop_last().map_values(f));
    }
}

/// Whether data of a channel waits.
pub proof fn law_has_pending_data<S: Suite>(enc: Encrypted<S>, channel: ChannelId, pending: bool)
    requires
        call_ensures(Encrypted::<S>::has_pending_data, (&enc, channel), pending),
    ensures
        pending <==> enc.channels@.contains_key(channel.0)
            && enc.channels@[channel.0].pending_data@.len() > 0,
{
}

/// How much may come in on a channel: nothing on one that is not there.
pub proof fn law_sender_window_size<S: Suite>(enc: Encrypted<S>, channel: ChannelId, size: usize)
    requires
        call_ensures(Encrypted::<S>::sender_window_size, (&enc, channel), size),
    ensures
        enc.channels@.contains_key(channel.0) ==> size
            == enc.channels@[channel.0].sender_window_size,
        !enc.channels@.contains_key(channel.0) ==> size == 0,
{
}

/// `payload` is a message that consists of its number and a channel.
pub open spec fn is_channel_message(payload: Seq<u8>, message: u8, recipient: u32) -> bool {
    &&& payload.len() == 5
    &&& payload[0] == message
    &&& number_at(payload, 1) == recipient
}

/// A message about a channel was queued, and nothing else happened.
pub open spec fn message_queued<S: Suite>(
    before: Encrypted<S>,
    after: Encrypted<S>,
    channel: ChannelId,
    message: u8,
) -> bool {
    &&& session_kept(before, after)
    &&& after.channels@ == before.channels@
    &&& after.last_channel_id == before.last_channel_id
    &&& exists|payload: Seq<u8>| #[trigger]
        is_channel_message(payload, message, before.channels@[channel.0].recipient_channel)
            && appended(before.write, after.write, seq![payload])
}

pub proof fn lemma_message_queued<S: Suite>(
    before: Encrypted<S>,
    after: Encrypted<S>,
    channel: ChannelId,
    message: u8,
)
    requires
        after.queued(before, before.byte_packets(channel, message)),
        after.same_channels(before),
    ensures
        before.channels@.contains_key(channel.0) ==> message_queued(
            before,
            after,
            channel,
            message,
        ),
        !before.channels@.contains_key(channel.0) ==> nothing_happened(before, after),
{
    let recipient = before.channels@[channel.0].recipient_channel;
    let payload = byte_payload(message, recipient);
    lemma_appended(before.write, after.write, before.byte_packets(channel, message));
    lemma_number_at(seq![message], recipient as int, Seq::empty());
    assert(payload =~= seq![message] + be32(recipient as int) + Seq::<u8>::empty());
    if before.channels@.contains_key(channel.0) {
        assert(is_channel_message(payload, message, recipient));
    } else {
        assert(frames(Seq::empty()) =~= Seq::<u8>::empty());
    }
}

/// A message about a channel is queued with its number and the number that the
/// other side knows the channel by, where there is such a channel.
pub proof fn law_byte<S: Suite>(enc: &mut Encrypted<S>, channel: ChannelId, message: u8)
    requires
        call_ensures(Encrypted::<S>::byte, (enc, channel, message), ()),
    ensures
        old(enc).channels@.contains_key(channel.0) ==> message_queued(
            *old(enc),
            *final(enc),
            channel,
            message,
        ),
        !old(enc).channels@.contains_key(channel.0) ==> nothing_happened(*old(enc), *final(enc)),
{
    lemma_message_queued(*old(enc), *final(enc), channel, message);
}

/// The end of the data of a channel is announced by message 96.
pub proof fn law_eof<S: Suite>(enc: &mut Encrypted<S>, channel: ChannelId)
    requires
        call_ensures(Encrypted::<S>::eof, (enc, channel), ()),
    ensures
        old(enc).channels@.contains_key(channel.0) ==> message_queued(
            *old(enc),
            *final(enc),
            channel,
            96,
        ),
        !old(enc).channels@.contains_key(channel.0) ==> nothing_happened(*old(enc), *final(enc)),
{
    lemma_message_queued(*old(enc), *final(enc), channel, 96);
}

/// `payload` is a message that lets the other side send `amount` bytes more.
pub open spec fn is_window_adjust(payload: Seq<u8>, recipient: u32, amount: int) -> bool {
    &&& payload.len() == 9
    &&& payload[0] == 93
    &&& number_at(payload, 1) == recipient
    &&& number_at(payload, 5) == amount
}

/// A message that lets the other side send `amount` bytes more was queued.
pub open spec fn announced(
    before: CryptoVec,
    after: CryptoVec,
    recipient: u32,
    amount: int,
) -> bool {
    exists|payload: Seq<u8>| #[trigger]
        is_window_adjust(payload, recipient, amount) && appended(before, after, seq![payload])
}

/// Incoming data is taken off the window, byte by byte, unless there is more of
/// it than the window allows, which is ignored. Where less than half of the
/// target is left then, the difference to the target is announced, and the
/// window is the target. Lengths are numbers of 32 bits.
pub proof fn law_adjust_window_size<S: Suite>(
    enc: &mut Encrypted<S>,
    channel: ChannelId,
    data: &[u8],
    target: u32,
    adjusted: bool,
)
    requires
        call_ensures(
            Encrypted::<S>::adjust_window_size,
            (enc, channel, data, target),
            adjusted,
        ),
    ensures
        !old(enc).channels@.contains_key(channel.0) ==> !adjusted && nothing_happened(
            *old(enc),
            *final(enc),
        ),
        old(enc).channels@.contains_key(channel.0) ==> ({
            let (before, after) = (old(enc).channels@[channel.0], final(enc).channels@[channel.0]);
            let window = before.sender_window_size as int;
            let len = data@.len() % 0x1_0000_0000;
            let left = if len <= window {
                window - len
            } else {
                window
            };
            &&& only_channel_touched(*old(enc), *final(enc), channel)
            &&& after.recipient_window_size == before.recipient_window_size
            &&& after.pending_data == before.pending_data
            &&& data@.len() <= window ==> left == window - data@.len()
            &&& adjusted <==> left < target as int / 2
            &&& adjusted ==> after.sender_window_size == target && announced(
                old(enc).write,
                final(enc).write,
                before.recipient_channel,
                target - left,
            )
            &&& !adjusted ==> after.sender_window_size == left && cryptovec_bytes(final(enc).write)
                == cryptovec_bytes(old(enc).write)
        }),
{
    let payloads = old(enc).adjust_packets(channel, data@.len(), target);
    lemma_appended(old(enc).write, final(enc).write, payloads);
    if old(enc).channels@.contains_key(channel.0) {
        lemma_only_channel_touched(*old(enc), *final(enc), channel);
        let before = old(enc).channels@[channel.0];
        let window = before.sender_window_size as int;
        let len = data@.len() % 0x1_0000_0000;
        let left = if len <= window {
            window - len
        } else {
            window
        };
        if adjusted {
            let recipient = before.recipient_channel as int;
            let payload = window_adjust_payload(before.recipient_channel, target - left);
            let head = seq![93u8];
            lemma_number_at(head, recipient, be32(target - left));
            lemma_number_at(head + be32(recipient), target - left, Seq::empty());
            assert(payload =~= head + be32(recipient) + be32(target - left));
            assert(payload =~= (head + be32(recipient)) + be32(target - left) + Seq::<
                u8,
            >::empty());
            assert(is_window_adjust(payload, before.recipient_channel, target - left));
            assert(payloads =~= seq![payload]);
        } else {
            assert(frames(payloads) =~= Seq::<u8>::empty());
        }
    } else {
        assert(frames(payloads) =~= Seq::<u8>::empty());
    }
}

/// `id` is free, and every number from behind `last` to before it is in use,
/// where the largest number is followed by zero.
pub open spec fn next_free(last: u32, used: Set<u32>, id: u32) -> bool {
    &&& !used.contains(id)
    &&& last < id ==> forall|n: u32| last < n < id ==> #[trigger] used.contains(n)
    &&& id <= last ==> (forall|n: u32| n > last ==> #[trigger] used.contains(n)) && (forall|n: u32|
        n < id ==> #[trigger] used.contains(n))
}

proof fn lemma_next_free(last: u32, used: Set<u32>, id: u32)
    requires
        crate::encrypted::first_free(last, used, id),
    ensures
        next_free(last, used, id),
{
    let steps = choose|steps: int| #[trigger]
        channel_number(last, steps) == id && 1 <= steps <= 0x1_0000_0000 && forall|earlier: int|
            1 <= earlier < steps ==> used.contains(#[trigger] channel_number(last, earlier) as u32);
    assert forall|n: u32|
        (last < n < id || (id <= last && (n > last || n < id))) implies #[trigger] used.contains(
        n,
    ) by {
        let earlier = if n > last {
            n - last
        } else {
            n - last + 0x1_0000_0000
        };
        assert(channel_number(last, earlier) == n);
        assert(earlier < steps);
    }
}

/// A new channel number is the next one behind the last that is not in use.
pub proof fn law_new_channel_id<S: Suite>(enc: &mut Encrypted<S>, id: ChannelId)
    requires
        call_ensures(Encrypted::<S>::new_channel_id, (enc,), id),
    ensures
        next_free(old(enc).last_channel_id, old(enc).channels@.dom(), id.0),
        session_kept(*old(enc), *final(enc)),
        cryptovec_bytes(final(enc).write) == cryptovec_bytes(old(enc).write),
        final(enc).channels@ == old(enc).channels@,
        final(enc).last_channel_id == id.0,
{
    lemma_next_free(old(enc).last_channel_id, old(enc).channels@.dom(), id.0);
}

/// A new channel gets the next free number and the given limits for incoming
/// data. Nothing may be sent on it. The other channels stay as they are.
pub proof fn law_new_channel<S: Suite>(
    enc: &mut Encrypted<S>,
    window_size: u32,
    maxpacket: u32,
    id: ChannelId,
)
    requires
        call_ensures(Encrypted::<S>::new_channel, (enc, window_size, maxpacket), id),
    ensures
        next_free(old(enc).last_channel_id, old(enc).channels@.dom(), id.0),
        session_kept(*old(enc), *final(enc)),
        cryptovec_bytes(final(enc).write) == cryptovec_bytes(old(enc).write),
        final(enc).last_channel_id == id.0,
        final(enc).channels@.remove(id.0) == old(enc).channels@,
        final(enc).channels@.contains_key(id.0),
        ({
            let params = final(enc).channels@[id.0];
            &&& params.sender_channel == id
            &&& params.sender_window_size == window_size
            &&& params.sender_maximum_packet_size == maxpacket
            &&& params.recipient_channel == 0
            &&& params.recipient_window_size == 0
            &&& params.recipient_maximum_packet_size == 0
            &&& !params.confirmed
            &&& !params.wants_reply
            &&& params.pending_data@.len() == 0
        }),
{
    lemma_next_free(old(enc).last_channel_id, old(enc).channels@.dom(), id.0);
    assert(final(enc).channels@.remove(id.0) =~= old(enc).channels@);
}

} // verus!
