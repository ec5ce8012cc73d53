//! What holds of the library as a whole: laws that relate several operations,
//! stated over the functions that the contracts of the operations use.
#![allow(unused_imports)]
use crate::algorithm::Compress;
use crate::be32::{group_be32, two32};
use crate::buffer::{cryptovec_bytes, SSHBuffer};
use crate::channel::{
    carried, carried_by, channel_payload, drain, drainable, drained_in_order, enumerates,
    expressible, left_of, packets, sendable, waiting, window_part, ChannelId, ChannelParams, Pending,
};
use crate::encrypted::{
    channel_number, first_free, transmits, transmitted, window_adjust_payload,
    window_after_data, Encrypted, EncryptedState, Line,
};
use crate::error::Error;
use crate::kex::{Kex, KexDhDone, KexInit, NewKeys};
use crate::limits::Limits;
use crate::msg;
use crate::server::connect::{is_message, ReplyStep};
use crate::session::{disconnect_payload, CommonSession, Disconnect};
use crate::suite::Suite;
use crate::wire::{
    all_fit_frame, chunks, fits_frame, frame, frames, law_chunks_concat, law_chunks_sizes,
    law_unframe_append, lemma_concat_append, lemma_concat_one, lemma_frames_one,
};
use russh_cryptovec::CryptoVec;
use vstd::prelude::*;

pub mod channels;
pub mod connection;
pub mod exchange;
pub mod reader;
pub mod sending;
pub mod serving;

verus! {

broadcast use group_be32;

/// The packets that data is divided into carry that data: nothing is lost,
/// added or reordered.
pub proof fn law_packets_carry_data(recipient: u32, ext: Option<u32>, max: u32, data: Seq<u8>)
    requires
        max > 0 || data.len() == 0,
    ensures
        carried_by(ext, packets(recipient, ext, max, data)) == data,
{
    let pieces = chunks(data, max as nat);
    let payloads = packets(recipient, ext, max, data);
    let back = payloads.map_values(|payload: Seq<u8>| carried(ext, payload));
    assert forall|i: int| 0 <= i < back.len() implies back[i] == pieces[i] by {
        assert(carried(ext, channel_payload(recipient, ext, pieces[i])) =~= pieces[i]);
    }
    assert(back =~= pieces);
    if max > 0 {
        law_chunks_concat(data, max as nat);
    } else {
        assert(pieces =~= Seq::<Seq<u8>>::empty());
        assert(data =~= Seq::<u8>::empty());
    }
}

/// No packet is empty or carries more than the other side accepts in one.
pub proof fn law_packets_respect_maximum(recipient: u32, ext: Option<u32>, max: u32, data: Seq<u8>)
    ensures
        forall|i: int|
            0 <= i < packets(recipient, ext, max, data).len() ==> 0 < carried(
                ext,
                #[trigger] packets(recipient, ext, max, data)[i],
            ).len() <= max,
{
    let pieces = chunks(data, max as nat);
    law_chunks_sizes(data, max as nat);
    assert forall|i: int| 0 <= i < packets(recipient, ext, max, data).len() implies 0 < carried(
        ext,
        #[trigger] packets(recipient, ext, max, data)[i],
    ).len() <= max by {
        assert(carried(ext, channel_payload(recipient, ext, pieces[i])) =~= pieces[i]);
    }
}

/// Unfolds what packets carry at the first list of two.
proof fn lemma_carried_by_append(ext: Option<u32>, a: Seq<Seq<u8>>, b: Seq<Seq<u8>>)
    ensures
        carried_by(ext, a + b) == carried_by(ext, a) + carried_by(ext, b),
{
    let f = |payload: Seq<u8>| carried(ext, payload);
    lemma_concat_append(a.map_values(f), b.map_values(f));
    assert((a + b).map_values(f) =~= a.map_values(f) + b.map_values(f));
}

/// What waits in two lists, one after the other.
pub proof fn lemma_waiting_append(a: Seq<Pending>, b: Seq<Pending>)
    ensures
        waiting(a + b) == waiting(a) + waiting(b),
{
    let f = |p: Pending| left_of(p);
    lemma_concat_append(a.map_values(f), b.map_values(f));
    assert((a + b).map_values(f) =~= a.map_values(f) + b.map_values(f));
}

/// What waits in a list of one.
pub proof fn lemma_waiting_one(p: Pending)
    ensures
        waiting(seq![p]) == left_of(p),
{
    lemma_concat_one(left_of(p));
    assert(seq![p].map_values(|p: Pending| left_of(p)) =~= seq![left_of(p)]);
}

/// Sending waiting data keeps the stream of bytes: what is sent and what goes
/// on waiting, in that order, is what was waiting.
pub proof fn law_drain_keeps_stream(recipient: u32, max: u32, pending: Seq<Pending>, window: nat)
    requires
        drainable(max, pending, window),
        expressible(pending),
    ensures
        carried_by(None, drain(recipient, max, pending, window).payloads) + waiting(
            drain(recipient, max, pending, window).rest,
        ) == waiting(pending),
    decreases pending.len(),
{
    let drained = drain(recipient, max, pending, window);
    if pending.len() == 0 {
        assert(carried_by(None, drained.payloads) + waiting(drained.rest) =~= waiting(pending));
    } else {
        let (buf, ext, from) = pending.first();
        let data = cryptovec_bytes(buf);
        let n = sendable(data.len(), from as nat, window);
        let part = window_part(data, from as nat, window);
        let payloads = packets(recipient, None, max, part);
        let others = pending.drop_first();
        assert(data.len() <= usize::MAX && (max == 0 && window > 0 ==> from >= data.len())) by {
            assert(pending[0] == pending.first());
        }
        law_packets_carry_data(recipient, None, max, part);
        if max == 0 && window > 0 {
            assert forall|i: int|
                #![trigger others[i]]
                0 <= i < others.len() implies others[i].2 >= cryptovec_bytes(
                others[i].0,
            ).len() by {
                assert(others[i] == pending[i + 1]);
            }
        }
        assert forall|i: int| 0 <= i < others.len() implies cryptovec_bytes(
            (#[trigger] others[i]).0,
        ).len() <= usize::MAX by {
            assert(others[i] == pending[i + 1]);
        }
        assert(pending =~= seq![pending.first()] + others);
        lemma_waiting_append(seq![pending.first()], others);
        lemma_waiting_one(pending.first());
        if from + n < data.len() {
            let stays = (buf, ext, (from + n) as usize);
            lemma_waiting_append(seq![stays], others);
            lemma_waiting_one(stays);
            assert(part + left_of(stays) =~= left_of(pending.first()));
            assert(part + (left_of(stays) + waiting(others)) =~= (part + left_of(stays)) + waiting(
                others,
            ));
        } else {
            let rest = drain(recipient, max, others, (window - n) as nat);
            law_drain_keeps_stream(recipient, max, others, (window - n) as nat);
            lemma_carried_by_append(None, payloads, rest.payloads);
            assert(part =~= left_of(pending.first()));
            assert((part + carried_by(None, rest.payloads)) + waiting(rest.rest) =~= part + (
            carried_by(None, rest.payloads) + waiting(rest.rest)));
        }
    }
}

/// As much waiting data is sent as fits into the window: all of it, or as much
/// as the window has room for.
pub proof fn law_drain_fills_window(recipient: u32, max: u32, pending: Seq<Pending>, window: nat)
    ensures
        drain(recipient, max, pending, window).size == if waiting(pending).len() <= window {
            waiting(pending).len()
        } else {
            window
        },
    decreases pending.len(),
{
    if pending.len() > 0 {
        let (buf, ext, from) = pending.first();
        let n = sendable(cryptovec_bytes(buf).len(), from as nat, window);
        let others = pending.drop_first();
        assert(pending =~= seq![pending.first()] + others);
        lemma_waiting_append(seq![pending.first()], others);
        lemma_waiting_one(pending.first());
        if from + n >= cryptovec_bytes(buf).len() {
            law_drain_fills_window(recipient, max, others, (window - n) as nat);
        }
    }
}

/// Sending waiting data again sends nothing, as long as the window was not
/// opened further.
pub proof fn law_drain_again_sends_nothing(
    recipient: u32,
    max: u32,
    pending: Seq<Pending>,
    window: nat,
)
    ensures
        ({
            let first = drain(recipient, max, pending, window);
            let again = drain(recipient, max, first.rest, (window - first.size) as nat);
            &&& again.payloads == Seq::<Seq<u8>>::empty()
            &&& again.size == 0
            &&& again.rest == first.rest
        }),
    decreases pending.len(),
{
    if pending.len() > 0 {
        let first = drain(recipient, max, pending, window);
        let (buf, ext, from) = pending.first();
        let data = cryptovec_bytes(buf);
        let n = sendable(data.len(), from as nat, window);
        let others = pending.drop_first();
        if from + n < data.len() {
            let again = drain(recipient, max, first.rest, (window - first.size) as nat);
            let stays = (buf, ext, (from + n) as usize);
            assert(first.rest.first() == stays);
            assert(first.rest.drop_first() =~= others);
            let part = window_part(data, (from + n) as nat, 0);
            assert(part =~= Seq::<u8>::empty());
            assert(packets(recipient, None, max, part) =~= Seq::<Seq<u8>>::empty());
        } else {
            law_drain_again_sends_nothing(recipient, max, others, (window - n) as nat);
        }
    }
}

/// What waits in a list to which a buffer was added.
proof fn lemma_waiting_push(pending: Seq<Pending>, p: Pending)
    ensures
        waiting(pending.push(p)) == waiting(pending) + left_of(p),
{
    lemma_waiting_append(pending, seq![p]);
    lemma_waiting_one(p);
    assert(pending.push(p) =~= pending + seq![p]);
}

/// Nothing waits in an empty list.
proof fn lemma_waiting_none(pending: Seq<Pending>)
    requires
        pending.len() == 0,
    ensures
        waiting(pending) == Seq::<u8>::empty(),
{
    assert(waiting(pending) =~= Seq::<u8>::empty());
}

/// Sending data keeps the stream of bytes of its channel: what is sent and what
/// waits afterwards, in that order, is what waited before and then the data.
pub proof fn law_data_keeps_stream<S: Suite>(
    before: Encrypted<S>,
    after: Encrypted<S>,
    channel: ChannelId,
    buf: CryptoVec,
)
    requires
        after.sent_data(before, channel, buf),
        before.channels@.contains_key(channel.0),
        before.channels@[channel.0].recipient_maximum_packet_size > 0 || before.data_part(
            channel,
            cryptovec_bytes(buf),
        ).len() == 0,
        cryptovec_bytes(buf).len() <= usize::MAX,
    ensures
        carried_by(None, before.data_packets(channel, cryptovec_bytes(buf))) + waiting(
            after.channels@[channel.0].pending_data@,
        ) == waiting(before.channels@[channel.0].pending_data@) + cryptovec_bytes(buf),
{
    let params = before.channels@[channel.0];
    let data = cryptovec_bytes(buf);
    let part = before.data_part(channel, data);
    let pending = params.pending_data@;
    law_packets_carry_data(
        params.recipient_channel,
        None,
        params.recipient_maximum_packet_size,
        part,
    );
    if before.data_waits(channel) {
        lemma_waiting_push(pending, (buf, None, 0));
        assert(left_of((buf, None, 0)) =~= data);
        assert(part + (waiting(pending) + data) =~= waiting(pending) + data);
    } else {
        lemma_waiting_none(pending);
        let stays = (buf, None::<u32>, part.len() as usize);
        lemma_waiting_push(pending, stays);
        assert(part + left_of(stays) =~= data);
        assert(waiting(pending) + left_of(stays) =~= left_of(stays));
        assert(waiting(pending) + data =~= data);
        assert(part + waiting(pending) =~= part);
    }
}

/// Sending extended data keeps the stream of bytes of its channel: what is sent
/// and what waits afterwards, in that order, is what waited before and then the
/// data.
pub proof fn law_extended_data_keeps_stream<S: Suite>(
    before: Encrypted<S>,
    after: Encrypted<S>,
    channel: ChannelId,
    ext: u32,
    buf: CryptoVec,
)
    requires
        after.sent_extended_data(before, channel, ext, buf),
        before.channels@.contains_key(channel.0),
        before.channels@[channel.0].recipient_maximum_packet_size > 0 || before.extended_data_part(
            channel,
            cryptovec_bytes(buf),
        ).len() == 0,
        cryptovec_bytes(buf).len() <= usize::MAX,
    ensures
        carried_by(
            Some(ext),
            before.extended_data_packets(channel, ext, cryptovec_bytes(buf)),
        ) + waiting(after.channels@[channel.0].pending_data@) == waiting(
            before.channels@[channel.0].pending_data@,
        ) + cryptovec_bytes(buf),
{
    let params = before.channels@[channel.0];
    let data = cryptovec_bytes(buf);
    let part = before.extended_data_part(channel, data);
    let pending = params.pending_data@;
    law_packets_carry_data(
        params.recipient_channel,
        Some(ext),
        params.recipient_maximum_packet_size,
        part,
    );
    if pending.len() > 0 {
        lemma_waiting_push(pending, (buf, Some(ext), 0));
        assert(left_of((buf, Some(ext), 0)) =~= data);
        assert(part + (waiting(pending) + data) =~= waiting(pending) + data);
    } else {
        lemma_waiting_none(pending);
        let stays = (buf, Some(ext), part.len() as usize);
        lemma_waiting_push(pending, stays);
        assert(part + left_of(stays) =~= data);
        assert(waiting(pending) + left_of(stays) =~= left_of(stays));
        assert(waiting(pending) + data =~= data);
        assert(part + waiting(pending) =~= part);
    }
}

/// Flushing a channel keeps its stream of bytes: what is sent and what waits
/// afterwards, in that order, is what waited before.
pub proof fn law_flush_keeps_stream<S: Suite>(
    before: Encrypted<S>,
    after: Encrypted<S>,
    channel: ChannelId,
    size: nat,
)
    requires
        after.flushed_pending(before, channel, size),
        before.channels@.contains_key(channel.0),
        before.channels@[channel.0].can_drain(),
        expressible(before.channels@[channel.0].pending_data@),
    ensures
        carried_by(None, before.pending_packets(channel)) + waiting(
            after.channels@[channel.0].pending_data@,
        ) == waiting(before.channels@[channel.0].pending_data@),
        carried_by(None, before.pending_packets(channel)).len() == size,
{
    let params = before.channels@[channel.0];
    let (recipient, max, pending, window) = (
        params.recipient_channel,
        params.recipient_maximum_packet_size,
        params.pending_data@,
        params.recipient_window_size as nat,
    );
    law_drain_keeps_stream(recipient, max, pending, window);
    law_drain_carries_size(recipient, max, pending, window);
}

/// The packets of waiting data carry as many bytes as are counted.
pub proof fn law_drain_carries_size(recipient: u32, max: u32, pending: Seq<Pending>, window: nat)
    requires
        drainable(max, pending, window),
    ensures
        carried_by(None, drain(recipient, max, pending, window).payloads).len() == drain(
            recipient,
            max,
            pending,
            window,
        ).size,
    decreases pending.len(),
{
    if pending.len() == 0 {
        assert(carried_by(None, Seq::empty()) =~= Seq::<u8>::empty());
    } else {
        let (buf, ext, from) = pending.first();
        let data = cryptovec_bytes(buf);
        let n = sendable(data.len(), from as nat, window);
        let part = window_part(data, from as nat, window);
        let others = pending.drop_first();
        assert(pending[0] == pending.first());
        if max == 0 && window > 0 {
            assert forall|i: int|
                #![trigger others[i]]
                0 <= i < others.len() implies others[i].2 >= cryptovec_bytes(
                others[i].0,
            ).len() by {
                assert(others[i] == pending[i + 1]);
            }
        }
        law_packets_carry_data(recipient, None, max, part);
        if from + n >= data.len() {
            law_drain_carries_size(recipient, max, others, (window - n) as nat);
            lemma_carried_by_append(
                None,
                packets(recipient, None, max, part),
                drain(recipient, max, others, (window - n) as nat).payloads,
            );
        }
    }
}

/// A channel never sends more than its window allows, and what it sends is
/// taken off the window.
pub proof fn law_data_respects_window<S: Suite>(
    before: Encrypted<S>,
    after: Encrypted<S>,
    channel: ChannelId,
    buf: CryptoVec,
)
    requires
        after.sent_data(before, channel, buf),
        before.channels@.contains_key(channel.0),
        before.channels@[channel.0].recipient_maximum_packet_size > 0 || before.data_part(
            channel,
            cryptovec_bytes(buf),
        ).len() == 0,
    ensures
        carried_by(None, before.data_packets(channel, cryptovec_bytes(buf))).len()
            == before.channels@[channel.0].recipient_window_size
            - after.channels@[channel.0].recipient_window_size,
{
    let params = before.channels@[channel.0];
    law_packets_carry_data(
        params.recipient_channel,
        None,
        params.recipient_maximum_packet_size,
        before.data_part(channel, cryptovec_bytes(buf)),
    );
}

/// A channel never sends more extended data than its window allows, and what it
/// sends is taken off the window.
pub proof fn law_extended_data_respects_window<S: Suite>(
    before: Encrypted<S>,
    after: Encrypted<S>,
    channel: ChannelId,
    ext: u32,
    buf: CryptoVec,
)
    requires
        after.sent_extended_data(before, channel, ext, buf),
        before.channels@.contains_key(channel.0),
        before.channels@[channel.0].recipient_maximum_packet_size > 0 || before.extended_data_part(
            channel,
            cryptovec_bytes(buf),
        ).len() == 0,
    ensures
        carried_by(
            Some(ext),
            before.extended_data_packets(channel, ext, cryptovec_bytes(buf)),
        ).len() == before.channels@[channel.0].recipient_window_size
            - after.channels@[channel.0].recipient_window_size,
{
    let params = before.channels@[channel.0];
    law_packets_carry_data(
        params.recipient_channel,
        Some(ext),
        params.recipient_maximum_packet_size,
        before.extended_data_part(channel, cryptovec_bytes(buf)),
    );
}

/// Data is held back only where it has to be: after sending data on a channel on
/// which nothing waited while no keys are exchanged, something waits only if the
/// window is full.
pub proof fn law_data_waits_for_window_only<S: Suite>(
    before: Encrypted<S>,
    after: Encrypted<S>,
    channel: ChannelId,
    buf: CryptoVec,
)
    requires
        after.sent_data(before, channel, buf),
        before.channels@.contains_key(channel.0),
        !before.data_waits(channel),
    ensures
        after.channels@[channel.0].pending_data@.len() > 0
            ==> after.channels@[channel.0].recipient_window_size == 0,
{
}

/// After a channel was flushed, something of its data is left to be sent only if
/// its window is full.
pub proof fn law_flush_empties_or_fills<S: Suite>(
    before: Encrypted<S>,
    after: Encrypted<S>,
    channel: ChannelId,
    size: nat,
)
    requires
        after.flushed_pending(before, channel, size),
        before.channels@.contains_key(channel.0),
        before.channels@[channel.0].can_drain(),
        expressible(before.channels@[channel.0].pending_data@),
    ensures
        waiting(after.channels@[channel.0].pending_data@).len() > 0
            ==> after.channels@[channel.0].recipient_window_size == 0,
{
    let params = before.channels@[channel.0];
    law_flush_keeps_stream(before, after, channel, size);
    law_drain_fills_window(
        params.recipient_channel,
        params.recipient_maximum_packet_size,
        params.pending_data@,
        params.recipient_window_size as nat,
    );
}

/// Packets are sent in the order in which they were queued: those that wait to
/// be sent after packets were queued are those that waited before, then the new
/// ones. The queue goes on consisting of complete packets.
pub proof fn law_queue_keeps_order<S: Suite>(
    before: Encrypted<S>,
    after: Encrypted<S>,
    payloads: Seq<Seq<u8>>,
)
    requires
        before.well_formed(),
        after.queue() == before.queue() + frames(payloads),
        after.write_cursor == before.write_cursor,
        all_fit_frame(payloads),
    ensures
        after.well_formed(),
        after.unsent() == Some(before.unsent()->0 + payloads),
{
    let cursor = before.write_cursor as int;
    let rest = before.queue().skip(cursor);
    assert(rest.len() == 0 ==> rest =~= Seq::<u8>::empty());
    law_unframe_append(rest, payloads);
    assert(after.queue().skip(cursor) =~= rest + frames(payloads));
    if after.queue().len() == cursor {
        assert(after.queue().skip(cursor) =~= Seq::<u8>::empty());
    }
}

/// The queue of a session that has just begun consists of complete packets, of
/// which there are none.
pub proof fn law_begins_well_formed<S: Suite>(
    enc: Encrypted<S>,
    state: EncryptedState<S>,
    newkeys: NewKeys<S>,
    is_cloud: bool,
)
    requires
        enc.begun(state, newkeys, is_cloud),
    ensures
        enc.well_formed(),
        enc.unsent() == Some(Seq::<Seq<u8>>::empty()),
{
}

/// Packets that carry data can be queued, unless both what the other side
/// accepts in one packet and the data come so near to 2^32 bytes that the length
/// of a packet cannot be written in four bytes.
pub proof fn law_data_packets_fit(recipient: u32, ext: Option<u32>, max: u32, data: Seq<u8>)
    requires
        ({
            let header: int = if ext is None {
                9
            } else {
                13
            };
            max < two32() - header || data.len() < two32() - header
        }),
    ensures
        all_fit_frame(packets(recipient, ext, max, data)),
{
    let pieces = chunks(data, max as nat);
    law_chunks_sizes(data, max as nat);
    lemma_chunks_within(data, max as nat);
    assert forall|i: int| 0 <= i < packets(recipient, ext, max, data).len() implies fits_frame(
        #[trigger] packets(recipient, ext, max, data)[i],
    ) by {
        assert(packets(recipient, ext, max, data)[i] == channel_payload(recipient, ext, pieces[i]));
    }
}

/// No piece of data is longer than the data.
proof fn lemma_chunks_within(data: Seq<u8>, max: nat)
    ensures
        forall|i: int|
            0 <= i < chunks(data, max).len() ==> (#[trigger] chunks(data, max)[i]).len()
                <= data.len(),
    decreases data.len(),
{
    if data.len() > max && max > 0 {
        let rest = data.skip(max as int);
        lemma_chunks_within(rest, max);
        let all = chunks(data, max);
        assert forall|i: int| 0 <= i < all.len() implies (#[trigger] all[i]).len()
            <= data.len() by {
            if i > 0 {
                assert(all[i] == chunks(rest, max)[i - 1]);
            }
        }
    }
}

/// Packets of waiting data can be queued, unless what the other side accepts in
/// one packet, its window and a waiting buffer all come so near to 2^32 bytes
/// that the length of a packet cannot be written in four bytes.
pub proof fn law_drained_packets_fit(recipient: u32, max: u32, pending: Seq<Pending>, window: nat)
    requires
        max < two32() - 9 || window < two32() - 9 || forall|i: int|
            0 <= i < pending.len() ==> left_of(#[trigger] pending[i]).len() < two32() - 9,
    ensures
        all_fit_frame(drain(recipient, max, pending, window).payloads),
    decreases pending.len(),
{
    if pending.len() > 0 {
        let (buf, ext, from) = pending.first();
        let n = sendable(cryptovec_bytes(buf).len(), from as nat, window);
        let part = window_part(cryptovec_bytes(buf), from as nat, window);
        let others = pending.drop_first();
        assert(pending.first() == pending[0]);
        assert(forall|i: int| 0 <= i < others.len() ==> #[trigger] others[i] == pending[i + 1]);
        law_data_packets_fit(recipient, None, max, part);
        if from + n >= cryptovec_bytes(buf).len() {
            law_drained_packets_fit(recipient, max, others, (window - n) as nat);
        }
    }
}

/// Messages about a channel without data can always be queued.
pub proof fn law_channel_messages_fit<S: Suite>(
    enc: Encrypted<S>,
    channel: ChannelId,
    message: u8,
    len: nat,
    target: u32,
)
    ensures
        all_fit_frame(enc.byte_packets(channel, message)),
        all_fit_frame(enc.adjust_packets(channel, len, target)),
{
}

/// Messages about a channel without data leave a queue of complete packets.
pub proof fn law_messages_keep_queue<S: Suite>(
    before: Encrypted<S>,
    after: Encrypted<S>,
    channel: ChannelId,
    message: u8,
    len: nat,
    target: u32,
)
    requires
        before.well_formed(),
        after.queued(before, before.byte_packets(channel, message)) || after.queued(
            before,
            before.adjust_packets(channel, len, target),
        ),
    ensures
        after.well_formed(),
{
    law_channel_messages_fit(before, channel, message, len, target);
    if after.queued(before, before.byte_packets(channel, message)) {
        law_queue_keeps_order(before, after, before.byte_packets(channel, message));
    } else {
        law_queue_keeps_order(before, after, before.adjust_packets(channel, len, target));
    }
}

/// Sending data leaves a queue of complete packets.
pub proof fn law_data_keeps_queue<S: Suite>(
    before: Encrypted<S>,
    after: Encrypted<S>,
    channel: ChannelId,
    buf: CryptoVec,
)
    requires
        before.well_formed(),
        after.sent_data(before, channel, buf),
        before.channels@[channel.0].recipient_maximum_packet_size < two32() - 9
            || before.data_part(channel, cryptovec_bytes(buf)).len() < two32() - 9,
    ensures
        after.well_formed(),
{
    let params = before.channels@[channel.0];
    law_data_packets_fit(
        params.recipient_channel,
        None,
        params.recipient_maximum_packet_size,
        before.data_part(channel, cryptovec_bytes(buf)),
    );
    law_queue_keeps_order(before, after, before.data_packets(channel, cryptovec_bytes(buf)));
}

/// Sending extended data leaves a queue of complete packets.
pub proof fn law_extended_data_keeps_queue<S: Suite>(
    before: Encrypted<S>,
    after: Encrypted<S>,
    channel: ChannelId,
    ext: u32,
    buf: CryptoVec,
)
    requires
        before.well_formed(),
        after.sent_extended_data(before, channel, ext, buf),
        before.channels@[channel.0].recipient_maximum_packet_size < two32() - 13
            || before.extended_data_part(channel, cryptovec_bytes(buf)).len() < two32() - 13,
    ensures
        after.well_formed(),
{
    let params = before.channels@[channel.0];
    let data = cryptovec_bytes(buf);
    law_data_packets_fit(
        params.recipient_channel,
        Some(ext),
        params.recipient_maximum_packet_size,
        before.extended_data_part(channel, data),
    );
    law_queue_keeps_order(before, after, before.extended_data_packets(channel, ext, data));
}

/// Flushing a channel leaves a queue of complete packets.
pub proof fn law_flush_keeps_queue<S: Suite>(
    before: Encrypted<S>,
    after: Encrypted<S>,
    channel: ChannelId,
    size: nat,
)
    requires
        before.well_formed(),
        after.flushed_pending(before, channel, size),
        all_fit_frame(before.pending_packets(channel)),
    ensures
        after.well_formed(),
{
    law_queue_keeps_order(before, after, before.pending_packets(channel));
}

/// Flushing all channels leaves a queue of complete packets, in whichever order
/// the channels come.
pub proof fn law_flush_all_keeps_queue<S: Suite>(
    before: Encrypted<S>,
    after: Encrypted<S>,
    order: Seq<u32>,
)
    requires
        before.well_formed(),
        enumerates(order, before.channels@.dom()),
        after.queued(before, drained_in_order(before.channels@, order)),
        forall|id: u32| #[trigger]
            before.channels@.contains_key(id) ==> all_fit_frame(
                before.channels@[id].drained().payloads,
            ),
    ensures
        after.well_formed(),
{
    assert forall|i: int| 0 <= i < order.len() implies all_fit_frame(
        before.channels@[#[trigger] order[i]].drained().payloads,
    ) by {
        assert(order.to_set().contains(order[i]));
        assert(before.channels@.contains_key(order[i]));
    }
    lemma_drained_in_order_fits(before.channels@, order);
    law_queue_keeps_order(before, after, drained_in_order(before.channels@, order));
}

/// The packets of several channels can be queued where those of each can.
proof fn lemma_drained_in_order_fits(channels: Map<u32, ChannelParams>, order: Seq<u32>)
    requires
        forall|i: int|
            0 <= i < order.len() ==> all_fit_frame(
                channels[#[trigger] order[i]].drained().payloads,
            ),
    ensures
        all_fit_frame(drained_in_order(channels, order)),
    decreases order.len(),
{
    if order.len() > 0 {
        let front = order.drop_last();
        assert(forall|i: int| 0 <= i < front.len() ==> #[trigger] front[i] == order[i]);
        assert(order.last() == order[order.len() - 1]);
        lemma_drained_in_order_fits(channels, front);
    }
}

/// The message that ends a connection can be queued, unless its texts come so
/// near to 2^32 bytes that its length cannot be written in four bytes.
pub proof fn law_disconnect_fits(reason: Disconnect, description: Seq<u8>, language_tag: Seq<u8>)
    requires
        description.len() + language_tag.len() < two32() - 13,
    ensures
        fits_frame(disconnect_payload(reason, description, language_tag)),
{
}

/// The message that ends a connection is sent after all that was queued before.
pub proof fn law_disconnect_comes_last<S: Suite>(
    before: Encrypted<S>,
    after: Encrypted<S>,
    payload: Seq<u8>,
)
    requires
        before.well_formed(),
        after == (Encrypted { write: after.write, ..before }),
        after.queue() == before.queue() + frame(payload),
        fits_frame(payload),
    ensures
        after.unsent() == Some(before.unsent()->0.push(payload)),
{
    lemma_frames_one(payload);
    law_queue_keeps_order(before, after, seq![payload]);
    assert(before.unsent()->0 + seq![payload] =~= before.unsent()->0.push(payload));
}

/// The window for incoming data never stays below half of its target, and this
/// side and the other agree on it: what is announced to the other side is what
/// the window grew by.
pub proof fn law_window_stays_open<S: Suite>(
    before: Encrypted<S>,
    after: Encrypted<S>,
    channel: ChannelId,
    len: nat,
    target: u32,
)
    requires
        after.took_data(before, channel, len, target),
        before.channels@.contains_key(channel.0),
    ensures
        after.channels@[channel.0].sender_window_size >= target / 2,
        before.adjust_packets(channel, len, target) == if before.adjusts_window(
            channel,
            len,
            target,
        ) {
            seq![
                window_adjust_payload(
                    before.channels@[channel.0].recipient_channel,
                    after.channels@[channel.0].sender_window_size - window_after_data(
                        before.channels@[channel.0].sender_window_size,
                        len,
                    ),
                ),
            ]
        } else {
            Seq::empty()
        },
{
}

/// There is one first free number, and it is not in use.
pub proof fn law_first_free_is_unique(last: u32, used: Set<u32>, a: u32, b: u32)
    requires
        first_free(last, used, a),
        first_free(last, used, b),
    ensures
        a == b,
        !used.contains(a),
{
    let s = choose|s: int| #[trigger]
        channel_number(last, s) == a && 1 <= s <= two32() && forall|earlier: int|
            1 <= earlier < s ==> used.contains(#[trigger] channel_number(last, earlier) as u32);
    let t = choose|t: int| #[trigger]
        channel_number(last, t) == b && 1 <= t <= two32() && forall|earlier: int|
            1 <= earlier < t ==> used.contains(#[trigger] channel_number(last, earlier) as u32);
    if s < t {
        assert(used.contains(channel_number(last, s) as u32));
    }
    if t < s {
        assert(used.contains(channel_number(last, t) as u32));
    }
}

/// There is a first free number wherever there is a free one.
pub proof fn law_first_free_exists(last: u32, used: Set<u32>, free: u32)
    requires
        !used.contains(free),
    ensures
        exists|id: u32| first_free(last, used, id),
{
    let distance = (free - last - 1) % two32() + 1;
    assert(channel_number(last, distance) == free);
    lemma_first_free_up_to(last, used, 1, distance);
}

/// Looks for the first free number from `from` steps on.
proof fn lemma_first_free_up_to(last: u32, used: Set<u32>, from: int, to: int)
    requires
        1 <= from <= to <= two32(),
        !used.contains(channel_number(last, to) as u32),
        forall|earlier: int|
            1 <= earlier < from ==> used.contains(#[trigger] channel_number(last, earlier) as u32),
    ensures
        exists|id: u32| first_free(last, used, id),
    decreases to - from,
{
    let id = channel_number(last, from) as u32;
    if used.contains(id) {
        lemma_first_free_up_to(last, used, from + 1, to);
    } else {
        assert(channel_number(last, from) == id);
        assert(first_free(last, used, id));
    }
}

/// When all channels are flushed, the packets of a channel stay together, behind
/// those of the channels that come before it.
pub proof fn law_flush_all_keeps_channels_apart(
    channels: Map<u32, ChannelParams>,
    order: Seq<u32>,
    i: int,
)
    requires
        0 <= i < order.len(),
    ensures
        (drained_in_order(channels, order.take(i))
            + channels[order[i]].drained().payloads).is_prefix_of(
            drained_in_order(channels, order),
        ),
    decreases order.len(),
{
    let front = order.drop_last();
    if i < front.len() {
        law_flush_all_keeps_channels_apart(channels, front, i);
        assert(front.take(i) =~= order.take(i));
        let some = drained_in_order(channels, order.take(i))
            + channels[order[i]].drained().payloads;
        let most = drained_in_order(channels, front);
        let all = drained_in_order(channels, order);
        assert(all.subrange(0, some.len() as int) =~= most.subrange(0, some.len() as int));
    } else {
        assert(order.take(i) =~= front);
        let all = drained_in_order(channels, order);
        assert(all.subrange(0, all.len() as int) =~= all);
    }
}

/// Both sides of a key exchange authenticate each direction by the same code:
/// what is local to one is remote to the other.
pub proof fn law_sides_agree_on_macs<S: Suite, T: Suite>(
    server: KexDhDone<S>,
    client: KexDhDone<T>,
)
    requires
        server.names == client.names,
    ensures
        server.request(true).remote_to_local_mac == client.request(false).local_to_remote_mac,
        server.request(true).local_to_remote_mac == client.request(false).remote_to_local_mac,
        server.request(true).cipher == client.request(false).cipher,
{
}

/// The identifier of a session is that of its first key exchange: exchanging
/// keys again does not change it, whatever the hash of the exchange.
pub proof fn law_session_id_is_kept<S: Suite>(
    done: KexDhDone<S>,
    hash: CryptoVec,
    ciphers: Result<S::Ciphers, Error>,
    res: Result<NewKeys<S>, Error>,
)
    requires
        done.outcome(hash, ciphers, res),
    ensures
        res matches Ok(keys) ==> match done.session_id {
            Some(id) => cryptovec_bytes(keys.session_id) == cryptovec_bytes(id),
            None => cryptovec_bytes(keys.session_id) == cryptovec_bytes(hash),
        },
{
}

/// A connection becomes encrypted only when the other side announces its new
/// keys after a key exchange has run, and then at once.
pub proof fn law_encrypted_after_new_keys<C, S: Suite>(
    before: CommonSession<C, S>,
    after: CommonSession<C, S>,
    buf: Seq<u8>,
    step: Result<ReplyStep, Error>,
)
    requires
        after.replied(before, buf, step),
        before.encrypted is None,
    ensures
        after.encrypted is Some <==> before.awaits_new_keys() && is_message(buf, msg::NEWKEYS),
{
}

/// A packet is refused exactly where new keys are awaited and it does not
/// announce them.
pub proof fn law_refused_without_new_keys<C, S: Suite>(
    before: CommonSession<C, S>,
    after: CommonSession<C, S>,
    buf: Seq<u8>,
    step: Result<ReplyStep, Error>,
)
    requires
        after.replied(before, buf, step),
    ensures
        step is Err <==> before.encrypted is None && before.awaits_new_keys() && !is_message(
            buf,
            msg::NEWKEYS,
        ),
        step is Err ==> step == Err::<ReplyStep, Error>(Error::Kex),
{
}

/// A step of the key exchange that is handed back as it was taken out leaves the
/// connection as it was.
pub proof fn law_step_put_back<C, S: Suite>(
    before: CommonSession<C, S>,
    taken: CommonSession<C, S>,
    after: CommonSession<C, S>,
    buf: Seq<u8>,
    kexinit: KexInit,
)
    requires
        taken.replied(before, buf, Ok(ReplyStep::ParseInit(kexinit))),
        after.only_kex_differs(taken, Some(Kex::Init(kexinit))),
    ensures
        after == before,
{
}

/// Keys are due to be exchanged again once as many bytes were written as the
/// limit says, whatever the clock says, unless the algorithm needs no exchange.
pub proof fn law_rekey_after_write_limit<S: Suite>(
    enc: Encrypted<S>,
    limits: Limits,
    written: usize,
    answer: bool,
)
    requires
        enc.rekey_answer(limits, written, answer),
        written >= limits.rekey_write_limit,
    ensures
        answer == !enc.kex.skip_exchange,
{
}

/// Where nothing waits to be sent, nothing is sent: the cipher, the compressor
/// and the outgoing bytes stay as they are.
pub proof fn law_nothing_sent_of_nothing<D, C, Z, W>(compress: Z, seal: W, lines: Seq<Line<D, C>>)
    where
    Z: Fn(Compress<D>, CryptoVec, &[u8]) -> (Compress<D>, CryptoVec, Result<CryptoVec, Error>),
    W: Fn(C, SSHBuffer, &[u8]) -> (C, SSHBuffer),

    requires
        transmitted(compress, seal, lines, Seq::empty()),
    ensures
        lines.first() == lines.last(),
{
}

/// Sending some packets and then others is sending all of them in turn: it does
/// not matter how often a queue is flushed in between.
pub proof fn law_transmission_resumes<D, C, Z, W>(
    compress: Z,
    seal: W,
    lines: Seq<Line<D, C>>,
    payloads: Seq<Seq<u8>>,
    more_lines: Seq<Line<D, C>>,
    more_payloads: Seq<Seq<u8>>,
) where
    Z: Fn(Compress<D>, CryptoVec, &[u8]) -> (Compress<D>, CryptoVec, Result<CryptoVec, Error>),
    W: Fn(C, SSHBuffer, &[u8]) -> (C, SSHBuffer),

    requires
        transmitted(compress, seal, lines, payloads),
        transmitted(compress, seal, more_lines, more_payloads),
        lines.last() == more_lines.first(),
    ensures
        transmitted(
            compress,
            seal,
            lines + more_lines.drop_first(),
            payloads + more_payloads,
        ),
{
    let all = lines + more_lines.drop_first();
    let sent = payloads + more_payloads;
    assert forall|i: int| 0 <= i < sent.len() implies transmits(
        compress,
        seal,
        all[i],
        #[trigger] sent[i],
        all[i + 1],
    ) by {
        if i < payloads.len() {
            assert(sent[i] == payloads[i]);
        } else {
            let j = i - payloads.len();
            assert(sent[i] == more_payloads[j]);
            assert(all[i] == more_lines[j]);
            assert(all[i + 1] == more_lines[j + 1]);
        }
    }
}

} // verus!
