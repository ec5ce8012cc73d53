//! The bytes of packets as the other side reads them, in numbers: what is at
//! which position of a queue, a packet or a string.
#![allow(unused_imports)]
use crate::be32::{
    be32, be32_value, group_be32, law_be32_of_be32_value, law_be32_value_of_be32,
};
use crate::buffer::{cryptovec_bytes, position_after, push_packet, string_at};
use crate::channel::{channel_payload, packets};
use crate::msg;
use crate::wire::{chunks, frame, frames, lemma_frames_append, ssh_string, unframe};
use russh_cryptovec::CryptoVec;
use vstd::prelude::*;

verus! {

broadcast use group_be32;

/// The number that the four bytes from `at` on hold, most significant first.
pub open spec fn number_at(s: Seq<u8>, at: int) -> int {
    s[at] * 0x100_0000 + s[at + 1] * 0x1_0000 + s[at + 2] * 0x100 + s[at + 3]
}

/// `s` holds `string` from `at` on: its length in four bytes, then its bytes. A
/// length that four bytes cannot hold is written modulo 2^32.
pub open spec fn holds_string(s: Seq<u8>, at: int, string: Seq<u8>) -> bool {
    &&& 0 <= at
    &&& at + 4 + string.len() <= s.len()
    &&& number_at(s, at) == string.len() % 0x1_0000_0000
    &&& s.subrange(at + 4, at + 4 + string.len()) == string
}

/// `s` holds the given packets one after the other, each behind its length, and
/// nothing else.
pub open spec fn holds_packets(s: Seq<u8>, payloads: Seq<Seq<u8>>) -> bool
    decreases payloads.len(),
{
    if payloads.len() == 0 {
        s.len() == 0
    } else {
        let payload = payloads[0];
        &&& holds_string(s, 0, payload)
        &&& holds_packets(s.skip(4 + payload.len() as int), payloads.skip(1))
    }
}

/// The buffer `after` is `before` with the given packets behind it.
pub open spec fn appended(before: CryptoVec, after: CryptoVec, payloads: Seq<Seq<u8>>) -> bool {
    let (old_bytes, new_bytes) = (cryptovec_bytes(before), cryptovec_bytes(after));
    &&& old_bytes.len() <= new_bytes.len()
    &&& new_bytes.take(old_bytes.len() as int) == old_bytes
    &&& holds_packets(new_bytes.skip(old_bytes.len() as int), payloads)
}

/// `payload` is a message that carries `chunk` to the other side's channel
/// `recipient`, as extended data where there is a code for it.
pub open spec fn is_data_message(
    payload: Seq<u8>,
    recipient: u32,
    ext: Option<u32>,
    chunk: Seq<u8>,
) -> bool {
    match ext {
        None => {
            &&& payload.len() == 9 + chunk.len()
            &&& payload[0] == 94
            &&& number_at(payload, 1) == recipient
            &&& holds_string(payload, 5, chunk)
        },
        Some(code) => {
            &&& payload.len() == 13 + chunk.len()
            &&& payload[0] == 95
            &&& number_at(payload, 1) == recipient
            &&& number_at(payload, 5) == code
            &&& holds_string(payload, 9, chunk)
        },
    }
}

/// Where piece `i` ends of `len` bytes that are cut into pieces of `max`.
pub open spec fn piece_end(len: int, max: int, i: int) -> int {
    if (i + 1) * max <= len {
        (i + 1) * max
    } else {
        len
    }
}

/// `payloads` carry `data` in pieces of `max` bytes, the last of which may be
/// shorter. There are no more packets than that takes.
pub open spec fn carries(
    payloads: Seq<Seq<u8>>,
    recipient: u32,
    ext: Option<u32>,
    max: u32,
    data: Seq<u8>,
) -> bool {
    &&& data.len() == 0 ==> payloads.len() == 0
    &&& data.len() > 0 ==> (payloads.len() - 1) * max < data.len() <= payloads.len() * max
    &&& forall|i: int|
        0 <= i < payloads.len() ==> is_data_message(
            #[trigger] payloads[i],
            recipient,
            ext,
            data.subrange(i * max, piece_end(data.len() as int, max as int, i)),
        )
}

/// The four bytes of a number behind others hold that number.
pub proof fn lemma_number_at(head: Seq<u8>, n: int, tail: Seq<u8>)
    requires
        n >= 0,
    ensures
        number_at(head + be32(n) + tail, head.len() as int) == n % 0x1_0000_0000,
        (head + be32(n) + tail).len() == head.len() + 4 + tail.len(),
{
    let s = head + be32(n) + tail;
    let t = be32(n) + tail;
    law_be32_value_of_be32(n, tail);
    reveal(be32_value);
    assert(forall|i: int| 0 <= i < 4 ==> s[head.len() + i] == t[i]);
}

/// A string behind others is held there.
pub proof fn lemma_holds_string(head: Seq<u8>, string: Seq<u8>, tail: Seq<u8>)
    ensures
        holds_string(head + ssh_string(string) + tail, head.len() as int, string),
{
    let s = head + ssh_string(string) + tail;
    let at = head.len() as int;
    lemma_number_at(head, string.len() as int, string + tail);
    assert(s =~= head + be32(string.len() as int) + (string + tail));
    assert(s.subrange(at + 4, at + 4 + string.len()) =~= string);
}

/// The four bytes of a number below 2^32 hold that number, most significant byte
/// first, and four bytes hold the number that is read from them.
pub proof fn law_numbers_are_big_endian(n: int, s: Seq<u8>)
    requires
        0 <= n < 0x1_0000_0000,
        s.len() >= 4,
    ensures
        be32(n).len() == 4,
        be32(n)[0] * 0x100_0000 + be32(n)[1] * 0x1_0000 + be32(n)[2] * 0x100 + be32(n)[3] == n,
        be32_value(s) == s[0] * 0x100_0000 + s[1] * 0x1_0000 + s[2] * 0x100 + s[3],
{
    lemma_number_at(Seq::empty(), n, Seq::empty());
    assert(Seq::<u8>::empty() + be32(n) + Seq::<u8>::empty() =~= be32(n));
    reveal(be32_value);
}

/// A string and a packet are their length in four bytes, and behind it their
/// bytes.
pub proof fn law_strings_begin_with_their_length(s: Seq<u8>)
    ensures
        ssh_string(s).len() == 4 + s.len(),
        holds_string(ssh_string(s), 0, s),
        frame(s).len() == 4 + s.len(),
        holds_string(frame(s), 0, s),
{
    lemma_holds_string(Seq::empty(), s, Seq::empty());
    assert(Seq::<u8>::empty() + ssh_string(s) + Seq::<u8>::empty() =~= ssh_string(s));
    assert(frame(s) =~= ssh_string(s));
}

/// The queued bytes of packets hold these packets.
pub proof fn law_frames_hold_packets(payloads: Seq<Seq<u8>>)
    ensures
        holds_packets(frames(payloads), payloads),
    decreases payloads.len(),
{
    if payloads.len() > 0 {
        let payload = payloads[0];
        let rest = payloads.skip(1);
        law_frames_hold_packets(rest);
        assert(rest =~= payloads.drop_first());
        lemma_holds_string(Seq::empty(), payload, frames(rest));
        assert(frames(payloads) =~= Seq::<u8>::empty() + ssh_string(payload) + frames(rest));
        assert(frames(payloads).skip(4 + payload.len() as int) =~= frames(rest));
    }
}

/// Bytes that hold packets, the lengths of which four bytes can hold, consist of
/// complete packets, which are these.
pub proof fn law_held_packets_are_found(s: Seq<u8>, payloads: Seq<Seq<u8>>)
    requires
        holds_packets(s, payloads),
        forall|i: int| 0 <= i < payloads.len() ==> (#[trigger] payloads[i]).len() < 0x1_0000_0000,
    ensures
        unframe(s) == Some(payloads),
    decreases payloads.len(),
{
    if payloads.len() > 0 {
        let rest = payloads.skip(1);
        let n = payloads[0].len() as int;
        assert(forall|i: int| 0 <= i < rest.len() ==> #[trigger] rest[i] == payloads[i + 1]);
        law_held_packets_are_found(s.skip(4 + n), rest);
        reveal(be32_value);
        assert(be32_value(s) == n);
        assert(seq![payloads[0]] + rest =~= payloads);
    } else {
        assert(payloads =~= Seq::<Seq<u8>>::empty());
    }
}

/// The packets that bytes consist of are held by them.
pub proof fn law_found_packets_are_held(s: Seq<u8>)
    requires
        unframe(s) is Some,
    ensures
        holds_packets(s, unframe(s)->0),
        forall|i: int|
            0 <= i < unframe(s)->0.len() ==> (#[trigger] unframe(s)->0[i]).len() < 0x1_0000_0000,
    decreases s.len(),
{
    if s.len() > 0 {
        let n = be32_value(s);
        let rest = unframe(s.skip(4 + n))->0;
        let all = unframe(s)->0;
        law_found_packets_are_held(s.skip(4 + n));
        law_be32_of_be32_value(s);
        reveal(be32_value);
        assert(all =~= seq![s.subrange(4, 4 + n)] + rest);
        assert(all.skip(1) =~= rest);
        assert forall|i: int| 0 <= i < all.len() implies (#[trigger] all[i]).len()
            < 0x1_0000_0000 by {
            if i > 0 {
                assert(all[i] == rest[i - 1]);
            }
        }
    }
}

/// Bytes to which packets are appended are those bytes with these packets behind
/// them.
pub proof fn lemma_appended(before: CryptoVec, after: CryptoVec, payloads: Seq<Seq<u8>>)
    requires
        cryptovec_bytes(after) == cryptovec_bytes(before) + frames(payloads),
    ensures
        appended(before, after, payloads),
{
    let (old_bytes, new_bytes) = (cryptovec_bytes(before), cryptovec_bytes(after));
    law_frames_hold_packets(payloads);
    assert(new_bytes.take(old_bytes.len() as int) =~= old_bytes);
    assert(new_bytes.skip(old_bytes.len() as int) =~= frames(payloads));
}

/// Queueing a packet appends it, behind its length.
pub proof fn law_push_packet(queue: &mut CryptoVec, payload: CryptoVec)
    requires
        call_ensures(push_packet, (queue, &payload), ()),
    ensures
        appended(*old(queue), *final(queue), seq![cryptovec_bytes(payload)]),
{
    crate::wire::lemma_frames_one(cryptovec_bytes(payload));
    lemma_appended(*old(queue), *final(queue), seq![cryptovec_bytes(payload)]);
}

/// A packet that carries data parses back as the message that it is meant to be:
/// its number, the other side's channel, the code of extended data, and the data
/// as a string, with nothing behind it.
pub proof fn law_data_message_parses(recipient: u32, ext: Option<u32>, chunk: Seq<u8>)
    requires
        chunk.len() < 0x1_0000_0000,
    ensures
        is_data_message(channel_payload(recipient, ext, chunk), recipient, ext, chunk),
        ({
            let payload = channel_payload(recipient, ext, chunk);
            let at: int = if ext is None {
                5
            } else {
                9
            };
            &&& payload[0] == if ext is None {
                94u8
            } else {
                95u8
            }
            &&& be32_value(payload.subrange(1, 5)) == recipient
            &&& ext matches Some(code) ==> be32_value(payload.subrange(5, 9)) == code
            &&& string_at(payload, at) == Some(chunk)
            &&& position_after(payload, at) == payload.len()
        }),
{
    lemma_data_message(recipient, ext, chunk);
    let payload = channel_payload(recipient, ext, chunk);
    reveal(be32_value);
    if ext is None {
        assert(be32_value(payload.skip(5)) == chunk.len());
    } else {
        assert(be32_value(payload.skip(9)) == chunk.len());
    }
}

proof fn lemma_data_message(recipient: u32, ext: Option<u32>, chunk: Seq<u8>)
    ensures
        is_data_message(channel_payload(recipient, ext, chunk), recipient, ext, chunk),
{
    let payload = channel_payload(recipient, ext, chunk);
    match ext {
        None => {
            let head = seq![msg::CHANNEL_DATA];
            lemma_number_at(head, recipient as int, ssh_string(chunk));
            lemma_holds_string(head + be32(recipient as int), chunk, Seq::empty());
            assert(payload =~= head + be32(recipient as int) + ssh_string(chunk));
            assert(payload =~= (head + be32(recipient as int)) + ssh_string(chunk) + Seq::<
                u8,
            >::empty());
        },
        Some(code) => {
            let head = seq![msg::CHANNEL_EXTENDED_DATA];
            let channel = head + be32(recipient as int);
            lemma_number_at(head, recipient as int, be32(code as int) + ssh_string(chunk));
            lemma_number_at(channel, code as int, ssh_string(chunk));
            lemma_holds_string(channel + be32(code as int), chunk, Seq::empty());
            assert(payload =~= head + be32(recipient as int) + (be32(code as int) + ssh_string(
                chunk,
            )));
            assert(payload =~= channel + be32(code as int) + ssh_string(chunk));
            assert(payload =~= (channel + be32(code as int)) + ssh_string(chunk) + Seq::<
                u8,
            >::empty());
        },
    }
}

/// Data is cut at the multiples of the limit.
pub proof fn law_pieces_are_cut_at_multiples(data: Seq<u8>, max: nat)
    requires
        max > 0,
    ensures
        data.len() == 0 ==> chunks(data, max).len() == 0,
        data.len() > 0 ==> (chunks(data, max).len() - 1) * max < data.len() <= chunks(
            data,
            max,
        ).len() * max,
        forall|i: int|
            0 <= i < chunks(data, max).len() ==> #[trigger] chunks(data, max)[i] == data.subrange(
                i * max,
                piece_end(data.len() as int, max as int, i),
            ),
    decreases data.len(),
{
    let all = chunks(data, max);
    let len = data.len() as int;
    if data.len() == 0 {
    } else if data.len() <= max {
        assert(all =~= seq![data]);
        assert(0 * max == 0 && 1 * max == max) by (nonlinear_arith);
        assert(data.subrange(0, len) =~= data);
        assert forall|i: int| 0 <= i < all.len() implies #[trigger] all[i] == data.subrange(
            i * max,
            piece_end(len, max as int, i),
        ) by {
            assert(i == 0);
            assert(i * max == 0);
            assert((i + 1) * max == max);
        }
    } else {
        let rest = data.skip(max as int);
        let others = chunks(rest, max);
        law_pieces_are_cut_at_multiples(rest, max);
        let k = others.len() as int;
        assert(all.len() == k + 1);
        assert((k + 1) * max == k * max + max && (k - 1) * max == k * max - max) by (
            nonlinear_arith);
        assert forall|i: int| 0 <= i < all.len() implies #[trigger] all[i] == data.subrange(
            i * max,
            piece_end(len, max as int, i),
        ) by {
            assert((i + 1) * max == i * max + max) by (nonlinear_arith);
            assert((i - 1) * max == i * max - max) by (nonlinear_arith);
            assert(0 * max == 0) by (nonlinear_arith);
            if i == 0 {
                assert(all[0] == data.take(max as int));
                assert(data.subrange(0, max as int) =~= data.take(max as int));
            } else {
                let j = i - 1;
                assert(all[i] == others[j]);
                assert((j + 1) * max == i * max);
                assert(0 <= j * max <= (k - 1) * max) by (nonlinear_arith)
                    requires
                        0 <= j <= k - 1,
                ;
                let end = piece_end(rest.len() as int, max as int, j);
                assert(end + max == piece_end(len, max as int, i));
                assert(others[j] == rest.subrange(j * max, end));
                assert(rest.subrange(j * max, end) =~= data.subrange(i * max, end + max));
            }
        }
    }
}

/// Packets of data carry the data in pieces of the largest size that the other
/// side accepts.
pub proof fn law_packets_carry_pieces(recipient: u32, ext: Option<u32>, max: u32, data: Seq<u8>)
    requires
        max > 0 || data.len() == 0,
    ensures
        carries(packets(recipient, ext, max, data), recipient, ext, max, data),
{
    let payloads = packets(recipient, ext, max, data);
    let pieces = chunks(data, max as nat);
    if max > 0 {
        law_pieces_are_cut_at_multiples(data, max as nat);
        assert forall|i: int| 0 <= i < payloads.len() implies is_data_message(
            #[trigger] payloads[i],
            recipient,
            ext,
            data.subrange(i * max, piece_end(data.len() as int, max as int, i)),
        ) by {
            assert(payloads[i] == channel_payload(recipient, ext, pieces[i]));
            lemma_data_message(recipient, ext, pieces[i]);
        }
    }
}

} // verus!
