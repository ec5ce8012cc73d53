//! Mathematical model of the bytes that a session queues: length-prefixed
//! strings, packet frames and the division of channel data into pieces.
#[allow(unused_imports)]
use crate::be32::{
    be32, be32_value, group_be32, law_be32_of_be32_value, law_be32_value_of_be32, two32,
};
use vstd::prelude::*;

verus! {

broadcast use group_be32;

/// An SSH string: the length in four bytes, then the contents.
pub open spec fn ssh_string(s: Seq<u8>) -> Seq<u8> {
    be32(s.len() as int) + s
}

/// A packet in a queue: the length of its payload in four bytes, then the
/// payload.
pub open spec fn frame(payload: Seq<u8>) -> Seq<u8> {
    be32(payload.len() as int) + payload
}

/// The queued bytes of a list of payloads, one frame after the other.
pub open spec fn frames(payloads: Seq<Seq<u8>>) -> Seq<u8>
    decreases payloads.len(),
{
    if payloads.len() == 0 {
        Seq::empty()
    } else {
        frame(payloads.first()) + frames(payloads.drop_first())
    }
}

/// The payloads whose frames `s` consists of, or `None` where `s` is not a
/// sequence of complete frames.
pub open spec fn unframe(s: Seq<u8>) -> Option<Seq<Seq<u8>>>
    decreases s.len(),
{
    if s.len() == 0 {
        Some(Seq::empty())
    } else if s.len() < 4 || s.len() < 4 + be32_value(s) {
        None
    } else {
        match unframe(s.skip(4 + be32_value(s))) {
            Some(rest) => Some(seq![s.subrange(4, 4 + be32_value(s))] + rest),
            None => None,
        }
    }
}

/// The length of `payload` can be written in the four bytes of its frame.
pub open spec fn fits_frame(payload: Seq<u8>) -> bool {
    payload.len() < two32()
}

/// Every payload of the list can be framed.
pub open spec fn all_fit_frame(payloads: Seq<Seq<u8>>) -> bool {
    forall|i: int| 0 <= i < payloads.len() ==> fits_frame(#[trigger] payloads[i])
}

/// `data` cut into pieces of `max` bytes, the last of which may be shorter.
pub open spec fn chunks(data: Seq<u8>, max: nat) -> Seq<Seq<u8>>
    decreases data.len(),
{
    if data.len() == 0 || max == 0 {
        Seq::empty()
    } else if data.len() <= max {
        seq![data]
    } else {
        seq![data.take(max as int)] + chunks(data.skip(max as int), max)
    }
}

/// The pieces of a list, one after the other.
pub open spec fn concat(pieces: Seq<Seq<u8>>) -> Seq<u8>
    decreases pieces.len(),
{
    if pieces.len() == 0 {
        Seq::empty()
    } else {
        pieces.first() + concat(pieces.drop_first())
    }
}

/// The frames of two lists, one after the other, are the frames of the joined
/// list.
pub proof fn lemma_frames_append(a: Seq<Seq<u8>>, b: Seq<Seq<u8>>)
    ensures
        frames(a + b) == frames(a) + frames(b),
    decreases a.len(),
{
    if a.len() == 0 {
        assert(a + b =~= b);
    } else {
        lemma_frames_append(a.drop_first(), b);
        assert((a + b).drop_first() =~= a.drop_first() + b);
        assert((a + b).first() == a.first());
        assert(frames(a + b) =~= frames(a) + frames(b));
    }
}

/// The frames of a list of one.
pub proof fn lemma_frames_one(payload: Seq<u8>)
    ensures
        frames(seq![payload]) == frame(payload),
{
    assert(seq![payload].drop_first() =~= Seq::<Seq<u8>>::empty());
    assert(frames(Seq::<Seq<u8>>::empty()) =~= Seq::<u8>::empty());
    assert(frames(seq![payload]) =~= frame(payload));
}

/// A complete frame in front of a queue is its first packet.
pub proof fn lemma_unframe_first(payload: Seq<u8>, tail: Seq<u8>)
    requires
        fits_frame(payload),
    ensures
        unframe(frame(payload) + tail) == (match unframe(tail) {
            Some(rest) => Some(seq![payload] + rest),
            None => None,
        }),
{
    let s = frame(payload) + tail;
    assert(s =~= be32(payload.len() as int) + (payload + tail));
    law_be32_value_of_be32(payload.len() as int, payload + tail);
    assert(be32_value(s) == payload.len());
    assert(s.skip(4 + be32_value(s)) =~= tail);
    assert(s.subrange(4, 4 + be32_value(s)) =~= payload);
}

/// A queue to which frames are appended holds the packets that it held, then
/// those of the appended frames, in their order.
pub proof fn law_unframe_append(s: Seq<u8>, payloads: Seq<Seq<u8>>)
    requires
        unframe(s) is Some,
        all_fit_frame(payloads),
    ensures
        unframe(s + frames(payloads)) == Some(unframe(s)->0 + payloads),
    decreases s.len(), payloads.len(),
{
    if s.len() == 0 {
        assert(s + frames(payloads) =~= frames(payloads));
        assert(unframe(s)->0 + payloads =~= payloads);
        if payloads.len() > 0 {
            let rest = payloads.drop_first();
            assert forall|i: int| 0 <= i < rest.len() implies fits_frame(#[trigger] rest[i]) by {
                assert(rest[i] == payloads[i + 1]);
            }
            law_unframe_append(s, rest);
            assert(s + frames(rest) =~= frames(rest));
            assert(unframe(s)->0 + rest =~= rest);
            assert(fits_frame(payloads[0]));
            lemma_unframe_first(payloads.first(), frames(rest));
            assert(seq![payloads.first()] + rest =~= payloads);
        }
    } else {
        let n = 4 + be32_value(s);
        let t = s + frames(payloads);
        law_be32_of_be32_value(s);
        assert(be32_value(t) == be32_value(s)) by {
            reveal(be32_value);
        }
        law_unframe_append(s.skip(n), payloads);
        assert(t.skip(n) =~= s.skip(n) + frames(payloads));
        assert(t.subrange(4, n) =~= s.subrange(4, n));
        let first = seq![s.subrange(4, n)];
        let rest = unframe(s.skip(n))->0;
        assert(first + (rest + payloads) =~= (first + rest) + payloads);
    }
}

/// Framing payloads and taking the frames apart gives the payloads back.
pub proof fn law_unframe_frames(payloads: Seq<Seq<u8>>)
    requires
        all_fit_frame(payloads),
    ensures
        unframe(frames(payloads)) == Some(payloads),
{
    law_unframe_append(Seq::empty(), payloads);
    assert(Seq::<u8>::empty() + frames(payloads) =~= frames(payloads));
    assert(Seq::<Seq<u8>>::empty() + payloads =~= payloads);
}

/// What consists of complete frames is the frames of its packets.
pub proof fn law_frames_unframe(s: Seq<u8>)
    requires
        unframe(s) is Some,
    ensures
        frames(unframe(s)->0) == s,
        all_fit_frame(unframe(s)->0),
    decreases s.len(),
{
    if s.len() > 0 {
        let n = be32_value(s);
        law_be32_of_be32_value(s);
        law_frames_unframe(s.skip(4 + n));
        let payload = s.subrange(4, 4 + n);
        let rest = unframe(s.skip(4 + n))->0;
        let all = seq![payload] + rest;
        assert(all.drop_first() =~= rest);
        assert(frame(payload) + s.skip(4 + n) =~= s);
        assert forall|i: int| 0 <= i < all.len() implies fits_frame(#[trigger] all[i]) by {
            if i > 0 {
                assert(all[i] == rest[i - 1]);
            }
        }
    } else {
        assert(s =~= Seq::<u8>::empty());
    }
}

/// Cutting data into pieces loses nothing, adds nothing and keeps the order.
pub proof fn law_chunks_concat(data: Seq<u8>, max: nat)
    requires
        max > 0,
    ensures
        concat(chunks(data, max)) == data,
    decreases data.len(),
{
    if data.len() == 0 {
        assert(data =~= Seq::<u8>::empty());
    } else if data.len() <= max {
        assert(seq![data].drop_first() =~= Seq::<Seq<u8>>::empty());
        assert(concat(Seq::<Seq<u8>>::empty()) =~= Seq::<u8>::empty());
        assert(concat(seq![data]) =~= data);
    } else {
        let rest = data.skip(max as int);
        law_chunks_concat(rest, max);
        let all = seq![data.take(max as int)] + chunks(rest, max);
        assert(all.drop_first() =~= chunks(rest, max));
        assert(data.take(max as int) + rest =~= data);
    }
}

/// The pieces of two lists, one after the other, are those of the joined list.
pub proof fn lemma_concat_append(a: Seq<Seq<u8>>, b: Seq<Seq<u8>>)
    ensures
        concat(a + b) == concat(a) + concat(b),
    decreases a.len(),
{
    if a.len() == 0 {
        assert(a + b =~= b);
        assert(concat(a) + concat(b) =~= concat(b));
    } else {
        lemma_concat_append(a.drop_first(), b);
        assert((a + b).drop_first() =~= a.drop_first() + b);
        assert(concat(a + b) =~= concat(a) + concat(b));
    }
}

/// The pieces of a list of one.
pub proof fn lemma_concat_one(piece: Seq<u8>)
    ensures
        concat(seq![piece]) == piece,
{
    assert(seq![piece].drop_first() =~= Seq::<Seq<u8>>::empty());
    assert(concat(Seq::<Seq<u8>>::empty()) =~= Seq::<u8>::empty());
    assert(concat(seq![piece]) =~= piece);
}

/// No piece is empty or longer than the limit, and all but the last are as
/// long as the limit.
pub proof fn law_chunks_sizes(data: Seq<u8>, max: nat)
    ensures
        forall|i: int|
            0 <= i < chunks(data, max).len() ==> 0 < (#[trigger] chunks(data, max)[i]).len() <= max,
        forall|i: int|
            0 <= i < chunks(data, max).len() - 1 ==> (#[trigger] chunks(data, max)[i]).len() == max,
    decreases data.len(),
{
    if data.len() > max && max > 0 {
        let rest = data.skip(max as int);
        law_chunks_sizes(rest, max);
        let all = chunks(data, max);
        assert forall|i: int| 0 <= i < all.len() implies 0 < (#[trigger] all[i]).len() <= max && (i
            < all.len() - 1 ==> all[i].len() == max) by {
            if i > 0 {
                assert(all[i] == chunks(rest, max)[i - 1]);
            }
        }
    }
}

} // verus!
