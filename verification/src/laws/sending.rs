//! What sending the queue of an encrypted session does, for any compressor and
//! any cipher.
#![allow(unused_imports)]
use crate::algorithm::Compress;
use crate::buffer::{cryptovec_bytes, SSHBuffer};
use crate::encrypted::{
    interrupted, rejects, transmits, transmitted, Encrypted, Flushed, Line,
};
use crate::error::Error;
use crate::laws::reader::{holds_packets, law_found_packets_are_held, law_held_packets_are_found};
use crate::limits::Limits;
use crate::suite::Suite;
use crate::time::{clock_read, nanos_since, Duration};
use russh_cryptovec::CryptoVec;
use std::time::Instant;
use vstd::prelude::*;

verus! {

/// What a compressor makes of its state, its buffer and a packet.
pub type Compressing<D> = spec_fn(Compress<D>, CryptoVec, Seq<u8>) -> (
    Compress<D>,
    CryptoVec,
    Result<CryptoVec, Error>,
);

/// What a cipher makes of its state, the sealed bytes and a packet.
pub type Sealing<C> = spec_fn(C, SSHBuffer, Seq<u8>) -> (C, SSHBuffer);

/// The compressor does what `z` says.
pub open spec fn compresses_by<D, Z>(compress: Z, z: Compressing<D>) -> bool where
    Z: Fn(Compress<D>, CryptoVec, &[u8]) -> (Compress<D>, CryptoVec, Result<CryptoVec, Error>),
 {
    forall|
        c: Compress<D>,
        b: CryptoVec,
        p: &[u8],
        r: (Compress<D>, CryptoVec, Result<CryptoVec, Error>),
    |
        #[trigger] call_ensures(compress, (c, b, p), r) ==> r == z(c, b, p@)
}

/// The cipher does what `w` says.
pub open spec fn seals_by<C, W>(seal: W, w: Sealing<C>) -> bool where
    W: Fn(C, SSHBuffer, &[u8]) -> (C, SSHBuffer),
 {
    forall|c: C, b: SSHBuffer, p: &[u8], r: (C, SSHBuffer)| #[trigger]
        call_ensures(seal, (c, b, p), r) ==> r == w(c, b, p@)
}

/// The compressor takes a packet.
pub open spec fn takes<D, C>(z: Compressing<D>, line: Line<D, C>, payload: Seq<u8>) -> bool {
    z(line.compress, line.compress_buffer, payload).2 is Ok
}

/// Sends one packet: what comes out of the compressor goes into the cipher.
pub open spec fn sent_one<D, C>(
    z: Compressing<D>,
    w: Sealing<C>,
    line: Line<D, C>,
    payload: Seq<u8>,
) -> Line<D, C> {
    let (compress, compress_buffer, packet) = z(line.compress, line.compress_buffer, payload);
    let (cipher, write_buffer) = w(line.cipher, line.write_buffer, cryptovec_bytes(packet->Ok_0));
    Line { compress, compress_buffer, cipher, write_buffer }
}

/// Sends packets one after the other.
pub open spec fn sent_all<D, C>(
    z: Compressing<D>,
    w: Sealing<C>,
    line: Line<D, C>,
    payloads: Seq<Seq<u8>>,
) -> Line<D, C> {
    payloads.fold_left(line, |l: Line<D, C>, p: Seq<u8>| sent_one(z, w, l, p))
}

/// The compressor takes every packet, each after those before it were sent.
pub open spec fn takes_all<D, C>(
    z: Compressing<D>,
    w: Sealing<C>,
    line: Line<D, C>,
    payloads: Seq<Seq<u8>>,
) -> bool {
    forall|i: int|
        0 <= i < payloads.len() ==> takes(
            z,
            sent_all(z, w, line, payloads.take(i)),
            #[trigger] payloads[i],
        )
}

proof fn lemma_transmits<D, C, Z, W>(
    compress: Z,
    seal: W,
    z: Compressing<D>,
    w: Sealing<C>,
    before: Line<D, C>,
    payload: Seq<u8>,
    after: Line<D, C>,
) where
    Z: Fn(Compress<D>, CryptoVec, &[u8]) -> (Compress<D>, CryptoVec, Result<CryptoVec, Error>),
    W: Fn(C, SSHBuffer, &[u8]) -> (C, SSHBuffer),

    requires
        transmits(compress, seal, before, payload, after),
        compresses_by(compress, z),
        seals_by(seal, w),
    ensures
        after == sent_one(z, w, before, payload),
        takes(z, before, payload),
{
}

proof fn lemma_sent_all_push<D, C>(
    z: Compressing<D>,
    w: Sealing<C>,
    line: Line<D, C>,
    payloads: Seq<Seq<u8>>,
    i: int,
)
    requires
        0 <= i < payloads.len(),
    ensures
        sent_all(z, w, line, payloads.take(i + 1)) == sent_one(
            z,
            w,
            sent_all(z, w, line, payloads.take(i)),
            payloads[i],
        ),
{
    assert(payloads.take(i + 1).drop_last() =~= payloads.take(i));
    assert(payloads.take(i + 1).last() == payloads[i]);
}

proof fn lemma_transmitted<D, C, Z, W>(
    compress: Z,
    seal: W,
    z: Compressing<D>,
    w: Sealing<C>,
    lines: Seq<Line<D, C>>,
    payloads: Seq<Seq<u8>>,
    count: int,
) where
    Z: Fn(Compress<D>, CryptoVec, &[u8]) -> (Compress<D>, CryptoVec, Result<CryptoVec, Error>),
    W: Fn(C, SSHBuffer, &[u8]) -> (C, SSHBuffer),

    requires
        transmitted(compress, seal, lines, payloads),
        compresses_by(compress, z),
        seals_by(seal, w),
        0 <= count <= payloads.len(),
    ensures
        lines[count] == sent_all(z, w, lines[0], payloads.take(count)),
        forall|i: int|
            0 <= i < count ==> takes(
                z,
                sent_all(z, w, lines[0], payloads.take(i)),
                #[trigger] payloads[i],
            ),
    decreases count,
{
    if count > 0 {
        let i = count - 1;
        lemma_transmitted(compress, seal, z, w, lines, payloads, i);
        assert(transmits(compress, seal, lines[i], payloads[i], lines[i + 1]));
        lemma_transmits(compress, seal, z, w, lines[i], payloads[i], lines[i + 1]);
        lemma_sent_all_push(z, w, lines[0], payloads, i);
    } else {
        assert(payloads.take(0) =~= Seq::<Seq<u8>>::empty());
    }
}

/// Nothing of a session but its queue and its compressor differs.
pub open spec fn session_flushed<S: Suite>(before: Encrypted<S>, after: Encrypted<S>) -> bool {
    &&& after.state == before.state
    &&& after.exchange == before.exchange
    &&& after.kex == before.kex
    &&& after.key == before.key
    &&& after.client_mac == before.client_mac
    &&& after.server_mac == before.server_mac
    &&& after.session_id == before.session_id
    &&& after.rekey == before.rekey
    &&& after.channels == before.channels
    &&& after.last_channel_id == before.last_channel_id
    &&& after.last_rekey == before.last_rekey
    &&& after.server_compression == before.server_compression
    &&& after.client_compression == before.client_compression
    &&& after.decompress == before.decompress
    &&& after.is_cloud == before.is_cloud
}

/// Flushing stopped at packet `k`, which the compressor did not take. Those
/// before it were sent, it and those behind it stay in the queue.
pub open spec fn stopped_at<S: Suite, C>(
    before: Encrypted<S>,
    after: Encrypted<S>,
    z: Compressing<S::Deflate>,
    sent: Line<S::Deflate, C>,
    payloads: Seq<Seq<u8>>,
    res: Flushed<C>,
    error: Error,
    k: int,
) -> bool {
    &&& z(sent.compress, sent.compress_buffer, payloads[k]) == (
        after.compress,
        after.compress_buffer,
        Err::<CryptoVec, Error>(error),
    )
    &&& res.cipher == sent.cipher
    &&& res.write_buffer == sent.write_buffer
    &&& cryptovec_bytes(after.write) == cryptovec_bytes(before.write)
    &&& holds_packets(
        cryptovec_bytes(after.write).skip(after.write_cursor as int),
        payloads.skip(k),
    )
}

/// Flushing sends the packets that the queue holds behind the cursor, each once
/// and in their order, through the compressor and then the cipher. It succeeds
/// where the compressor takes all of them, and leaves nothing in the queue then.
/// Otherwise it stops at the first that the compressor does not take.
pub proof fn law_flush<S: Suite, C, Z, W>(
    enc: &mut Encrypted<S>,
    limits: Limits,
    cipher: C,
    write_buffer: SSHBuffer,
    compress: Z,
    seal: W,
    res: Flushed<C>,
    payloads: Seq<Seq<u8>>,
    z: Compressing<S::Deflate>,
    w: Sealing<C>,
) where
    Z: Fn(Compress<S::Deflate>, CryptoVec, &[u8]) -> (
        Compress<S::Deflate>,
        CryptoVec,
        Result<CryptoVec, Error>,
    ),
    W: Fn(C, SSHBuffer, &[u8]) -> (C, SSHBuffer),

    requires
        call_ensures(
            Encrypted::<S>::flush::<C, Z, W>,
            (enc, &limits, cipher, write_buffer, compress, seal),
            res,
        ),
        compresses_by(compress, z),
        seals_by(seal, w),
        if old(enc).write_cursor <= cryptovec_bytes(old(enc).write).len() {
            holds_packets(
                cryptovec_bytes(old(enc).write).skip(old(enc).write_cursor as int),
                payloads,
            )
        } else {
            payloads.len() == 0
        },
        forall|i: int| 0 <= i < payloads.len() ==> (#[trigger] payloads[i]).len() < 0x1_0000_0000,
    ensures
        session_flushed(*old(enc), *final(enc)),
        ({
            let start = Line {
                compress: old(enc).compress,
                compress_buffer: old(enc).compress_buffer,
                cipher,
                write_buffer,
            };
            match res.rekey {
                Ok(_) => {
                    &&& takes_all(z, w, start, payloads)
                    &&& sent_all(z, w, start, payloads) == (Line {
                        compress: final(enc).compress,
                        compress_buffer: final(enc).compress_buffer,
                        cipher: res.cipher,
                        write_buffer: res.write_buffer,
                    })
                    &&& cryptovec_bytes(final(enc).write).len() == 0
                    &&& final(enc).write_cursor == 0
                },
                Err(error) => exists|k: int|
                    0 <= k < payloads.len() && takes_all(z, w, start, payloads.take(k))
                        && #[trigger] stopped_at(
                        *old(enc),
                        *final(enc),
                        z,
                        sent_all(z, w, start, payloads.take(k)),
                        payloads,
                        res,
                        error,
                        k,
                    ),
            }
        }),
{
    let (before, after) = (*old(enc), *final(enc));
    let start = Line {
        compress: before.compress,
        compress_buffer: before.compress_buffer,
        cipher,
        write_buffer,
    };
    let queue = cryptovec_bytes(before.write).skip(before.write_cursor as int);
    assert(before.unsent() == Some(payloads)) by {
        if before.write_cursor < cryptovec_bytes(before.write).len() {
            law_held_packets_are_found(queue, payloads);
        } else {
            assert(payloads.len() == 0);
            assert(payloads =~= Seq::<Seq<u8>>::empty());
        }
    }
    match res.rekey {
        Ok(_) => {
            let lines = choose|lines: Seq<Line<S::Deflate, C>>| #[trigger]
                transmitted(compress, seal, lines, payloads) && lines.first() == before.line(
                    cipher,
                    write_buffer,
                ) && lines.last() == after.line(res.cipher, res.write_buffer);
            lemma_transmitted(compress, seal, z, w, lines, payloads, payloads.len() as int);
            assert(payloads.take(payloads.len() as int) =~= payloads);
        },
        Err(error) => {
            let lines = choose|lines: Seq<Line<S::Deflate, C>>| #[trigger]
                interrupted(
                    compress,
                    seal,
                    lines,
                    payloads,
                    after.line(res.cipher, res.write_buffer),
                    error,
                ) && lines.first() == before.line(cipher, write_buffer) && after.unsent() == Some(
                    payloads.skip(lines.len() - 1),
                );
            let k = lines.len() - 1;
            let some = payloads.take(k);
            lemma_transmitted(compress, seal, z, w, lines, some, k);
            assert(some.take(k) =~= some);
            assert(payloads.skip(k)[0] == payloads[k]);
            assert(after.write_cursor < after.queue().len()) by {
                if after.write_cursor >= after.queue().len() {
                    assert(payloads.skip(k).len() == 0);
                }
            }
            law_found_packets_are_held(after.queue().skip(after.write_cursor as int));
            assert(rejects(
                compress,
                lines[k],
                payloads[k],
                after.line(res.cipher, res.write_buffer),
                error,
            ));
            assert(stopped_at(
                before,
                after,
                z,
                sent_all(z, w, start, payloads.take(k)),
                payloads,
                res,
                error,
                k,
            ));
        },
    }
}

/// After flushing, keys are due where as many bytes were written as the limit
/// says, or as much time passed from the last exchange to what the clock showed.
/// They are never due where the algorithm needs no exchange.
pub proof fn law_flush_tells_when_keys_are_due<S: Suite, C, Z, W>(
    enc: &mut Encrypted<S>,
    limits: Limits,
    cipher: C,
    write_buffer: SSHBuffer,
    compress: Z,
    seal: W,
    res: Flushed<C>,
) where
    Z: Fn(Compress<S::Deflate>, CryptoVec, &[u8]) -> (
        Compress<S::Deflate>,
        CryptoVec,
        Result<CryptoVec, Error>,
    ),
    W: Fn(C, SSHBuffer, &[u8]) -> (C, SSHBuffer),

    requires
        call_ensures(
            Encrypted::<S>::flush::<C, Z, W>,
            (enc, &limits, cipher, write_buffer, compress, seal),
            res,
        ),
    ensures
        res.rekey matches Ok(due) ==> if old(enc).kex.skip_exchange {
            !due
        } else {
            exists|now: Instant| #[trigger]
                clock_read(now) && due == (res.write_buffer.bytes >= limits.rekey_write_limit
                    || nanos_since(now, old(enc).last_rekey) >= limits.rekey_time_limit.nanos)
        },
{
}

/// Keys are due from the limits on, and not before.
pub proof fn law_rekey_due(limits: Limits, written: usize, elapsed: Duration, due: bool)
    requires
        call_ensures(Limits::rekey_due, (&limits, written, elapsed), due),
    ensures
        due <==> written >= limits.rekey_write_limit || elapsed.nanos
            >= limits.rekey_time_limit.nanos,
{
}

} // verus!
