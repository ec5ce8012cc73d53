//! Byte buffers: what the library relies on of `CryptoVec` and of the SSH
//! encodings that are read from and written to byte buffers, and the write
//! buffer of a connection.
#[allow(unused_imports)]
use crate::be32::{be32, be32_value, group_be32, lemma_be32_mod};
use crate::wire::{frame, ssh_string};
use byteorder::{BigEndian, ByteOrder};
use russh_cryptovec::CryptoVec;
use russh_keys::encoding::{Encoding, Reader};
use vstd::prelude::*;

verus! {

broadcast use group_be32;

/// The buffer type of `russh_cryptovec`, which zeroes its memory when it is
/// cleared, reallocated or dropped. It is opaque: its contents are
/// `cryptovec_bytes`.
#[verifier::external_type_specification]
#[verifier::external_body]
pub struct ExCryptoVec(russh_cryptovec::CryptoVec);

/// The bytes that a `CryptoVec` holds.
pub uninterp spec fn cryptovec_bytes(v: CryptoVec) -> Seq<u8>;

/// A buffer of `len` bytes can grow by `extra` bytes. A `CryptoVec` rounds its
/// size up to a power of two, which an allocation of the machine must be able
/// to have.
pub open spec fn room(len: nat, extra: nat) -> bool {
    len + extra <= usize::MAX / 4
}

/// `CryptoVec::new`: the buffer is empty.
pub assume_specification[ CryptoVec::new ]() -> (v: CryptoVec)
    ensures
        cryptovec_bytes(v) == Seq::<u8>::empty(),
;

/// `CryptoVec::len`: the number of bytes held.
pub assume_specification[ CryptoVec::len ](v: &CryptoVec) -> (len: usize)
    ensures
        len == cryptovec_bytes(*v).len(),
;

/// `CryptoVec::clear`: nothing is held afterwards.
pub assume_specification[ CryptoVec::clear ](v: &mut CryptoVec)
    ensures
        cryptovec_bytes(*final(v)) == Seq::<u8>::empty(),
;

/// `CryptoVec::push`: one byte is appended.
pub assume_specification[ CryptoVec::push ](v: &mut CryptoVec, s: u8)
    requires
        room(cryptovec_bytes(*old(v)).len(), 1),
    ensures
        cryptovec_bytes(*final(v)) == cryptovec_bytes(*old(v)).push(s),
;

/// `CryptoVec::push_u32_be`: the four bytes of the integer are appended, most
/// significant first.
pub assume_specification[ CryptoVec::push_u32_be ](v: &mut CryptoVec, s: u32)
    requires
        room(cryptovec_bytes(*old(v)).len(), 4),
    ensures
        cryptovec_bytes(*final(v)) == cryptovec_bytes(*old(v)) + be32(s as int),
;

/// `CryptoVec::extend`: the slice is appended.
pub assume_specification[ CryptoVec::extend ](v: &mut CryptoVec, s: &[u8])
    requires
        room(cryptovec_bytes(*old(v)).len(), s@.len()),
    ensures
        cryptovec_bytes(*final(v)) == cryptovec_bytes(*old(v)) + s@,
;

/// `CryptoVec::from_slice`: the buffer holds a copy of the slice.
pub assume_specification[ CryptoVec::from_slice ](s: &[u8]) -> (v: CryptoVec)
    requires
        room(0, s@.len()),
    ensures
        cryptovec_bytes(v) == s@,
;

/// `CryptoVec::clone`: the copy holds the same bytes.
pub assume_specification[ <CryptoVec as Clone>::clone ](v: &CryptoVec) -> (copy: CryptoVec)
    ensures
        cryptovec_bytes(copy) == cryptovec_bytes(*v),
;

/// `CryptoVec::deref`: the bytes held, as a slice.
#[verifier::external_body]
pub(crate) fn as_slice(v: &CryptoVec) -> (s: &[u8])
    ensures
        s@ == cryptovec_bytes(*v),
{
    v
}

/// `Encoding::extend_ssh_string` of `russh_keys` on a `CryptoVec`: the length
/// of the string in four bytes and the string itself are appended. A length
/// that four bytes cannot hold is written modulo 2^32.
#[verifier::external_body]
pub(crate) fn extend_ssh_string(v: &mut CryptoVec, s: &[u8])
    requires
        room(cryptovec_bytes(*old(v)).len(), 4 + s@.len()),
    ensures
        cryptovec_bytes(*final(v)) == cryptovec_bytes(*old(v)) + ssh_string(s@),
{
    v.extend_ssh_string(s)
}

/// `BigEndian::read_u32` of `byteorder`: the number that the first four bytes
/// of the slice hold. It panics on fewer bytes.
#[verifier::external_body]
pub(crate) fn read_u32(s: &[u8]) -> (n: u32)
    requires
        s@.len() >= 4,
    ensures
        n == be32_value(s@),
{
    BigEndian::read_u32(s)
}

/// The string that `Position::read_string` finds at `position`, or `None`
/// where the slice ends before the four length bytes or before the string.
pub open spec fn string_at(s: Seq<u8>, position: int) -> Option<Seq<u8>> {
    if position + 4 > s.len() || position + 4 + be32_value(s.skip(position)) > s.len() {
        None
    } else {
        Some(s.subrange(position + 4, position + 4 + be32_value(s.skip(position))))
    }
}

/// Where `Position::read_string` leaves its cursor: behind the string, behind
/// the four length bytes where only the string is missing, or where it was.
pub open spec fn position_after(s: Seq<u8>, position: int) -> int {
    if position + 4 > s.len() {
        position
    } else if string_at(s, position) is None {
        position + 4
    } else {
        position + 4 + be32_value(s.skip(position))
    }
}

/// The sums that `Position::read_string` computes at `position` do not
/// overflow.
pub open spec fn readable_at(s: Seq<u8>, position: int) -> bool {
    &&& position + 4 <= usize::MAX
    &&& position + 4 <= s.len() ==> position + 4 + be32_value(s.skip(position)) <= usize::MAX
}

/// `Reader::reader` and `Position::read_string` of `russh_keys`: the string
/// found at `position`, and the position after reading it.
#[verifier::external_body]
pub(crate) fn read_string<'a>(s: &'a [u8], position: usize) -> (r: (Option<&'a [u8]>, usize))
    requires
        readable_at(s@, position as int),
    ensures
        match r.0 {
            Some(string) => string_at(s@, position as int) == Some(string@),
            None => string_at(s@, position as int) is None,
        },
        r.1 == position_after(s@, position as int),
{
    let mut reader = s.reader(position);
    let string = reader.read_string().ok();
    (string, reader.position)
}

/// Appends a packet with the given payload to a queue of packets.
pub fn push_packet(queue: &mut CryptoVec, payload: &CryptoVec)
    requires
        room(cryptovec_bytes(*old(queue)).len(), 4 + cryptovec_bytes(*payload).len()),
    ensures
        cryptovec_bytes(*final(queue)) == cryptovec_bytes(*old(queue)) + frame(
            cryptovec_bytes(*payload),
        ),
{
    let len: u64 = payload.len() as u64 % 0x1_0000_0000;
    proof {
        lemma_be32_mod(cryptovec_bytes(*payload).len() as int);
    }
    queue.push_u32_be(len as u32);
    queue.extend(as_slice(payload));
    assert(cryptovec_bytes(*queue) =~= cryptovec_bytes(*old(queue)) + frame(
        cryptovec_bytes(*payload),
    ));
}

/// A buffer of outgoing bytes, with how many bytes of payload went through it
/// and the sequence number of the next packet.
#[derive(Debug)]
pub struct SSHBuffer {
    pub buffer: CryptoVec,
    pub len: usize,
    pub bytes: usize,
    pub seqn: u32,
}

impl SSHBuffer {
    /// A buffer through which nothing went yet.
    pub fn new() -> (b: SSHBuffer)
        ensures
            cryptovec_bytes(b.buffer) == Seq::<u8>::empty(),
            b.len == 0,
            b.bytes == 0,
            b.seqn == 0,
    {
        SSHBuffer { buffer: CryptoVec::new(), len: 0, bytes: 0, seqn: 0 }
    }

    /// Appends the line with which a side identifies itself.
    pub fn send_ssh_id(&mut self, id: &[u8])
        requires
            room(cryptovec_bytes(old(self).buffer).len(), id@.len() + 2),
        ensures
            cryptovec_bytes(final(self).buffer) == cryptovec_bytes(old(self).buffer) + id@ + seq![
                13u8,
                10u8,
            ],
            final(self).len == old(self).len,
            final(self).bytes == old(self).bytes,
            final(self).seqn == old(self).seqn,
    {
        self.buffer.extend(id);
        self.buffer.push(13);
        self.buffer.push(10);
        assert(cryptovec_bytes(self.buffer) =~= cryptovec_bytes(old(self).buffer) + id@ + seq![
            13u8,
            10u8,
        ]);
    }
}

} // verus!
