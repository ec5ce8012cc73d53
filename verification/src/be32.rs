//! Big-endian 32-bit integers as sequences of bytes.
use vstd::prelude::*;

verus! {

/// One more than the largest value of a 32-bit unsigned integer.
pub open spec fn two32() -> int {
    0x1_0000_0000
}

/// The four bytes of `n` modulo 2^32, most significant first.
#[verifier::opaque]
pub open spec fn be32(n: int) -> Seq<u8> {
    let r = n % two32();
    seq![
        (r / 0x100_0000) as u8,
        ((r / 0x1_0000) % 0x100) as u8,
        ((r / 0x100) % 0x100) as u8,
        (r % 0x100) as u8,
    ]
}

/// The number whose most significant byte first representation is the first
/// four bytes of `s`.
#[verifier::opaque]
pub open spec fn be32_value(s: Seq<u8>) -> int {
    s[0] * 0x100_0000 + s[1] * 0x1_0000 + s[2] * 0x100 + s[3]
}

/// A number takes four bytes.
pub broadcast proof fn lemma_be32_len(n: int)
    ensures
        #[trigger] be32(n).len() == 4,
{
    reveal(be32);
}

/// Four bytes hold a number of 32 bits.
pub broadcast proof fn lemma_be32_value_range(s: Seq<u8>)
    ensures
        0 <= #[trigger] be32_value(s) < two32(),
{
    reveal(be32_value);
}

/// Reducing a number modulo 2^32 does not change its four bytes.
pub proof fn lemma_be32_mod(n: int)
    requires
        n >= 0,
    ensures
        be32(n % two32()) == be32(n),
{
    reveal(be32);
}

/// Writing a number in four bytes and reading it back gives the number modulo
/// 2^32.
pub proof fn law_be32_value_of_be32(n: int, tail: Seq<u8>)
    requires
        n >= 0,
    ensures
        be32_value(be32(n) + tail) == n % two32(),
{
    reveal(be32);
    reveal(be32_value);
    let s = be32(n) + tail;
    assert(s[0] == be32(n)[0]);
    assert(s[1] == be32(n)[1]);
    assert(s[2] == be32(n)[2]);
    assert(s[3] == be32(n)[3]);
    let r = n % two32();
    assert(r / 0x100 == (r / 0x1_0000) * 0x100 + (r / 0x100) % 0x100);
    assert(r / 0x1_0000 == (r / 0x100_0000) * 0x100 + (r / 0x1_0000) % 0x100);
}

/// Four bytes hold a number below 2^32, and that number has these bytes.
pub proof fn law_be32_of_be32_value(s: Seq<u8>)
    requires
        s.len() >= 4,
    ensures
        0 <= be32_value(s) < two32(),
        be32(be32_value(s)) == s.take(4),
{
    reveal(be32);
    reveal(be32_value);
    let (a, b, c, d) = (s[0] as int, s[1] as int, s[2] as int, s[3] as int);
    let v = be32_value(s);
    assert(v / 0x100_0000 == a);
    assert(v / 0x1_0000 == a * 0x100 + b);
    assert(v / 0x100 == a * 0x1_0000 + b * 0x100 + c);
    assert((v / 0x1_0000) % 0x100 == b);
    assert((v / 0x100) % 0x100 == c);
    assert(v % 0x100 == d);
    assert(be32(v) =~= s.take(4));
}

pub broadcast group group_be32 {
    lemma_be32_len,
    lemma_be32_value_range,
}

} // verus!
