use russh::buffer::push_packet;
use russh_cryptovec::CryptoVec;

#[test]
fn a_packet_is_its_length_and_its_payload() {
    let mut queue = CryptoVec::from_slice(&[7]);
    let payload = CryptoVec::from_slice(b"abc");
    push_packet(&mut queue, &payload);
    assert_eq!(&queue[..], &[7, 0, 0, 0, 3, b'a', b'b', b'c']);
}
