use russh::algorithm::{Compress, Compression, Decompress, KexAlgorithm, MacName};
use russh::buffer::{push_packet, SSHBuffer};
use russh::encrypted::{Encrypted, EncryptedState};
use russh::error::Error;
use russh::limits::Limits;
use russh::suite::Suite;
use russh::time::Duration;
use russh_cryptovec::CryptoVec;
use std::collections::HashMap;
use std::time::Instant;

struct Plain;

impl Suite for Plain {
    type Kex = &'static str;
    type Ciphers = u32;
    type AuthRequest = ();
    type AuthMethod = ();
    type Deflate = u32;
    type Inflate = ();
}

fn session() -> Encrypted<Plain> {
    Encrypted {
        state: EncryptedState::Authenticated,
        exchange: None,
        kex: KexAlgorithm { skip_exchange: false, algorithm: "curve" },
        key: 0,
        client_mac: MacName("hmac-client"),
        server_mac: MacName("hmac-server"),
        session_id: CryptoVec::from_slice(b"id"),
        rekey: None,
        channels: HashMap::new(),
        last_channel_id: 1,
        write: CryptoVec::new(),
        write_cursor: 0,
        last_rekey: Instant::now(),
        server_compression: Compression::Off,
        client_compression: Compression::Off,
        compress: Compress::Off,
        decompress: Decompress::Off,
        compress_buffer: CryptoVec::new(),
        is_cloud: false,
    }
}

fn far_limits() -> Limits {
    Limits {
        rekey_write_limit: 1000,
        rekey_read_limit: 1000,
        rekey_time_limit: Duration::from_secs(3600),
    }
}

fn queue(enc: &mut Encrypted<Plain>, payload: &[u8]) {
    push_packet(&mut enc.write, &CryptoVec::from_slice(payload));
}

/// Reverses a packet, and refuses one that is empty. Counts the packets.
fn reverse(
    compress: Compress<u32>,
    _buffer: CryptoVec,
    packet: &[u8],
) -> (Compress<u32>, CryptoVec, Result<CryptoVec, Error>) {
    let compress = match compress {
        Compress::Off => Compress::Zlib(1),
        Compress::Zlib(n) => Compress::Zlib(n + 1),
    };
    let buffer = CryptoVec::from_slice(packet);
    if packet.is_empty() {
        return (compress, buffer, Err(Error::Compress));
    }
    let reversed: Vec<u8> = packet.iter().rev().cloned().collect();
    (compress, buffer, Ok(CryptoVec::from_slice(&reversed)))
}

/// Adds the number of the packet to each of its bytes.
fn seal(cipher: u32, mut buffer: SSHBuffer, packet: &[u8]) -> (u32, SSHBuffer) {
    for byte in packet {
        buffer.buffer.push(byte + cipher as u8);
    }
    buffer.bytes += packet.len();
    (cipher + 1, buffer)
}

#[test]
fn packets_are_sent_in_order() {
    let mut enc = session();
    queue(&mut enc, &[10, 20, 30]);
    queue(&mut enc, &[40]);
    let flushed = enc.flush(&far_limits(), 1, SSHBuffer::new(), reverse, seal);
    assert_eq!(flushed.rekey, Ok(false));
    assert_eq!(&flushed.write_buffer.buffer[..], &[31, 21, 11, 42]);
    assert_eq!(flushed.write_buffer.bytes, 4);
    assert_eq!(flushed.cipher, 3);
    assert!(matches!(enc.compress, Compress::Zlib(2)));
    assert_eq!(&enc.compress_buffer[..], &[40]);
    assert_eq!(enc.write.len(), 0);
    assert_eq!(enc.write_cursor, 0);
}

#[test]
fn flushing_again_sends_nothing() {
    let mut enc = session();
    queue(&mut enc, &[10]);
    let first = enc.flush(&far_limits(), 1, SSHBuffer::new(), reverse, seal);
    let again = enc.flush(&far_limits(), first.cipher, first.write_buffer, reverse, seal);
    assert_eq!(again.rekey, Ok(false));
    assert_eq!(&again.write_buffer.buffer[..], &[11]);
    assert_eq!(again.cipher, 2);
    assert!(matches!(enc.compress, Compress::Zlib(1)));
}

#[test]
fn flushing_in_between_does_not_matter() {
    let mut once = session();
    let mut twice = session();
    queue(&mut once, &[1, 2]);
    queue(&mut once, &[3]);
    queue(&mut twice, &[1, 2]);
    let all = once.flush(&far_limits(), 5, SSHBuffer::new(), reverse, seal);
    let some = twice.flush(&far_limits(), 5, SSHBuffer::new(), reverse, seal);
    queue(&mut twice, &[3]);
    let rest = twice.flush(&far_limits(), some.cipher, some.write_buffer, reverse, seal);
    assert_eq!(&all.write_buffer.buffer[..], &rest.write_buffer.buffer[..]);
    assert_eq!(all.cipher, rest.cipher);
}

#[test]
fn a_packet_that_cannot_be_compressed_stays() {
    let mut enc = session();
    queue(&mut enc, &[10]);
    queue(&mut enc, &[]);
    queue(&mut enc, &[20]);
    let flushed = enc.flush(&far_limits(), 1, SSHBuffer::new(), reverse, seal);
    assert_eq!(flushed.rekey, Err(Error::Compress));
    assert_eq!(&flushed.write_buffer.buffer[..], &[11]);
    assert_eq!(flushed.cipher, 2);
    assert!(matches!(enc.compress, Compress::Zlib(2)));
    assert_eq!(enc.write_cursor, 5);
    assert_eq!(enc.write.len(), 14);
    // It is tried again first, and nothing is sent twice.
    let again = enc.flush(&far_limits(), flushed.cipher, flushed.write_buffer, reverse, seal);
    assert_eq!(again.rekey, Err(Error::Compress));
    assert_eq!(&again.write_buffer.buffer[..], &[11]);
    assert_eq!(enc.write_cursor, 5);
}

#[test]
fn packets_behind_the_cursor_are_not_sent_again() {
    let mut enc = session();
    queue(&mut enc, &[10]);
    queue(&mut enc, &[20]);
    enc.write_cursor = 5;
    let flushed = enc.flush(&far_limits(), 0, SSHBuffer::new(), reverse, seal);
    assert_eq!(&flushed.write_buffer.buffer[..], &[20]);
    assert_eq!(enc.write_cursor, 0);
}

#[test]
fn keys_are_due_after_the_write_limit() {
    let mut enc = session();
    let mut limits = far_limits();
    limits.rekey_write_limit = 3;
    queue(&mut enc, &[1, 2]);
    let flushed = enc.flush(&limits, 0, SSHBuffer::new(), reverse, seal);
    assert_eq!(flushed.rekey, Ok(false));
    queue(&mut enc, &[3]);
    let flushed = enc.flush(&limits, 0, flushed.write_buffer, reverse, seal);
    assert_eq!(flushed.rekey, Ok(true));
}

#[test]
fn keys_are_due_after_the_time_limit() {
    let mut enc = session();
    let mut limits = far_limits();
    limits.rekey_time_limit = Duration::from_secs(0);
    let flushed = enc.flush(&limits, 0, SSHBuffer::new(), reverse, seal);
    assert_eq!(flushed.rekey, Ok(true));
    // An hour has not passed, but a millisecond has.
    limits.rekey_time_limit = Duration { nanos: 1_000_000 };
    while enc.last_rekey.elapsed() < std::time::Duration::from_millis(5) {}
    let flushed = enc.flush(&limits, 0, SSHBuffer::new(), reverse, seal);
    assert_eq!(flushed.rekey, Ok(true));
    let flushed = enc.flush(&far_limits(), 0, SSHBuffer::new(), reverse, seal);
    assert_eq!(flushed.rekey, Ok(false));
}

#[test]
fn keys_are_never_due_without_an_exchange() {
    let mut enc = session();
    enc.kex.skip_exchange = true;
    let limits = Limits {
        rekey_write_limit: 0,
        rekey_read_limit: 0,
        rekey_time_limit: Duration::from_secs(0),
    };
    queue(&mut enc, &[1]);
    let flushed = enc.flush(&limits, 0, SSHBuffer::new(), reverse, seal);
    assert_eq!(flushed.rekey, Ok(false));
    assert_eq!(&flushed.write_buffer.buffer[..], &[1]);
}

#[test]
fn limits_hold_from_their_value_on() {
    let limits = far_limits();
    assert!(!limits.rekey_due(999, Duration::from_secs(3599)));
    assert!(limits.rekey_due(1000, Duration::from_secs(0)));
    assert!(limits.rekey_due(0, Duration::from_secs(3600)));
    let default = Limits::default();
    assert_eq!(default.rekey_write_limit, 1 << 30);
    assert_eq!(default.rekey_read_limit, 1 << 30);
    assert_eq!(default.rekey_time_limit, Duration::from_secs(3600));
    assert_eq!(Duration::from_secs(3600).nanos, 3_600_000_000_000);
}
