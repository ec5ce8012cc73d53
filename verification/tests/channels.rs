use russh::algorithm::{Compress, Compression, Decompress, KexAlgorithm, MacName};
use russh::channel::{ChannelId, ChannelParams};
use russh::encrypted::{Encrypted, EncryptedState};
use russh::kex::{Exchange, Kex, KexInit};
use russh::suite::Suite;
use russh_cryptovec::CryptoVec;
use std::collections::{HashMap, VecDeque};
use std::time::Instant;

struct Plain;

impl Suite for Plain {
    type Kex = &'static str;
    type Ciphers = u32;
    type AuthRequest = ();
    type AuthMethod = ();
    type Deflate = u32;
    type Inflate = ();
}

fn session() -> Encrypted<Plain> {
    Encrypted {
        state: EncryptedState::Authenticated,
        exchange: None,
        kex: KexAlgorithm { skip_exchange: false, algorithm: "curve" },
        key: 0,
        client_mac: MacName("hmac-client"),
        server_mac: MacName("hmac-server"),
        session_id: CryptoVec::from_slice(b"id"),
        rekey: None,
        channels: HashMap::new(),
        last_channel_id: 1,
        write: CryptoVec::new(),
        write_cursor: 0,
        last_rekey: Instant::now(),
        server_compression: Compression::Off,
        client_compression: Compression::Off,
        compress: Compress::Off,
        decompress: Decompress::Off,
        compress_buffer: CryptoVec::new(),
        is_cloud: false,
    }
}

fn channel(window: u32, max: u32) -> ChannelParams {
    ChannelParams {
        recipient_channel: 7,
        sender_channel: ChannelId(5),
        recipient_window_size: window,
        sender_window_size: 100,
        recipient_maximum_packet_size: max,
        sender_maximum_packet_size: 50,
        confirmed: true,
        wants_reply: false,
        pending_data: VecDeque::new(),
    }
}

/// A session with one channel, number 5 here and 7 on the other side.
fn with_channel(window: u32, max: u32) -> Encrypted<Plain> {
    let mut enc = session();
    enc.channels.insert(5, channel(window, max));
    enc
}

fn bytes(data: &[u8]) -> CryptoVec {
    CryptoVec::from_slice(data)
}

/// The packet that carries `data` to channel 7, with its length in front.
fn data_packet(data: &[u8]) -> Vec<u8> {
    let mut packet = vec![0, 0, 0, 9 + data.len() as u8, 94, 0, 0, 0, 7, 0, 0, 0, data.len() as u8];
    packet.extend_from_slice(data);
    packet
}

fn extended_packet(code: u8, data: &[u8]) -> Vec<u8> {
    let len = data.len() as u8;
    let mut packet = vec![0, 0, 0, 13 + len, 95, 0, 0, 0, 7, 0, 0, 0, code, 0, 0, 0, len];
    packet.extend_from_slice(data);
    packet
}

const CHANNEL: ChannelId = ChannelId(5);
const UNKNOWN: ChannelId = ChannelId(6);

#[test]
fn data_that_fits_goes_into_one_packet() {
    let mut enc = with_channel(10, 20);
    enc.data(CHANNEL, bytes(b"hello"));
    assert_eq!(&enc.write[..], &data_packet(b"hello")[..]);
    assert_eq!(enc.channels[&5].recipient_window_size, 5);
    assert!(!enc.has_pending_data(CHANNEL));
}

#[test]
fn data_is_divided_into_packets() {
    let mut enc = with_channel(100, 2);
    enc.data(CHANNEL, bytes(b"hello"));
    let mut expected = data_packet(b"he");
    expected.extend(data_packet(b"ll"));
    expected.extend(data_packet(b"o"));
    assert_eq!(&enc.write[..], &expected[..]);
    assert_eq!(enc.channels[&5].recipient_window_size, 95);
}

#[test]
fn data_is_divided_at_whole_packets() {
    let mut enc = with_channel(100, 3);
    enc.data(CHANNEL, bytes(b"abcdef"));
    let mut expected = data_packet(b"abc");
    expected.extend(data_packet(b"def"));
    assert_eq!(&enc.write[..], &expected[..]);
}

#[test]
fn data_beyond_the_window_waits() {
    let mut enc = with_channel(3, 20);
    enc.data(CHANNEL, bytes(b"hello"));
    assert_eq!(&enc.write[..], &data_packet(b"hel")[..]);
    assert_eq!(enc.channels[&5].recipient_window_size, 0);
    assert!(enc.has_pending_data(CHANNEL));
    let (buf, ext, from) = &enc.channels[&5].pending_data[0];
    assert_eq!(&buf[..], b"hello");
    assert_eq!(*ext, None);
    assert_eq!(*from, 3);
}

#[test]
fn data_for_a_full_window_waits_whole() {
    let mut enc = with_channel(0, 20);
    enc.data(CHANNEL, bytes(b"hello"));
    assert_eq!(enc.write.len(), 0);
    assert_eq!(enc.channels[&5].pending_data[0].2, 0);
}

#[test]
fn data_does_not_overtake_what_waits() {
    let mut enc = with_channel(3, 20);
    enc.data(CHANNEL, bytes(b"hello"));
    if let Some(params) = enc.channels.get_mut(&5) {
        params.recipient_window_size = 100;
    }
    enc.data(CHANNEL, bytes(b"world"));
    assert_eq!(&enc.write[..], &data_packet(b"hel")[..]);
    assert_eq!(enc.channels[&5].pending_data.len(), 2);
    assert_eq!(enc.flush_pending(CHANNEL), 7);
    let mut expected = data_packet(b"hel");
    expected.extend(data_packet(b"lo"));
    expected.extend(data_packet(b"world"));
    assert_eq!(&enc.write[..], &expected[..]);
    assert_eq!(enc.channels[&5].recipient_window_size, 93);
    assert!(!enc.has_pending_data(CHANNEL));
}

#[test]
fn data_waits_while_keys_are_exchanged() {
    let mut enc = with_channel(100, 20);
    enc.rekey = Some(Kex::Init(KexInit::initiate_rekey(
        Exchange::new(),
        &CryptoVec::from_slice(b"id"),
    )));
    enc.data(CHANNEL, bytes(b"hello"));
    assert_eq!(enc.write.len(), 0);
    assert!(enc.has_pending_data(CHANNEL));
    assert_eq!(enc.channels[&5].recipient_window_size, 100);
}

#[test]
fn empty_data_is_neither_sent_nor_kept() {
    let mut enc = with_channel(100, 0);
    enc.data(CHANNEL, bytes(b""));
    assert_eq!(enc.write.len(), 0);
    assert!(!enc.has_pending_data(CHANNEL));
}

#[test]
fn data_for_an_unknown_channel_is_dropped() {
    let mut enc = with_channel(100, 20);
    enc.data(UNKNOWN, bytes(b"hello"));
    enc.extended_data(UNKNOWN, 1, bytes(b"hello"));
    enc.eof(UNKNOWN);
    assert_eq!(enc.flush_pending(UNKNOWN), 0);
    assert!(!enc.adjust_window_size(UNKNOWN, b"hello", 1000));
    assert_eq!(enc.write.len(), 0);
    assert_eq!(enc.channels.len(), 1);
    assert!(!enc.has_pending_data(UNKNOWN));
    assert_eq!(enc.sender_window_size(UNKNOWN), 0);
}

#[test]
fn extended_data_carries_its_code() {
    let mut enc = with_channel(4, 3);
    enc.extended_data(CHANNEL, 1, bytes(b"hello"));
    let mut expected = extended_packet(1, b"hel");
    expected.extend(extended_packet(1, b"l"));
    assert_eq!(&enc.write[..], &expected[..]);
    assert_eq!(enc.channels[&5].recipient_window_size, 0);
    let (buf, ext, from) = &enc.channels[&5].pending_data[0];
    assert_eq!(&buf[..], b"hello");
    assert_eq!(*ext, Some(1));
    assert_eq!(*from, 4);
}

#[test]
fn extended_data_does_not_overtake_what_waits() {
    let mut enc = with_channel(0, 20);
    enc.data(CHANNEL, bytes(b"a"));
    if let Some(params) = enc.channels.get_mut(&5) {
        params.recipient_window_size = 100;
    }
    enc.extended_data(CHANNEL, 2, bytes(b"b"));
    assert_eq!(enc.write.len(), 0);
    assert_eq!(enc.channels[&5].pending_data[1].1, Some(2));
    assert_eq!(enc.channels[&5].pending_data[1].2, 0);
}

#[test]
fn extended_data_is_sent_while_keys_are_exchanged() {
    let mut enc = with_channel(100, 20);
    enc.rekey = Some(Kex::Init(KexInit::initiate_rekey(
        Exchange::new(),
        &CryptoVec::from_slice(b"id"),
    )));
    enc.extended_data(CHANNEL, 1, bytes(b"e"));
    assert_eq!(&enc.write[..], &extended_packet(1, b"e")[..]);
}

#[test]
fn waiting_extended_data_is_sent_as_data() {
    let mut enc = with_channel(0, 20);
    enc.extended_data(CHANNEL, 1, bytes(b"err"));
    if let Some(params) = enc.channels.get_mut(&5) {
        params.recipient_window_size = 100;
    }
    assert_eq!(enc.flush_pending(CHANNEL), 3);
    assert_eq!(&enc.write[..], &data_packet(b"err")[..]);
}

#[test]
fn flushing_stops_at_the_window() {
    let mut enc = with_channel(0, 4);
    enc.data(CHANNEL, bytes(b"abcdef"));
    enc.data(CHANNEL, bytes(b"ghi"));
    if let Some(params) = enc.channels.get_mut(&5) {
        params.recipient_window_size = 7;
    }
    assert_eq!(enc.flush_pending(CHANNEL), 7);
    let mut expected = data_packet(b"abcd");
    expected.extend(data_packet(b"ef"));
    expected.extend(data_packet(b"g"));
    assert_eq!(&enc.write[..], &expected[..]);
    assert_eq!(enc.channels[&5].pending_data.len(), 1);
    assert_eq!(enc.channels[&5].pending_data[0].2, 1);
    // The window is full: flushing again sends nothing.
    assert_eq!(enc.flush_pending(CHANNEL), 0);
    assert_eq!(&enc.write[..], &expected[..]);
    assert_eq!(enc.channels[&5].pending_data[0].2, 1);
}

#[test]
fn flushing_all_channels_keeps_their_packets_together() {
    let mut enc = with_channel(0, 2);
    let mut other = channel(0, 2);
    other.recipient_channel = 9;
    enc.channels.insert(6, other);
    enc.data(CHANNEL, bytes(b"abc"));
    enc.data(ChannelId(6), bytes(b"xyz"));
    for params in enc.channels.values_mut() {
        params.recipient_window_size = 100;
    }
    enc.flush_all_pending();
    let mut first = data_packet(b"ab");
    first.extend(data_packet(b"c"));
    let mut second = data_packet(b"xy");
    second.extend(data_packet(b"z"));
    // The channel follows the length and the message number.
    second[8] = 9;
    second[15 + 8] = 9;
    let forth = [&first[..], &second[..]].concat();
    let back = [&second[..], &first[..]].concat();
    assert!(enc.write[..] == forth[..] || enc.write[..] == back[..]);
    assert!(!enc.has_pending_data(CHANNEL));
    assert!(!enc.has_pending_data(ChannelId(6)));
    assert_eq!(enc.channels[&5].recipient_window_size, 97);
    assert_eq!(enc.channels[&6].recipient_window_size, 97);
}

#[test]
fn a_message_is_its_number_and_the_channel() {
    let mut enc = with_channel(0, 0);
    enc.byte(CHANNEL, 97);
    enc.eof(CHANNEL);
    assert_eq!(
        &enc.write[..],
        &[0, 0, 0, 5, 97, 0, 0, 0, 7, 0, 0, 0, 5, 96, 0, 0, 0, 7]
    );
}

#[test]
fn incoming_data_is_taken_off_the_window() {
    let mut enc = with_channel(0, 0);
    assert!(!enc.adjust_window_size(CHANNEL, &[0; 40], 120));
    assert_eq!(enc.sender_window_size(CHANNEL), 60);
    assert_eq!(enc.write.len(), 0);
}

#[test]
fn a_window_below_half_of_its_target_is_opened_again() {
    let mut enc = with_channel(0, 0);
    assert!(enc.adjust_window_size(CHANNEL, &[0; 41], 120));
    assert_eq!(enc.sender_window_size(CHANNEL), 120);
    // 120 - 59 bytes more may come.
    assert_eq!(&enc.write[..], &[0, 0, 0, 9, 93, 0, 0, 0, 7, 0, 0, 0, 61]);
}

#[test]
fn data_beyond_the_window_is_not_counted() {
    let mut enc = with_channel(0, 0);
    assert!(!enc.adjust_window_size(CHANNEL, &[0; 101], 200));
    assert_eq!(enc.sender_window_size(CHANNEL), 100);
    assert!(enc.adjust_window_size(CHANNEL, &[0; 101], 202));
    assert_eq!(enc.sender_window_size(CHANNEL), 202);
    assert_eq!(&enc.write[9..13], &[0, 0, 0, 102]);
}

#[test]
fn new_channels_take_the_next_free_number() {
    let mut enc = session();
    enc.channels.insert(3, channel(0, 0));
    assert_eq!(enc.new_channel(2000, 300), ChannelId(2));
    assert_eq!(enc.new_channel(2000, 300), ChannelId(4));
    assert_eq!(enc.last_channel_id, 4);
    assert_eq!(enc.channels.len(), 3);
    let params = &enc.channels[&4];
    assert_eq!(params.recipient_channel, 0);
    assert_eq!(params.sender_channel, ChannelId(4));
    assert_eq!(params.sender_window_size, 2000);
    assert_eq!(params.recipient_window_size, 0);
    assert_eq!(params.sender_maximum_packet_size, 300);
    assert_eq!(params.recipient_maximum_packet_size, 0);
    assert!(!params.confirmed);
    assert!(!params.wants_reply);
    assert!(params.pending_data.is_empty());
}

#[test]
fn channel_numbers_start_over_at_zero() {
    let mut enc = session();
    enc.last_channel_id = u32::MAX - 1;
    enc.channels.insert(u32::MAX, channel(0, 0));
    enc.channels.insert(0, channel(0, 0));
    assert_eq!(enc.new_channel_id(), ChannelId(1));
    assert_eq!(enc.new_channel_id(), ChannelId(2));
    assert_eq!(enc.channels.len(), 2);
}

#[test]
fn the_stream_of_a_channel_is_kept() {
    // Whatever the window and the packet size, what is sent and what waits is
    // what was written, in order.
    let data: Vec<u8> = (0..20).collect();
    for window in 0..25u32 {
        for max in 1..8u32 {
            let mut enc = with_channel(window, max);
            enc.data(CHANNEL, bytes(&data[..9]));
            enc.data(CHANNEL, bytes(&data[9..]));
            let mut stream = Vec::new();
            let mut at = 0;
            while at < enc.write.len() {
                let len = enc.write[at + 3] as usize;
                assert!(len - 9 <= max as usize);
                stream.extend_from_slice(&enc.write[at + 13..at + 4 + len]);
                at += 4 + len;
            }
            assert_eq!(stream.len(), std::cmp::min(window as usize, 20));
            for (buf, _, from) in enc.channels[&5].pending_data.iter() {
                stream.extend_from_slice(&buf[*from..]);
            }
            assert_eq!(stream, data);
        }
    }
}
