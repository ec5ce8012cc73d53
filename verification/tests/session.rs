use russh::algorithm::{
    CipherName, Compress, Compression, Decompress, KexAlgorithm, MacName, Names,
};
use russh::buffer::SSHBuffer;
use russh::channel::ChannelId;
use russh::encrypted::EncryptedState;
use russh::kex::{Exchange, Kex, NewKeys};
use russh::session::{CommonSession, Disconnect};
use russh::suite::Suite;
use russh_cryptovec::CryptoVec;

struct Plain;

impl Suite for Plain {
    type Kex = &'static str;
    type Ciphers = u32;
    type AuthRequest = ();
    type AuthMethod = ();
    type Deflate = u32;
    type Inflate = ();
}

fn names() -> Names {
    Names {
        cipher: CipherName("aes256-ctr"),
        client_mac: MacName("hmac-client"),
        server_mac: MacName("hmac-server"),
        server_compression: Compression::Zlib,
        client_compression: Compression::Off,
    }
}

fn newkeys() -> NewKeys<Plain> {
    NewKeys {
        exchange: Exchange {
            client_id: CryptoVec::from_slice(b"client"),
            ..Exchange::new()
        },
        names: names(),
        kex: KexAlgorithm { skip_exchange: false, algorithm: "curve" },
        key: 3,
        cipher: 77,
        session_id: CryptoVec::from_slice(b"id"),
        received: false,
        sent: true,
    }
}

fn plain_session(kex: Option<Kex<Plain>>) -> CommonSession<&'static str, Plain> {
    CommonSession {
        auth_user: String::new(),
        config: "config",
        encrypted: None,
        auth_method: None,
        write_buffer: SSHBuffer::new(),
        kex,
        cipher: 1,
        wants_reply: false,
        disconnected: false,
        buffer: CryptoVec::new(),
        is_cloud: true,
    }
}

const START: EncryptedState<Plain> = EncryptedState::WaitingAuthServiceRequest {
    sent: false,
    accepted: false,
};

#[test]
fn an_encrypted_session_begins_empty() {
    let mut session = plain_session(None);
    session.encrypted(START, newkeys());
    assert_eq!(session.cipher, 77);
    let enc = match session.encrypted {
        Some(enc) => enc,
        None => panic!("not encrypted"),
    };
    assert!(matches!(
        enc.state,
        EncryptedState::WaitingAuthServiceRequest { sent: false, accepted: false }
    ));
    assert_eq!(enc.exchange.map(|e| e.client_id.len()), Some(6));
    assert_eq!(enc.kex.algorithm, "curve");
    assert_eq!(enc.key, 3);
    assert_eq!(enc.client_mac.0, "hmac-client");
    assert_eq!(enc.server_mac.0, "hmac-server");
    assert_eq!(&enc.session_id[..], b"id");
    assert!(enc.rekey.is_none());
    assert!(enc.channels.is_empty());
    assert_eq!(enc.last_channel_id, 1);
    assert_eq!(enc.write.len(), 0);
    assert_eq!(enc.write_cursor, 0);
    assert_eq!(enc.server_compression, Compression::Zlib);
    assert_eq!(enc.client_compression, Compression::Off);
    assert!(matches!(enc.compress, Compress::Off));
    assert!(matches!(enc.decompress, Decompress::Off));
    assert_eq!(enc.compress_buffer.len(), 0);
    assert!(enc.is_cloud);
    assert!(enc.last_rekey.elapsed() < std::time::Duration::from_secs(10));
}

#[test]
fn new_keys_replace_those_of_an_encrypted_session() {
    let mut session = plain_session(None);
    session.encrypted(START, newkeys());
    let mut keys = newkeys();
    keys.cipher = 78;
    keys.key = 4;
    keys.kex.algorithm = "group";
    keys.names.client_mac = MacName("other");
    keys.names.client_compression = Compression::Zlib;
    keys.session_id = CryptoVec::from_slice(b"another");
    keys.exchange.client_id.clear();
    session.newkeys(keys);
    assert_eq!(session.cipher, 78);
    let enc = match session.encrypted {
        Some(enc) => enc,
        None => panic!("not encrypted"),
    };
    assert_eq!(enc.exchange.map(|e| e.client_id.len()), Some(0));
    assert_eq!(enc.kex.algorithm, "group");
    assert_eq!(enc.key, 4);
    assert_eq!(enc.client_mac.0, "other");
    assert_eq!(enc.server_mac.0, "hmac-server");
    // These belong to the session.
    assert_eq!(&enc.session_id[..], b"id");
    assert_eq!(enc.client_compression, Compression::Off);
}

#[test]
fn new_keys_are_ignored_before_the_first_exchange() {
    let mut session = plain_session(None);
    session.newkeys(newkeys());
    assert_eq!(session.cipher, 1);
    assert!(session.encrypted.is_none());
}

const GOODBYE: [u8; 22] = [
    0, 0, 0, 18, 1, 0, 0, 0, 11, 0, 0, 0, 3, b'b', b'y', b'e', 0, 0, 0, 2, b'e', b'n',
];

#[test]
fn only_the_first_disconnect_is_sent() {
    let mut session = plain_session(None);
    session.disconnect(Disconnect::ByApplication, "bye", "en");
    assert!(session.disconnected);
    assert_eq!(&session.write_buffer.buffer[..], &GOODBYE);
    session.disconnect(Disconnect::ProtocolError, "again", "");
    assert!(session.disconnected);
    assert_eq!(&session.write_buffer.buffer[..], &GOODBYE);
}

#[test]
fn an_encrypted_session_queues_its_disconnect() {
    let mut session = plain_session(None);
    session.encrypted(START, newkeys());
    if let Some(enc) = &mut session.encrypted {
        enc.write.push_u32_be(0);
    }
    session.disconnect(Disconnect::ByApplication, "bye", "en");
    assert_eq!(session.write_buffer.buffer.len(), 0);
    match &session.encrypted {
        Some(enc) => {
            assert_eq!(&enc.write[..4], &[0; 4]);
            assert_eq!(&enc.write[4..], &GOODBYE);
        }
        None => panic!("not encrypted"),
    }
}

#[test]
fn reasons_have_their_numbers() {
    let reasons = [
        Disconnect::HostNotAllowedToConnect,
        Disconnect::ProtocolError,
        Disconnect::KeyExchangeFailed,
        Disconnect::Reserved,
        Disconnect::MACError,
        Disconnect::CompressionError,
        Disconnect::ServiceNotAvailable,
        Disconnect::ProtocolVersionNotSupported,
        Disconnect::HostKeyNotVerifiable,
        Disconnect::ConnectionLost,
        Disconnect::ByApplication,
        Disconnect::TooManyConnections,
        Disconnect::AuthCancelledByUser,
        Disconnect::NoMoreAuthMethodsAvailable,
        Disconnect::IllegalUserName,
    ];
    for (i, reason) in reasons.iter().enumerate() {
        assert_eq!(reason.code(), i as u32 + 1);
    }
}

#[test]
fn messages_need_an_encrypted_session() {
    let mut session = plain_session(None);
    session.byte(ChannelId(2), 97);
    session.window_adjusted(ChannelId(2));
    assert_eq!(session.write_buffer.buffer.len(), 0);
    assert!(session.encrypted.is_none());
}

#[test]
fn messages_reach_the_encrypted_session() {
    let mut session = plain_session(None);
    session.encrypted(START, newkeys());
    if let Some(enc) = &mut session.encrypted {
        let id = enc.new_channel(100, 100);
        assert_eq!(id, ChannelId(2));
        if let Some(params) = enc.channels.get_mut(&2) {
            params.recipient_channel = 8;
            params.recipient_maximum_packet_size = 100;
            params.confirmed = true;
        }
        enc.data(id, CryptoVec::from_slice(b"xy"));
        assert!(enc.has_pending_data(id));
        if let Some(params) = enc.channels.get_mut(&2) {
            params.recipient_window_size = 1;
        }
    }
    session.byte(ChannelId(2), 97);
    session.window_adjusted(ChannelId(2));
    session.window_adjusted(ChannelId(3));
    match &session.encrypted {
        Some(enc) => {
            assert_eq!(
                &enc.write[..],
                &[
                    0, 0, 0, 5, 97, 0, 0, 0, 8, 0, 0, 0, 10, 94, 0, 0, 0, 8, 0, 0, 0, 1, b'x'
                ]
            );
            assert!(enc.has_pending_data(ChannelId(2)));
        }
        None => panic!("not encrypted"),
    }
}
