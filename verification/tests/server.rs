use russh::algorithm::{CipherName, Compression, KexAlgorithm, MacName, Names};
use russh::auth::{Auth, MethodSet};
use russh::buffer::SSHBuffer;
use russh::channel::ChannelId;
use russh::encrypted::EncryptedState;
use russh::error::Error;
use russh::kex::{Exchange, Kex, KexDh, KexDhDone, KexInit, NewKeys};
use russh::limits::Limits;
use russh::server::config::{ssh_id, Config};
use russh::server::connect::{is_cloud_id, read_ssh_id, Proposal, ReplyStep};
use russh::server::response::Response;
use russh::server::session::{
    default_adjust_window, default_auth, default_channel_open, default_tcpip_forward,
    session_result, ChannelMsg, Session,
};
use russh::session::CommonSession;
use russh::suite::Suite;
use russh::time::Duration;
use russh_cryptovec::CryptoVec;
use std::borrow::Cow;
use std::sync::Arc;

struct Plain;

impl Suite for Plain {
    type Kex = &'static str;
    type Ciphers = u32;
    type AuthRequest = ();
    type AuthMethod = ();
    type Deflate = u32;
    type Inflate = ();
}

fn names() -> Names {
    Names {
        cipher: CipherName("aes256-ctr"),
        client_mac: MacName("hmac-client"),
        server_mac: MacName("hmac-server"),
        server_compression: Compression::Zlib,
        client_compression: Compression::Off,
    }
}

fn newkeys() -> NewKeys<Plain> {
    NewKeys {
        exchange: Exchange {
            client_id: CryptoVec::from_slice(b"client"),
            ..Exchange::new()
        },
        names: names(),
        kex: KexAlgorithm { skip_exchange: false, algorithm: "curve" },
        key: 3,
        cipher: 77,
        session_id: CryptoVec::from_slice(b"id"),
        received: false,
        sent: true,
    }
}

fn plain_session(kex: Option<Kex<Plain>>) -> CommonSession<&'static str, Plain> {
    CommonSession {
        auth_user: String::new(),
        config: "config",
        encrypted: None,
        auth_method: None,
        write_buffer: SSHBuffer::new(),
        kex,
        cipher: 1,
        wants_reply: false,
        disconnected: false,
        buffer: CryptoVec::new(),
        is_cloud: true,
    }
}

const START: EncryptedState<Plain> = EncryptedState::WaitingAuthServiceRequest {
    sent: false,
    accepted: false,
};

fn kexinit(algo: Option<Names>) -> KexInit {
    KexInit { algo, exchange: Exchange::new(), session_id: None, sent: true }
}

#[test]
fn packets_before_the_key_exchange_are_passed_over() {
    let mut session = plain_session(Some(Kex::Init(kexinit(None))));
    for packet in [&[2u8, 20][..], &[]] {
        assert!(matches!(session.begin_reply(packet), Ok(ReplyStep::Done)));
        assert!(matches!(session.kex, Some(Kex::Init(_))));
    }
}

#[test]
fn a_proposal_is_parsed() {
    let mut session = plain_session(Some(Kex::Init(kexinit(None))));
    match session.begin_reply(&[20, 1]) {
        Ok(ReplyStep::ParseInit(kexinit)) => {
            assert!(kexinit.sent);
            assert!(session.kex.is_none());
            assert_eq!(session.end_reply(Ok(Kex::Init(kexinit))), Ok(()));
            assert!(matches!(session.kex, Some(Kex::Init(_))));
        }
        _ => panic!("not parsed"),
    }
}

#[test]
fn what_follows_a_proposal_is_parsed_too() {
    let mut session = plain_session(Some(Kex::Init(kexinit(Some(names())))));
    assert!(matches!(session.begin_reply(&[30]), Ok(ReplyStep::ParseInit(_))));
    assert_eq!(session.end_reply(Err(Error::Kex)), Err(Error::Kex));
    assert!(session.kex.is_none());
}

#[test]
fn an_exchange_of_keys_is_parsed() {
    let kexdh = KexDh { exchange: Exchange::new(), names: names(), key: 9, session_id: None };
    let mut session = plain_session(Some(Kex::Dh(kexdh)));
    match session.begin_reply(&[]) {
        Ok(ReplyStep::ParseDh(kexdh)) => assert_eq!(kexdh.key, 9),
        _ => panic!("not parsed"),
    }
    assert!(session.kex.is_none());
}

#[test]
fn new_keys_encrypt_the_session() {
    let mut session = plain_session(Some(Kex::Keys(newkeys())));
    assert!(matches!(session.begin_reply(&[21]), Ok(ReplyStep::Done)));
    assert!(session.kex.is_none());
    assert_eq!(session.cipher, 77);
    match &session.encrypted {
        Some(enc) => {
            assert_eq!(&enc.session_id[..], b"id");
            assert!(enc.is_cloud);
            assert!(matches!(
                enc.state,
                EncryptedState::WaitingAuthServiceRequest { sent: false, accepted: false }
            ));
        }
        None => panic!("not encrypted"),
    }
    assert!(matches!(session.begin_reply(&[21]), Ok(ReplyStep::ReadEncrypted)));
    assert!(matches!(session.begin_reply(&[]), Ok(ReplyStep::ReadEncrypted)));
}

#[test]
fn anything_but_new_keys_is_refused() {
    for packet in [&[20u8, 21][..], &[]] {
        let mut session = plain_session(Some(Kex::Keys(newkeys())));
        assert!(matches!(session.begin_reply(packet), Err(Error::Kex)));
        assert!(session.encrypted.is_none());
        assert_eq!(session.cipher, 1);
    }
}

#[test]
fn packets_are_passed_over_outside_a_key_exchange() {
    let mut session = plain_session(None);
    assert!(matches!(session.begin_reply(&[20]), Ok(ReplyStep::Done)));
    assert!(session.kex.is_none());
    let done = KexDhDone {
        exchange: Exchange::new(),
        kex: KexAlgorithm { skip_exchange: false, algorithm: "curve" },
        key: 0,
        session_id: None,
        names: names(),
    };
    let mut session = plain_session(Some(Kex::DhDone(done)));
    assert!(matches!(session.begin_reply(&[21]), Ok(ReplyStep::Done)));
    assert!(matches!(session.kex, Some(Kex::DhDone(_))));
}

#[test]
fn cloud_clients_are_recognised() {
    assert!(is_cloud_id(b"wjyl"));
    assert!(is_cloud_id(b"SSH-2.0-wjyl_1.0"));
    assert!(is_cloud_id(b"\xff\xfewwjyl"));
    assert!(!is_cloud_id(b"SSH-2.0-OpenSSH_9.0"));
    assert!(!is_cloud_id(b"wjy"));
    assert!(!is_cloud_id(b"wjy\xffl"));
    assert!(!is_cloud_id(b""));
}

#[test]
fn a_connection_begins_with_a_proposal() {
    let mut config: Config<()> = Config::default();
    config.server_id = "SSH-2.0-test".to_string();
    let config = Arc::new(config);
    let session: Result<CommonSession<Arc<Config<()>>, Plain>, Error> = read_ssh_id(
        config.clone(),
        b"SSH-2.0-wjyl",
        5,
        |config: &Config<()>, mut start: Proposal<Plain>| {
            assert_eq!(config.server_id, "SSH-2.0-test");
            assert_eq!(&start.kexinit.exchange.client_id[..], b"SSH-2.0-wjyl");
            assert_eq!(&start.kexinit.exchange.server_id[..], b"SSH-2.0-test");
            assert_eq!(start.kexinit.exchange.client_kex_init.len(), 0);
            assert!(start.kexinit.algo.is_none());
            assert!(!start.kexinit.sent);
            assert!(start.kexinit.session_id.is_none());
            assert_eq!(start.cipher, 5);
            assert_eq!(start.write_buffer.buffer.len(), 0);
            start.kexinit.sent = true;
            start.cipher = 6;
            start.write_buffer.buffer.push(9);
            Ok(start)
        },
    );
    let session = match session {
        Ok(session) => session,
        Err(error) => panic!("{:?}", error),
    };
    assert!(session.is_cloud);
    assert_eq!(session.cipher, 6);
    assert_eq!(&session.write_buffer.buffer[..], &[9]);
    assert!(matches!(&session.kex, Some(Kex::Init(kexinit)) if kexinit.sent));
    assert_eq!(session.auth_user, "");
    assert!(session.auth_method.is_none());
    assert!(session.encrypted.is_none());
    assert!(!session.wants_reply);
    assert!(!session.disconnected);
    assert_eq!(session.buffer.len(), 0);
    assert_eq!(session.config.server_id, "SSH-2.0-test");
}

#[test]
fn a_connection_fails_as_its_proposal_does() {
    let config: Arc<Config<()>> = Arc::new(Config::default());
    let session: Result<CommonSession<Arc<Config<()>>, Plain>, Error> = read_ssh_id(
        config,
        b"SSH-2.0-x",
        5,
        |_: &Config<()>, _: Proposal<Plain>| Err(Error::Kex),
    );
    assert!(matches!(session, Err(Error::Kex)));
}

#[test]
fn a_side_identifies_itself_with_a_line() {
    let mut buffer = SSHBuffer::new();
    buffer.send_ssh_id(b"SSH-2.0-x");
    assert_eq!(&buffer.buffer[..], b"SSH-2.0-x\r\n");
    assert_eq!(buffer.len, 0);
    assert_eq!(buffer.bytes, 0);
    assert_eq!(buffer.seqn, 0);
}

#[test]
fn the_default_configuration() {
    let config: Config<Vec<u8>> = Config::default();
    assert_eq!(config.server_id, "SSH-2.0-russh_0.1.0");
    assert_eq!(config.methods, MethodSet::all());
    assert!(config.methods.none && config.methods.password && config.methods.publickey);
    assert!(config.methods.hostbased && config.methods.keyboard_interactive);
    assert_eq!(config.auth_banner, None);
    assert_eq!(config.auth_rejection_time, Duration::from_secs(1));
    assert!(config.keys.is_empty());
    assert_eq!(config.window_size, 2097152);
    assert_eq!(config.maximum_packet_size, 32768);
    assert_eq!(config.limits, Limits::default());
    assert!(config.preferred.is_empty());
    assert_eq!(config.max_auth_attempts, 10);
    assert_eq!(config.connection_timeout, Some(Duration::from_secs(600)));
    assert!(!config.packets_exceed_tcp());
}

#[test]
fn large_packets_are_noticed() {
    let mut config: Config<()> = Config::default();
    config.maximum_packet_size = 65535;
    assert!(!config.packets_exceed_tcp());
    config.maximum_packet_size = 65536;
    assert!(config.packets_exceed_tcp());
    assert_eq!(ssh_id("a", "b"), "SSH-2.0-a_b");
}

#[test]
fn answers_are_read_in_turn() {
    let message = [9, 0, 0, 0, 2, b'h', b'i', 0, 0, 0, 0, 0, 0, 0, 1, b'x'];
    let mut response = Response { s: &message, position: 1, n: 2 };
    assert_eq!(response.next(), Some(&b"hi"[..]));
    assert_eq!(response.position, 7);
    assert_eq!(response.next(), Some(&b""[..]));
    assert_eq!(response.n, 0);
    // The client announced two answers.
    assert_eq!(response.next(), None);
    assert_eq!(response.position, 11);
}

#[test]
fn answers_end_with_the_message() {
    let message = [0, 0, 0, 3, b'h', b'i'];
    let mut response = Response { s: &message, position: 0, n: 5 };
    assert_eq!(response.next(), None);
    assert_eq!(response.n, 4);
    assert_eq!(response.position, 4);
    assert_eq!(response.next(), None);
    assert_eq!(response.n, 3);
    assert_eq!(response.position, 4);
}

type Users = Session<(), Plain, (), u8, &'static str>;

fn running() -> Users {
    let mut config: Config<()> = Config::default();
    config.window_size = 1234;
    let common = CommonSession {
        auth_user: String::new(),
        config: Arc::new(config),
        encrypted: None,
        auth_method: None,
        write_buffer: SSHBuffer::new(),
        kex: None,
        cipher: 1,
        wants_reply: false,
        disconnected: false,
        buffer: CryptoVec::new(),
        is_cloud: false,
    };
    let mut session: Users = Session::new(42, common, (), 3);
    assert!(session.channels.is_empty());
    session.channels.insert(5, "user");
    session
}

#[test]
fn a_session_begins_with_the_configured_window() {
    let session = running();
    assert_eq!(session.session_id, 42);
    assert_eq!(session.target_window_size, 1234);
    assert_eq!(session.sender, 3);
    assert!(session.pending_reads.is_empty());
    assert_eq!(session.pending_len, 0);
}

#[test]
fn messages_go_to_the_user_of_the_channel() {
    let session = running();
    match session.channel_open_confirmation(ChannelId(5), 10, 20) {
        Some((user, ChannelMsg::Open { id, max_packet_size, window_size })) => {
            assert_eq!(*user, "user");
            assert_eq!(id, ChannelId(5));
            assert_eq!(max_packet_size, 10);
            assert_eq!(window_size, 20);
        }
        _ => panic!("no message"),
    }
    match session.data(ChannelId(5), b"abc") {
        Some((user, ChannelMsg::Data { data })) => {
            assert_eq!(*user, "user");
            assert_eq!(&data[..], b"abc");
        }
        _ => panic!("no message"),
    }
    match session.extended_data(ChannelId(5), 1, b"def") {
        Some((user, ChannelMsg::ExtendedData { ext, data })) => {
            assert_eq!(*user, "user");
            assert_eq!(ext, 1);
            assert_eq!(&data[..], b"def");
        }
        _ => panic!("no message"),
    }
}

#[test]
fn messages_of_other_channels_go_nowhere() {
    let session = running();
    assert!(session.channel_open_confirmation(ChannelId(6), 10, 20).is_none());
    assert!(session.data(ChannelId(6), b"abc").is_none());
    assert!(session.extended_data(ChannelId(6), 1, b"def").is_none());
}

#[test]
fn a_server_that_does_not_decide() {
    assert_eq!(default_auth(), Auth::Reject { proceed_with_methods: None });
    assert_ne!(default_auth(), Auth::Accept);
    assert_ne!(
        default_auth(),
        Auth::Partial {
            name: Cow::Borrowed(""),
            instructions: Cow::Borrowed(""),
            prompts: Cow::Borrowed(&[]),
        }
    );
    assert!(default_channel_open());
    assert!(!default_tcpip_forward());
    assert_eq!(default_adjust_window(77), 77);
}

#[test]
fn a_session_ends_as_its_task_does() {
    assert_eq!(session_result::<u8, Error>(Ok(Ok(1))), Ok(1));
    assert_eq!(session_result::<u8, Error>(Ok(Err(Error::Io))), Err(Error::Io));
    assert_eq!(session_result::<u8, Error>(Err(Error::Join)), Err(Error::Join));
}
