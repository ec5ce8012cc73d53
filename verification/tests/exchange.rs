use russh::algorithm::{CipherName, Compression, KexAlgorithm, MacName, Names};
use russh::error::Error;
use russh::kex::{Exchange, KeyRequest, KexDhDone, KexInit};
use russh::suite::Suite;
use russh_cryptovec::CryptoVec;

struct Plain;

impl Suite for Plain {
    type Kex = &'static str;
    type Ciphers = u32;
    type AuthRequest = ();
    type AuthMethod = ();
    type Deflate = u32;
    type Inflate = ();
}

fn names() -> Names {
    Names {
        cipher: CipherName("aes256-ctr"),
        client_mac: MacName("hmac-client"),
        server_mac: MacName("hmac-server"),
        server_compression: Compression::Zlib,
        client_compression: Compression::Off,
    }
}

fn exchange() -> Exchange {
    Exchange {
        client_id: CryptoVec::from_slice(b"client"),
        server_id: CryptoVec::from_slice(b"server"),
        client_kex_init: CryptoVec::from_slice(b"ci"),
        server_kex_init: CryptoVec::from_slice(b"si"),
        client_ephemeral: CryptoVec::from_slice(b"ce"),
        server_ephemeral: CryptoVec::from_slice(b"se"),
    }
}

fn done(session_id: Option<CryptoVec>) -> KexDhDone<Plain> {
    KexDhDone {
        exchange: exchange(),
        kex: KexAlgorithm { skip_exchange: false, algorithm: "curve" },
        key: 3,
        session_id,
        names: names(),
    }
}

#[test]
fn a_new_exchange_is_empty() {
    for exchange in [Exchange::new(), Exchange::default()] {
        assert_eq!(exchange.client_id.len(), 0);
        assert_eq!(exchange.server_id.len(), 0);
        assert_eq!(exchange.client_kex_init.len(), 0);
        assert_eq!(exchange.server_kex_init.len(), 0);
        assert_eq!(exchange.client_ephemeral.len(), 0);
        assert_eq!(exchange.server_ephemeral.len(), 0);
    }
}

fn assert_restarted(exchange: &Exchange) {
    assert_eq!(&exchange.client_id[..], b"client");
    assert_eq!(&exchange.server_id[..], b"server");
    assert_eq!(exchange.client_kex_init.len(), 0);
    assert_eq!(exchange.server_kex_init.len(), 0);
    assert_eq!(exchange.client_ephemeral.len(), 0);
    assert_eq!(exchange.server_ephemeral.len(), 0);
}

#[test]
fn a_received_rekey_knows_its_algorithms() {
    let id = CryptoVec::from_slice(b"id");
    let kexinit = KexInit::received_rekey(exchange(), names(), &id);
    assert_restarted(&kexinit.exchange);
    assert_eq!(kexinit.algo.map(|names| names.cipher.0), Some("aes256-ctr"));
    assert!(!kexinit.sent);
    assert_eq!(kexinit.session_id.as_deref(), Some(&b"id"[..]));
}

#[test]
fn an_initiated_rekey_was_sent() {
    let id = CryptoVec::from_slice(b"id");
    let kexinit = KexInit::initiate_rekey(exchange(), &id);
    assert_restarted(&kexinit.exchange);
    assert!(kexinit.algo.is_none());
    assert!(kexinit.sent);
    assert_eq!(kexinit.session_id.as_deref(), Some(&b"id"[..]));
}

fn derive(
    kex: &KexAlgorithm<&'static str>,
    session_id: &CryptoVec,
    hash: &CryptoVec,
    request: KeyRequest,
) -> Result<u32, Error> {
    assert_eq!(kex.algorithm, "curve");
    assert_eq!(&hash[..], b"hash");
    assert_eq!(request.cipher.0, "aes256-ctr");
    if request.is_server {
        assert_eq!(request.remote_to_local_mac.0, "hmac-client");
        assert_eq!(request.local_to_remote_mac.0, "hmac-server");
    } else {
        assert_eq!(request.remote_to_local_mac.0, "hmac-server");
        assert_eq!(request.local_to_remote_mac.0, "hmac-client");
    }
    Ok(session_id.len() as u32)
}

#[test]
fn the_first_hash_identifies_the_session() {
    let keys = done(None).compute_keys(CryptoVec::from_slice(b"hash"), true, derive);
    let keys = match keys {
        Ok(keys) => keys,
        Err(error) => panic!("{:?}", error),
    };
    assert_eq!(&keys.session_id[..], b"hash");
    assert_eq!(keys.cipher, 4);
    assert_eq!(keys.key, 3);
    assert_eq!(keys.names.server_mac.0, "hmac-server");
    assert_eq!(keys.kex.algorithm, "curve");
    assert_eq!(&keys.exchange.client_ephemeral[..], b"ce");
    assert!(!keys.received);
    assert!(!keys.sent);
}

#[test]
fn a_session_keeps_its_identifier() {
    let id = Some(CryptoVec::from_slice(b"identifier"));
    let keys = done(id).compute_keys(CryptoVec::from_slice(b"hash"), false, derive);
    match keys {
        Ok(keys) => {
            assert_eq!(&keys.session_id[..], b"identifier");
            assert_eq!(keys.cipher, 10);
        }
        Err(error) => panic!("{:?}", error),
    }
}

#[test]
fn an_exchange_fails_as_the_derivation_does() {
    let keys = done(None).compute_keys(
        CryptoVec::from_slice(b"hash"),
        true,
        |_: &KexAlgorithm<&'static str>, _: &CryptoVec, _: &CryptoVec, _: KeyRequest| {
            Err(Error::Kex)
        },
    );
    assert!(matches!(keys, Err(Error::Kex)));
    let keys = done(None).with_keys(CryptoVec::from_slice(b"hash"), Err(Error::Kex));
    assert!(matches!(keys, Err(Error::Kex)));
}

#[test]
fn both_sides_use_the_same_codes() {
    let server = done(None).key_request(true);
    let client = done(None).key_request(false);
    assert_eq!(server.remote_to_local_mac.0, client.local_to_remote_mac.0);
    assert_eq!(server.local_to_remote_mac.0, client.remote_to_local_mac.0);
    assert!(server.is_server);
    assert!(!client.is_server);
}

#[test]
fn debugging_output_holds_no_secrets() {
    assert_eq!(done(None).debug_string(), "KexDhDone");
}
