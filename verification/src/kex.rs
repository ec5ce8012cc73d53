//! The exchange of keys: its states, and how one follows from the other.
use crate::algorithm::{CipherName, KexAlgorithm, MacName, Names};
use crate::buffer::cryptovec_bytes;
use crate::error::Error;
use crate::suite::Suite;
use russh_cryptovec::CryptoVec;
use vstd::prelude::*;

verus! {

/// What both sides sent to identify themselves and to exchange keys.
#[derive(Debug)]
pub struct Exchange {
    pub client_id: CryptoVec,
    pub server_id: CryptoVec,
    pub client_kex_init: CryptoVec,
    pub server_kex_init: CryptoVec,
    pub client_ephemeral: CryptoVec,
    pub server_ephemeral: CryptoVec,
}

/// A key exchange that is going on.
pub enum Kex<S: Suite> {
    /// Version number sent. `algo` and `sent` tell whether the other side's
    /// proposal was received and ours was sent.
    Init(KexInit),
    /// Algorithms have been determined, the exchange should run.
    Dh(KexDh),
    /// The exchange has run.
    DhDone(KexDhDone<S>),
    /// New keys were announced, and those of the other side are awaited.
    Keys(NewKeys<S>),
}

/// The negotiation of algorithms.
#[derive(Debug)]
pub struct KexInit {
    pub algo: Option<Names>,
    pub exchange: Exchange,
    pub session_id: Option<CryptoVec>,
    pub sent: bool,
}

/// A key exchange with negotiated algorithms.
#[derive(Debug)]
pub struct KexDh {
    pub exchange: Exchange,
    pub names: Names,
    pub key: usize,
    pub session_id: Option<CryptoVec>,
}

/// A key exchange that has run.
pub struct KexDhDone<S: Suite> {
    pub exchange: Exchange,
    pub kex: KexAlgorithm<S::Kex>,
    pub key: usize,
    pub session_id: Option<CryptoVec>,
    pub names: Names,
}

/// The outcome of a key exchange.
pub struct NewKeys<S: Suite> {
    pub exchange: Exchange,
    pub names: Names,
    pub kex: KexAlgorithm<S::Kex>,
    pub key: usize,
    pub cipher: S::Ciphers,
    pub session_id: CryptoVec,
    pub received: bool,
    pub sent: bool,
}

impl Exchange {
    /// Nothing was sent yet.
    pub open spec fn is_empty(self) -> bool {
        &&& cryptovec_bytes(self.client_id) == Seq::<u8>::empty()
        &&& cryptovec_bytes(self.server_id) == Seq::<u8>::empty()
        &&& self.keys_cleared()
    }

    /// Nothing of a key exchange is left.
    pub open spec fn keys_cleared(self) -> bool {
        &&& cryptovec_bytes(self.client_kex_init) == Seq::<u8>::empty()
        &&& cryptovec_bytes(self.server_kex_init) == Seq::<u8>::empty()
        &&& cryptovec_bytes(self.client_ephemeral) == Seq::<u8>::empty()
        &&& cryptovec_bytes(self.server_ephemeral) == Seq::<u8>::empty()
    }

    /// `self` is `old` ready for another key exchange: the identifications of
    /// both sides stay, the rest is cleared.
    pub open spec fn restarted(self, old: Exchange) -> bool {
        &&& self.client_id == old.client_id
        &&& self.server_id == old.server_id
        &&& self.keys_cleared()
    }

    /// An exchange in which nothing was sent yet.
    pub fn new() -> (exchange: Exchange)
        ensures
            exchange.is_empty(),
    {
        Exchange {
            client_id: CryptoVec::new(),
            server_id: CryptoVec::new(),
            client_kex_init: CryptoVec::new(),
            server_kex_init: CryptoVec::new(),
            client_ephemeral: CryptoVec::new(),
            server_ephemeral: CryptoVec::new(),
        }
    }
}

impl Default for Exchange {
    fn default() -> (exchange: Exchange)
        ensures
            exchange.is_empty(),
    {
        Exchange::new()
    }
}

impl KexInit {
    /// The start of another key exchange that the other side asked for: its
    /// proposal was received and the outcome is `algo`, ours was not sent.
    pub fn received_rekey(ex: Exchange, algo: Names, session_id: &CryptoVec) -> (kexinit: KexInit)
        ensures
            kexinit.algo == Some(algo),
            !kexinit.sent,
            kexinit.session_id matches Some(id) && cryptovec_bytes(id) == cryptovec_bytes(
                *session_id,
            ),
            kexinit.exchange.restarted(ex),
    {
        let mut kexinit = KexInit {
            exchange: ex,
            algo: Some(algo),
            sent: false,
            session_id: Some(session_id.clone()),
        };
        kexinit.exchange.client_kex_init.clear();
        kexinit.exchange.server_kex_init.clear();
        kexinit.exchange.client_ephemeral.clear();
        kexinit.exchange.server_ephemeral.clear();
        kexinit
    }

    /// The start of another key exchange that this side asks for: its proposal
    /// was sent, and that of the other side is awaited.
    pub fn initiate_rekey(ex: Exchange, session_id: &CryptoVec) -> (kexinit: KexInit)
        ensures
            kexinit.algo is None,
            kexinit.sent,
            kexinit.session_id matches Some(id) && cryptovec_bytes(id) == cryptovec_bytes(
                *session_id,
            ),
            kexinit.exchange.restarted(ex),
    {
        let mut kexinit = KexInit {
            exchange: ex,
            algo: None,
            sent: true,
            session_id: Some(session_id.clone()),
        };
        kexinit.exchange.client_kex_init.clear();
        kexinit.exchange.server_kex_init.clear();
        kexinit.exchange.client_ephemeral.clear();
        kexinit.exchange.server_ephemeral.clear();
        kexinit
    }
}

/// The algorithms for which a key exchange derives keys, and for which side.
#[derive(Clone, Copy, Debug)]
pub struct KeyRequest {
    pub cipher: CipherName,
    pub remote_to_local_mac: MacName,
    pub local_to_remote_mac: MacName,
    pub is_server: bool,
}

impl<S: Suite> KexDhDone<S> {
    /// The identifier of the session: that of the first key exchange, which is
    /// its hash.
    pub open spec fn session_id_bytes(self, hash: CryptoVec) -> Seq<u8> {
        match self.session_id {
            Some(id) => cryptovec_bytes(id),
            None => cryptovec_bytes(hash),
        }
    }

    /// The algorithms for which keys are derived. What a client sends is
    /// authenticated by the client's code, on both sides.
    pub open spec fn request(self, is_server: bool) -> KeyRequest {
        KeyRequest {
            cipher: self.names.cipher,
            remote_to_local_mac: if is_server {
                self.names.client_mac
            } else {
                self.names.server_mac
            },
            local_to_remote_mac: if is_server {
                self.names.server_mac
            } else {
                self.names.client_mac
            },
            is_server,
        }
    }

    /// What the key exchange comes to with the given outcome of the derivation
    /// of keys.
    pub open spec fn outcome(
        self,
        hash: CryptoVec,
        ciphers: Result<S::Ciphers, Error>,
        res: Result<NewKeys<S>, Error>,
    ) -> bool {
        match ciphers {
            Ok(cipher) => {
                &&& res matches Ok(keys)
                &&& keys.exchange == self.exchange
                &&& keys.names == self.names
                &&& keys.kex == self.kex
                &&& keys.key == self.key
                &&& keys.cipher == cipher
                &&& cryptovec_bytes(keys.session_id) == self.session_id_bytes(hash)
                &&& !keys.received
                &&& !keys.sent
            },
            Err(error) => res == Err::<NewKeys<S>, Error>(error),
        }
    }

    /// The algorithms for which `compute_keys` derives keys.
    pub fn key_request(&self, is_server: bool) -> (request: KeyRequest)
        ensures
            request == self.request(is_server),
    {
        KeyRequest {
            cipher: self.names.cipher,
            remote_to_local_mac: if is_server {
                self.names.client_mac
            } else {
                self.names.server_mac
            },
            local_to_remote_mac: if is_server {
                self.names.server_mac
            } else {
                self.names.client_mac
            },
            is_server,
        }
    }

    /// Ends the key exchange with keys that were derived for it, or with the
    /// error that the derivation ended in.
    pub fn with_keys(self, hash: CryptoVec, ciphers: Result<S::Ciphers, Error>) -> (res: Result<
        NewKeys<S>,
        Error,
    >)
        ensures
            self.outcome(hash, ciphers, res),
    {
        let session_id = if let Some(session_id) = self.session_id {
            session_id
        } else {
            hash
        };
        match ciphers {
            Ok(cipher) => Ok(
                NewKeys {
                    exchange: self.exchange,
                    names: self.names,
                    kex: self.kex,
                    key: self.key,
                    cipher,
                    session_id,
                    received: false,
                    sent: false,
                },
            ),
            Err(error) => Err(error),
        }
    }

    /// Ends the key exchange: has the algorithm derive keys, by `derive`, from
    /// the identifier of the session and the hash of the exchange.
    pub fn compute_keys<F>(self, hash: CryptoVec, is_server: bool, derive: F) -> (res: Result<
        NewKeys<S>,
        Error,
    >) where
        F: FnOnce(&KexAlgorithm<S::Kex>, &CryptoVec, &CryptoVec, KeyRequest) -> Result<
            S::Ciphers,
            Error,
        >,

        requires
            forall|id: CryptoVec|
                cryptovec_bytes(id) == self.session_id_bytes(hash) ==> #[trigger] call_requires(
                    derive,
                    (&self.kex, &id, &hash, self.request(is_server)),
                ),
        ensures
            exists|id: CryptoVec, ciphers: Result<S::Ciphers, Error>|
                {
                    &&& cryptovec_bytes(id) == self.session_id_bytes(hash)
                    &&& #[trigger] call_ensures(
                        derive,
                        (&self.kex, &id, &hash, self.request(is_server)),
                        ciphers,
                    )
                    &&& self.outcome(hash, ciphers, res)
                },
    {
        let request = self.key_request(is_server);
        match &self.session_id {
            Some(session_id) => {
                let ciphers = derive(&self.kex, session_id, &hash, request);
                self.with_keys(hash, ciphers)
            },
            None => {
                let ciphers = derive(&self.kex, &hash, &hash, request);
                self.with_keys(hash, ciphers)
            },
        }
    }

    /// What debugging output says of the key exchange. It holds no secrets.
    pub fn debug_string(&self) -> (s: String)
        ensures
            s@ == "KexDhDone"@,
    {
        "KexDhDone".to_string()
    }
}

} // verus!
