//! What the steps of a key exchange come to.
#![allow(unused_imports)]
use crate::algorithm::{KexAlgorithm, Names};
use crate::buffer::cryptovec_bytes;
use crate::error::Error;
use crate::kex::{Exchange, KeyRequest, KexDhDone, KexInit, NewKeys};
use crate::suite::Suite;
use russh_cryptovec::CryptoVec;
use vstd::prelude::*;

verus! {

/// Nothing of an exchange of keys is held.
pub open spec fn no_keys_held(exchange: Exchange) -> bool {
    &&& cryptovec_bytes(exchange.client_kex_init).len() == 0
    &&& cryptovec_bytes(exchange.server_kex_init).len() == 0
    &&& cryptovec_bytes(exchange.client_ephemeral).len() == 0
    &&& cryptovec_bytes(exchange.server_ephemeral).len() == 0
}

/// A new exchange holds nothing, and so does the default one.
pub proof fn law_exchange_begins_empty(exchange: Exchange)
    requires
        call_ensures(Exchange::new, (), exchange) || call_ensures(
            <Exchange as Default>::default,
            (),
            exchange,
        ),
    ensures
        cryptovec_bytes(exchange.client_id).len() == 0,
        cryptovec_bytes(exchange.server_id).len() == 0,
        no_keys_held(exchange),
{
}

/// An exchange that the other side asked for again keeps who the sides are and
/// the identifier of the session, knows its algorithms, and was not answered.
pub proof fn law_received_rekey(
    ex: Exchange,
    algo: Names,
    session_id: CryptoVec,
    kexinit: KexInit,
)
    requires
        call_ensures(KexInit::received_rekey, (ex, algo, &session_id), kexinit),
    ensures
        kexinit.exchange.client_id == ex.client_id,
        kexinit.exchange.server_id == ex.server_id,
        no_keys_held(kexinit.exchange),
        kexinit.session_id is Some,
        cryptovec_bytes(kexinit.session_id->0) == cryptovec_bytes(session_id),
        kexinit.algo is Some,
        kexinit.algo->0 == algo,
        kexinit.sent == false,
{
}

/// An exchange that this side asks for again keeps who the sides are and the
/// identifier of the session, was sent, and awaits its algorithms.
pub proof fn law_initiate_rekey(ex: Exchange, session_id: CryptoVec, kexinit: KexInit)
    requires
        call_ensures(KexInit::initiate_rekey, (ex, &session_id), kexinit),
    ensures
        kexinit.exchange.client_id == ex.client_id,
        kexinit.exchange.server_id == ex.server_id,
        no_keys_held(kexinit.exchange),
        kexinit.session_id is Some,
        cryptovec_bytes(kexinit.session_id->0) == cryptovec_bytes(session_id),
        kexinit.algo is None,
        kexinit.sent == true,
{
}

/// `request` asks for keys for the side `is_server`: with the negotiated cipher,
/// the client's code for what the client sends, and the server's for what the
/// server sends.
pub open spec fn asks_for(request: KeyRequest, names: Names, is_server: bool) -> bool {
    &&& request.is_server == is_server
    &&& request.cipher == names.cipher
    &&& is_server ==> request.remote_to_local_mac == names.client_mac
    &&& is_server ==> request.local_to_remote_mac == names.server_mac
    &&& !is_server ==> request.remote_to_local_mac == names.server_mac
    &&& !is_server ==> request.local_to_remote_mac == names.client_mac
}

/// Keys are asked for for the side that asks, in the first exchange and in every
/// later one.
pub proof fn law_key_request<S: Suite>(done: KexDhDone<S>, is_server: bool, request: KeyRequest)
    requires
        call_ensures(KexDhDone::<S>::key_request, (&done, is_server), request),
    ensures
        asks_for(request, done.names, is_server),
        asks_for(done.request(is_server), done.names, is_server),
{
}

/// What the two sides of an exchange ask for differs in the side, and in nothing
/// else but which code is local and which is remote.
pub proof fn law_sides_ask_for_the_same<S: Suite, T: Suite>(
    server: KexDhDone<S>,
    client: KexDhDone<T>,
    for_server: KeyRequest,
    for_client: KeyRequest,
)
    requires
        call_ensures(KexDhDone::<S>::key_request, (&server, true), for_server),
        call_ensures(KexDhDone::<T>::key_request, (&client, false), for_client),
        server.names == client.names,
    ensures
        for_server.is_server,
        !for_client.is_server,
        for_server.cipher == for_client.cipher,
        for_server.remote_to_local_mac == for_client.local_to_remote_mac,
        for_server.local_to_remote_mac == for_client.remote_to_local_mac,
{
}

/// `keys` are the new keys of an exchange for which `cipher` was derived: those
/// of a session with the given identifier, which nobody was told of yet.
pub open spec fn keys_of<S: Suite>(
    keys: NewKeys<S>,
    done: KexDhDone<S>,
    cipher: S::Ciphers,
    session_id: Seq<u8>,
) -> bool {
    &&& keys.exchange == done.exchange
    &&& keys.names == done.names
    &&& keys.kex == done.kex
    &&& keys.key == done.key
    &&& keys.cipher == cipher
    &&& cryptovec_bytes(keys.session_id) == session_id
    &&& keys.received == false
    &&& keys.sent == false
}

/// An exchange ends as the derivation of keys does. Its session is identified by
/// the hash of its first exchange.
pub proof fn law_with_keys<S: Suite>(
    done: KexDhDone<S>,
    hash: CryptoVec,
    ciphers: Result<S::Ciphers, Error>,
    res: Result<NewKeys<S>, Error>,
)
    requires
        call_ensures(KexDhDone::<S>::with_keys, (done, hash, ciphers), res),
    ensures
        res is Ok <==> ciphers is Ok,
        res is Ok && done.session_id is None ==> keys_of(
            res->Ok_0,
            done,
            ciphers->Ok_0,
            cryptovec_bytes(hash),
        ),
        res is Ok && done.session_id is Some ==> keys_of(
            res->Ok_0,
            done,
            ciphers->Ok_0,
            cryptovec_bytes(done.session_id->0),
        ),
        res is Err ==> res->Err_0 == ciphers->Err_0,
{
}

/// What an algorithm derives from itself, the identifier of the session, the
/// hash of the exchange and what is asked for.
pub type Deriving<S> = spec_fn(
    KexAlgorithm<<S as Suite>::Kex>,
    Seq<u8>,
    Seq<u8>,
    KeyRequest,
) -> Result<<S as Suite>::Ciphers, Error>;

/// The algorithm derives what `d` says.
pub open spec fn derives_by<S: Suite, F>(derive: F, d: Deriving<S>) -> bool where
    F: FnOnce(&KexAlgorithm<S::Kex>, &CryptoVec, &CryptoVec, KeyRequest) -> Result<
        S::Ciphers,
        Error,
    >,
 {
    forall|
        kex: &KexAlgorithm<S::Kex>,
        id: &CryptoVec,
        hash: &CryptoVec,
        request: KeyRequest,
        r: Result<S::Ciphers, Error>,
    |
        #[trigger] call_ensures(derive, (kex, id, hash, request), r) ==> r == d(
            *kex,
            cryptovec_bytes(*id),
            cryptovec_bytes(*hash),
            request,
        )
}

/// Keys are derived by the algorithm of the exchange, from the identifier of the
/// session, which is the hash where there was none, from the hash, and for the
/// side that asks. The exchange ends as the derivation does.
pub proof fn law_compute_keys<S: Suite, F>(
    done: KexDhDone<S>,
    hash: CryptoVec,
    is_server: bool,
    derive: F,
    res: Result<NewKeys<S>, Error>,
    d: Deriving<S>,
) where
    F: FnOnce(&KexAlgorithm<S::Kex>, &CryptoVec, &CryptoVec, KeyRequest) -> Result<
        S::Ciphers,
        Error,
    >,

    requires
        call_ensures(KexDhDone::<S>::compute_keys::<F>, (done, hash, is_server, derive), res),
        derives_by::<S, F>(derive, d),
    ensures
        exists|request: KeyRequest|
            {
                let id = if done.session_id is Some {
                    cryptovec_bytes(done.session_id->0)
                } else {
                    cryptovec_bytes(hash)
                };
                let ciphers = d(done.kex, id, cryptovec_bytes(hash), request);
                &&& #[trigger] asks_for(request, done.names, is_server)
                &&& match res {
                    Ok(keys) => ciphers is Ok && keys_of(keys, done, ciphers->Ok_0, id),
                    Err(error) => ciphers is Err && error == ciphers->Err_0,
                }
            },
{
    assert(asks_for(done.request(is_server), done.names, is_server));
}

/// Debugging output of an exchange is its name.
pub proof fn law_debug_string<S: Suite>(done: KexDhDone<S>, s: String)
    requires
        call_ensures(KexDhDone::<S>::debug_string, (&done,), s),
    ensures
        s@ == seq!['K', 'e', 'x', 'D', 'h', 'D', 'o', 'n', 'e'],
{
    reveal_strlit("KexDhDone");
    assert("KexDhDone"@ =~= seq!['K', 'e', 'x', 'D', 'h', 'D', 'o', 'n', 'e']);
}

} // verus!
