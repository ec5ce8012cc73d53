//! Names of negotiated algorithms.
use vstd::prelude::*;

verus! {

/// The name of a cipher.
#[derive(Clone, Copy, Debug)]
pub struct CipherName(pub &'static str);

/// The name of a message authentication code.
#[derive(Clone, Copy, Debug)]
pub struct MacName(pub &'static str);

/// A negotiated compression method.
#[derive(Clone, Copy, Debug, PartialEq, Eq, Structural)]
pub enum Compression {
    Off,
    Zlib,
}

/// The compressor of outgoing packets.
#[derive(Debug)]
pub enum Compress<D> {
    Off,
    Zlib(D),
}

/// The decompressor of incoming packets.
#[derive(Debug)]
pub enum Decompress<I> {
    Off,
    Zlib(I),
}

/// The outcome of a negotiation.
#[derive(Clone, Copy, Debug)]
pub struct Names {
    pub cipher: CipherName,
    pub client_mac: MacName,
    pub server_mac: MacName,
    pub server_compression: Compression,
    pub client_compression: Compression,
}

/// A key exchange algorithm: its state, and whether it needs no exchange, in
/// which case keys are never exchanged again.
#[derive(Debug)]
pub struct KexAlgorithm<K> {
    pub skip_exchange: bool,
    pub algorithm: K,
}

} // verus!
