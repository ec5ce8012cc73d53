//! Message numbers of the SSH protocol that the library writes or looks for.
use vstd::prelude::*;

verus! {

pub const DISCONNECT: u8 = 1;

pub const KEXINIT: u8 = 20;

pub const NEWKEYS: u8 = 21;

pub const CHANNEL_WINDOW_ADJUST: u8 = 93;

pub const CHANNEL_DATA: u8 = 94;

pub const CHANNEL_EXTENDED_DATA: u8 = 95;

pub const CHANNEL_EOF: u8 = 96;

} // verus!
