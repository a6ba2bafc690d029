//! Line-delimited text wire protocol for market tick (bid/ask) feeds.
//!
//! A message is either a keepalive (`PING` / `PONG`) or a tick record:
//! space-separated ASCII fields carrying venue, instrument, bid, ask,
//! volume and a tagged compact timestamp, terminated by `CR LF`.
//! This crate holds the codec: parsing, serialization, and the proofs
//! that the two are inverse to each other.

use vstd::prelude::*;

pub mod date_utils;
pub mod number_text;
pub mod split;
pub mod text;
pub mod models;
pub mod framing;

pub use date_utils::UtcDateTime;
pub use models::bid_ask_data::{BidAskDataTcpModel, BidAskDateTimeTcpModel, SerializeError};
pub use models::bid_ask_tcp_model::BidAskTcpMessage;

verus! {

/// ASCII space, the field separator inside a tick record.
pub const SPACE: u8 = 32;

/// ASCII carriage return, first byte of the message delimiter.
pub const CR: u8 = 13;

/// ASCII line feed, second byte of the message delimiter.
pub const LF: u8 = 10;

/// ASCII full stop, the separator before the millisecond fraction of a
/// compact timestamp.
pub const DOT: u8 = 46;

/// A byte is an ASCII decimal digit.
pub open spec fn is_digit(b: u8) -> bool {
    48 <= b <= 57
}

/// Numeric value of an ASCII decimal digit byte.
pub open spec fn digit_val(b: u8) -> int
    recommends
        is_digit(b),
{
    b - 48
}

/// The ASCII digit byte for a value in `0..=9`.
pub open spec fn digit_of(n: int) -> u8
    recommends
        0 <= n <= 9,
{
    (48 + n) as u8
}

/// Every byte of the sequence is an ASCII decimal digit.
pub open spec fn all_digits(s: Seq<u8>) -> bool {
    forall|i: int| 0 <= i < s.len() ==> is_digit(#[trigger] s[i])
}

} // verus!
