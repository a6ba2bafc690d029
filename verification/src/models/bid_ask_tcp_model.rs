//! The message envelope: a payload is either one of the two four-byte
//! keepalive words or a tick record. The keepalive words are reserved only
//! at exactly four bytes, so a longer or shorter payload is always read as
//! a tick record.

use crate::models::bid_ask_data::{
    lemma_record_round_trip, record_result_matches, spec_deserialize_record,
    spec_serialize_record, BidAskDataTcpModel, SerializeError, TickModel,
};
use vstd::prelude::*;

verus! {

/// One protocol message.
#[derive(Clone, Debug, PartialEq)]
pub enum BidAskTcpMessage {
    /// Keepalive request, the literal `PING`.
    Ping,
    /// Keepalive reply, the literal `PONG`.
    Pong,
    /// A market update.
    BidAsk(BidAskDataTcpModel),
}

/// The mathematical image of a message.
pub ghost enum MessageModel {
    Ping,
    Pong,
    BidAsk(TickModel),
}

impl View for BidAskTcpMessage {
    type V = MessageModel;

    open spec fn view(&self) -> MessageModel {
        match self {
            BidAskTcpMessage::Ping => MessageModel::Ping,
            BidAskTcpMessage::Pong => MessageModel::Pong,
            BidAskTcpMessage::BidAsk(rec) => MessageModel::BidAsk(rec@),
        }
    }
}

impl MessageModel {
    /// Protocol invariant on a message: a carried record is well-formed.
    pub open spec fn wf(self) -> bool {
        match self {
            MessageModel::BidAsk(t) => t.wf(),
            _ => true,
        }
    }
}

/// The keepalive request literal `PING`.
pub open spec fn ping_bytes() -> Seq<u8> {
    seq![80, 73, 78, 71]
}

/// The keepalive reply literal `PONG`.
pub open spec fn pong_bytes() -> Seq<u8> {
    seq![80, 79, 78, 71]
}

/// Wire form of a message payload.
pub open spec fn spec_serialize_message(m: MessageModel) -> Seq<u8> {
    match m {
        MessageModel::Ping => ping_bytes(),
        MessageModel::Pong => pong_bytes(),
        MessageModel::BidAsk(t) => spec_serialize_record(t),
    }
}

/// What decoding a message payload yields: exactly four bytes equal to a
/// keepalive literal are that keepalive; any other payload is read as a
/// tick record, whose own error surfaces on failure.
pub open spec fn spec_parse_message(src: Seq<u8>) -> Result<MessageModel, SerializeError> {
    if src.len() == 4 && src == ping_bytes() {
        Ok(MessageModel::Ping)
    } else if src.len() == 4 && src == pong_bytes() {
        Ok(MessageModel::Pong)
    } else {
        match spec_deserialize_record(src) {
            Ok(t) => Ok(MessageModel::BidAsk(t)),
            Err(e) => Err(e),
        }
    }
}

/// The runtime parse result agrees with the specified one: same error, or
/// a message whose image is the specified model.
pub open spec fn message_result_matches(
    r: Result<BidAskTcpMessage, SerializeError>,
    m: Result<MessageModel, SerializeError>,
) -> bool {
    match (r, m) {
        (Ok(msg), Ok(model)) => msg@ == model,
        (Err(e1), Err(e2)) => e1 == e2,
        _ => false,
    }
}

impl BidAskTcpMessage {
    /// The message is the keepalive request.
    pub fn is_ping(&self) -> (b: bool)
        ensures
            b == (self@ is Ping),
    {
        match self {
            BidAskTcpMessage::Ping => true,
            _ => false,
        }
    }

    /// The message is the keepalive reply.
    pub fn is_pong(&self) -> (b: bool)
        ensures
            b == (self@ is Pong),
    {
        match self {
            BidAskTcpMessage::Pong => true,
            _ => false,
        }
    }

    /// The message carries a market update.
    pub fn is_bid_ask(&self) -> (b: bool)
        ensures
            b == (self@ is BidAsk),
    {
        match self {
            BidAskTcpMessage::Ping => false,
            BidAskTcpMessage::Pong => false,
            BidAskTcpMessage::BidAsk(_) => true,
        }
    }

    /// Decode a delimiter-stripped message payload.
    pub fn parse(src: &[u8]) -> (r: Result<Self, SerializeError>)
        ensures
            message_result_matches(r, spec_parse_message(src@)),
    {
        if src.len() == 4 {
            if src[0] == 80 && src[1] == 73 && src[2] == 78 && src[3] == 71 {
                proof {
                    assert(src@ =~= ping_bytes());
                }
                return Ok(BidAskTcpMessage::Ping);
            }
            if src[0] == 80 && src[1] == 79 && src[2] == 78 && src[3] == 71 {
                proof {
                    assert(src@ =~= pong_bytes());
                }
                return Ok(BidAskTcpMessage::Pong);
            }
            proof {
                assert(src@ != ping_bytes() && src@ != pong_bytes()) by {
                    assert(ping_bytes()[0] == 80 && ping_bytes()[1] == 73 && ping_bytes()[2] == 78
                        && ping_bytes()[3] == 71);
                    assert(pong_bytes()[0] == 80 && pong_bytes()[1] == 79 && pong_bytes()[2] == 78
                        && pong_bytes()[3] == 71);
                }
            }
        }
        match BidAskDataTcpModel::deserialize(src) {
            Ok(rec) => Ok(BidAskTcpMessage::BidAsk(rec)),
            Err(e) => Err(e),
        }
    }

    /// Append the wire form of the message payload to the output buffer.
    pub fn serialize(&self, write_buffer: &mut Vec<u8>)
        requires
            self@ matches MessageModel::BidAsk(t) ==> t.date_time.valid(),
        ensures
            final(write_buffer)@ == old(write_buffer)@ + spec_serialize_message(self@),
    {
        match self {
            BidAskTcpMessage::Ping => {
                write_buffer.push(80);
                write_buffer.push(73);
                write_buffer.push(78);
                write_buffer.push(71);
                proof {
                    assert(write_buffer@ =~= old(write_buffer)@ + ping_bytes());
                }
            },
            BidAskTcpMessage::Pong => {
                write_buffer.push(80);
                write_buffer.push(79);
                write_buffer.push(78);
                write_buffer.push(71);
                proof {
                    assert(write_buffer@ =~= old(write_buffer)@ + pong_bytes());
                }
            },
            BidAskTcpMessage::BidAsk(bid_ask) => {
                bid_ask.serialize(write_buffer);
            },
        }
    }
}

/// Law: keepalive payloads are never read as tick records. A payload of
/// exactly the four bytes `PING` or `PONG` parses to the matching
/// keepalive, whatever record those bytes might otherwise spell.
pub proof fn lemma_keepalive_never_tick(src: Seq<u8>)
    ensures
        src == ping_bytes() ==> spec_parse_message(src) == Ok::<MessageModel, SerializeError>(
            MessageModel::Ping,
        ),
        src == pong_bytes() ==> spec_parse_message(src) == Ok::<MessageModel, SerializeError>(
            MessageModel::Pong,
        ),
{
    assert(ping_bytes().len() == 4);
    assert(pong_bytes().len() == 4);
    assert(ping_bytes()[1] == 73 && pong_bytes()[1] == 79);
}

/// Law: parsing a serialized message gives the message back, for every
/// well-formed message — the two keepalives and every well-formed record.
pub proof fn lemma_message_round_trip(m: MessageModel)
    requires
        m.wf(),
    ensures
        spec_parse_message(spec_serialize_message(m)) == Ok::<MessageModel, SerializeError>(m),
{
    match m {
        MessageModel::Ping => {
            lemma_keepalive_never_tick(ping_bytes());
        },
        MessageModel::Pong => {
            lemma_keepalive_never_tick(pong_bytes());
        },
        MessageModel::BidAsk(t) => {
            let s = spec_serialize_record(t);
            lemma_record_round_trip(t);
            assert(s.len() != 4) by {
                crate::number_text::lemma_float_text_bytes(
                    vstd::utf8::encode_utf8(t.bid),
                );
                crate::date_utils::lemma_compact_bytes(t.date_time.date_time());
                assert(vstd::utf8::encode_utf8(t.exchange_id).len() >= 1);
                assert(vstd::utf8::encode_utf8(t.instrument_id).len() >= 1);
                assert(t.date_time.spec_serialize().len() >= 15);
            }
        },
    }
}

} // verus!
