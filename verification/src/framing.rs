//! Message framing: every wire message, in both directions, is a payload
//! followed by the two delimiter bytes `CR LF`. The transport finds the
//! delimiter and hands over a complete chunk; well-formed payloads never
//! contain the delimiter bytes.

use crate::models::bid_ask_data::SerializeError;
use crate::models::bid_ask_tcp_model::{
    message_result_matches, spec_parse_message, spec_serialize_message, BidAskTcpMessage,
    MessageModel,
};
use crate::{CR, LF};
use vstd::prelude::*;
use vstd::slice::slice_subrange;

verus! {

/// The two delimiter bytes that terminate every wire message.
pub open spec fn delimiter() -> Seq<u8> {
    seq![CR, LF]
}

/// Append a message's payload and the trailing delimiter to the output
/// buffer: the full wire form of one message.
pub fn write_delimited(msg: &BidAskTcpMessage, out: &mut Vec<u8>)
    requires
        msg@ matches MessageModel::BidAsk(t) ==> t.date_time.valid(),
    ensures
        final(out)@ == old(out)@ + spec_serialize_message(msg@) + delimiter(),
{
    msg.serialize(out);
    out.push(CR);
    out.push(LF);
    proof {
        assert(out@ =~= old(out)@ + spec_serialize_message(msg@) + delimiter());
    }
}

/// Decode one complete delimiter-terminated chunk: the delimiter is
/// stripped, then the payload parses as a message.
pub fn parse_delimited(chunk: &[u8]) -> (r: Result<BidAskTcpMessage, SerializeError>)
    requires
        chunk@.len() >= 2,
        chunk@[chunk@.len() - 2] == CR,
        chunk@[chunk@.len() - 1] == LF,
    ensures
        message_result_matches(r, spec_parse_message(chunk@.take(chunk@.len() - 2))),
{
    let payload = slice_subrange(chunk, 0, chunk.len() - 2);
    proof {
        assert(payload@ =~= chunk@.take(chunk@.len() - 2));
    }
    BidAskTcpMessage::parse(payload)
}

/// The fixed keepalive payload a transport sends: it is stateless, so one
/// shared value serves every connection.
pub fn get_ping() -> (m: BidAskTcpMessage)
    ensures
        m@ == MessageModel::Ping,
{
    BidAskTcpMessage::Ping
}

} // verus!
