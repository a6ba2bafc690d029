//! The tick record: its fields, its wire form, and the proof that decoding
//! undoes encoding.
//!
//! Wire form of a record payload, ASCII, fields separated by one space byte:
//!
//! ```text
//! A <exchange_id> <instrument_id> B<bid> A<ask> <volume> <tag><timestamp>
//! ```
//!
//! Decoding is laxer than encoding: the `B` and `A` prefix letters on bid
//! and ask may be absent, and extra fields after the timestamp are ignored.

use crate::date_utils::{
    lemma_compact_bytes, lemma_compact_round_trip, parse_tcp_feed_date, spec_parse_compact,
    spec_write_compact, write_date, UtcDateTime,
};
use crate::number_text::{check_float_text, is_float_text, lemma_float_text_bytes};
use crate::split::{
    lemma_split_fields_concat, lemma_split_fields_whole, split_fields,
    split_payload,
};
use crate::text::{
    check_utf8, field_text_ok, field_to_string, lemma_ascii_valid_utf8,
};
use crate::SPACE;
use vstd::prelude::*;
use vstd::slice::slice_subrange;
use vstd::utf8::{
    decode_utf8, encode_utf8, encode_utf8_decode_utf8, encode_utf8_valid_utf8, valid_utf8,
};

verus! {

/// Provenance tag byte for a timestamp reported by the source exchange (`S`).
pub const SOURCE_DATE_TIME: u8 = 83;

/// Provenance tag byte for a derived timestamp (`G`).
pub const GENERATED_DATE_TIME: u8 = 71;

/// Provenance tag byte for a locally recorded timestamp (`O`).
pub const OUR_DATE_TIME: u8 = 79;

/// Leading marker byte of every tick record payload (`A`).
pub const TICK_MARKER: u8 = 65;

/// Optional prefix letter of the bid field (`B`).
pub const BID_PREFIX: u8 = 66;

/// Optional prefix letter of the ask field (`A`).
pub const ASK_PREFIX: u8 = 65;

/// Why decoding a message failed. Each failure is fatal to the one message,
/// never to the connection.
#[derive(Clone, Copy, Debug, PartialEq, Eq, Structural)]
pub enum SerializeError {
    /// Fewer than seven positional fields are present.
    MissingField,
    /// A text field is not valid UTF-8.
    InvalidUtf8,
    /// Bid, ask or volume is not number text.
    InvalidNumber,
    /// The timestamp digits do not form a real calendar date and time.
    InvalidDate,
    /// The timestamp tag byte is unrecognized.
    InvalidDateMarker,
    /// The timestamp field is empty.
    MissingDateMarker,
    /// The timestamp text after the tag byte is not valid UTF-8.
    DateSerializeError,
}

/// A UTC instant tagged with its provenance.
#[derive(Clone, Copy, Debug, PartialEq, Eq, Structural)]
pub enum BidAskDateTimeTcpModel {
    /// Time reported by the originating exchange.
    Source(UtcDateTime),
    /// Time recorded by the local system.
    Our(UtcDateTime),
    /// Time the value was computed or derived.
    Generated(UtcDateTime),
}

impl BidAskDateTimeTcpModel {
    /// The instant, whatever its provenance.
    pub open spec fn date_time(self) -> UtcDateTime {
        match self {
            BidAskDateTimeTcpModel::Source(dt) => dt,
            BidAskDateTimeTcpModel::Our(dt) => dt,
            BidAskDateTimeTcpModel::Generated(dt) => dt,
        }
    }

    /// The provenance tag byte.
    pub open spec fn marker(self) -> u8 {
        match self {
            BidAskDateTimeTcpModel::Source(_) => SOURCE_DATE_TIME,
            BidAskDateTimeTcpModel::Our(_) => OUR_DATE_TIME,
            BidAskDateTimeTcpModel::Generated(_) => GENERATED_DATE_TIME,
        }
    }

    /// The instant is a real calendar date and time.
    pub open spec fn valid(self) -> bool {
        self.date_time().valid()
    }

    /// Wire form of the timestamp field: the tag byte, then the compact text.
    pub open spec fn spec_serialize(self) -> Seq<u8> {
        seq![self.marker()] + spec_write_compact(self.date_time())
    }

    /// What decoding a timestamp field yields: an empty field has no tag;
    /// a tag other than `S`, `G` or `O` is unrecognized; after the tag, the
    /// text must be UTF-8 and must spell a real instant.
    pub open spec fn spec_deserialize(b: Seq<u8>) -> Result<Self, SerializeError> {
        if b.len() == 0 {
            Err(SerializeError::MissingDateMarker)
        } else if b[0] != OUR_DATE_TIME && b[0] != SOURCE_DATE_TIME && b[0] != GENERATED_DATE_TIME {
            Err(SerializeError::InvalidDateMarker)
        } else if !valid_utf8(b.skip(1)) {
            Err(SerializeError::DateSerializeError)
        } else {
            match spec_parse_compact(b.skip(1)) {
                None => Err(SerializeError::InvalidDate),
                Some(dt) => Ok(
                    if b[0] == OUR_DATE_TIME {
                        BidAskDateTimeTcpModel::Our(dt)
                    } else if b[0] == SOURCE_DATE_TIME {
                        BidAskDateTimeTcpModel::Source(dt)
                    } else {
                        BidAskDateTimeTcpModel::Generated(dt)
                    },
                ),
            }
        }
    }

    /// Append the wire form of the timestamp field to the output buffer.
    pub fn serialize(&self, out: &mut Vec<u8>)
        requires
            self.valid(),
        ensures
            final(out)@ == old(out)@ + self.spec_serialize(),
    {
        match self {
            BidAskDateTimeTcpModel::Source(date) => {
                out.push(SOURCE_DATE_TIME);
                write_date(out, *date);
            },
            BidAskDateTimeTcpModel::Our(date) => {
                out.push(OUR_DATE_TIME);
                write_date(out, *date);
            },
            BidAskDateTimeTcpModel::Generated(date) => {
                out.push(GENERATED_DATE_TIME);
                write_date(out, *date);
            },
        }
        proof {
            assert(out@ =~= old(out)@ + self.spec_serialize());
        }
    }

    /// Decode a timestamp field.
    pub fn deserialize(date_data: &[u8]) -> (r: Result<Self, SerializeError>)
        ensures
            r == Self::spec_deserialize(date_data@),
    {
        if date_data.len() == 0 {
            return Err(SerializeError::MissingDateMarker);
        }
        let marker = date_data[0];
        if marker != 79 && marker != 83 && marker != 71 {
            return Err(SerializeError::InvalidDateMarker);
        }
        let rest = slice_subrange(date_data, 1, date_data.len());
        proof {
            assert(rest@ =~= date_data@.skip(1));
        }
        if !check_utf8(rest) {
            return Err(SerializeError::DateSerializeError);
        }
        match parse_tcp_feed_date(rest) {
            None => Err(SerializeError::InvalidDate),
            Some(dt) => {
                if marker == 79 {
                    Ok(BidAskDateTimeTcpModel::Our(dt))
                } else if marker == 83 {
                    Ok(BidAskDateTimeTcpModel::Source(dt))
                } else {
                    Ok(BidAskDateTimeTcpModel::Generated(dt))
                }
            },
        }
    }
}

/// A market tick: one bid/ask quote for one instrument at one instant.
///
/// The numeric fields travel as their decimal text, held verbatim: a parsed
/// record keeps exactly the digits the producer sent, and a consumer reads
/// them as 64-bit floats outside this crate.
#[derive(Clone, Debug, PartialEq)]
pub struct BidAskDataTcpModel {
    pub exchange_id: String,
    pub instrument_id: String,
    pub bid: String,
    pub ask: String,
    pub volume: String,
    pub date_time: BidAskDateTimeTcpModel,
}

/// The mathematical image of a tick record.
pub ghost struct TickModel {
    pub exchange_id: Seq<char>,
    pub instrument_id: Seq<char>,
    pub bid: Seq<char>,
    pub ask: Seq<char>,
    pub volume: Seq<char>,
    pub date_time: BidAskDateTimeTcpModel,
}

impl View for BidAskDataTcpModel {
    type V = TickModel;

    open spec fn view(&self) -> TickModel {
        TickModel {
            exchange_id: self.exchange_id@,
            instrument_id: self.instrument_id@,
            bid: self.bid@,
            ask: self.ask@,
            volume: self.volume@,
            date_time: self.date_time,
        }
    }
}

impl TickModel {
    /// Protocol invariant on a record: the identifier fields are non-empty
    /// and free of separator and delimiter bytes, the numeric fields are
    /// number text, and the timestamp is a real instant.
    pub open spec fn wf(self) -> bool {
        &&& field_text_ok(self.exchange_id)
        &&& field_text_ok(self.instrument_id)
        &&& is_float_text(encode_utf8(self.bid))
        &&& is_float_text(encode_utf8(self.ask))
        &&& is_float_text(encode_utf8(self.volume))
        &&& self.date_time.valid()
    }
}

/// Wire form of a tick record payload.
pub open spec fn spec_serialize_record(t: TickModel) -> Seq<u8> {
    seq![TICK_MARKER, SPACE] + encode_utf8(t.exchange_id) + seq![SPACE] + encode_utf8(
        t.instrument_id,
    ) + seq![SPACE, BID_PREFIX] + encode_utf8(t.bid) + seq![SPACE, ASK_PREFIX] + encode_utf8(t.ask)
        + seq![SPACE] + encode_utf8(t.volume) + seq![SPACE] + t.date_time.spec_serialize()
}

/// A number field with its optional prefix letter removed.
pub open spec fn strip_number_prefix(b: Seq<u8>, p: u8) -> Seq<u8> {
    if b.len() > 0 && b[0] == p {
        b.skip(1)
    } else {
        b
    }
}

/// What decoding a tick record payload yields. The payload splits on spaces
/// into positional fields; field 0 is the record marker and is ignored, as
/// is anything after field 6. The five text-bearing fields must be UTF-8,
/// at least seven fields must be present, bid and ask lose an optional
/// prefix letter, the three numeric fields must be number text, and the
/// timestamp field must decode.
pub open spec fn spec_deserialize_record(src: Seq<u8>) -> Result<TickModel, SerializeError> {
    let fields = split_fields(src);
    if exists|i: int| 1 <= i <= 5 && i < fields.len() && !valid_utf8(#[trigger] fields[i]) {
        Err(SerializeError::InvalidUtf8)
    } else if fields.len() < 7 {
        Err(SerializeError::MissingField)
    } else {
        let bid = strip_number_prefix(fields[3], BID_PREFIX);
        let ask = strip_number_prefix(fields[4], ASK_PREFIX);
        if !is_float_text(bid) || !is_float_text(ask) || !is_float_text(fields[5]) {
            Err(SerializeError::InvalidNumber)
        } else {
            match BidAskDateTimeTcpModel::spec_deserialize(fields[6]) {
                Err(e) => Err(e),
                Ok(dtm) => Ok(
                    TickModel {
                        exchange_id: decode_utf8(fields[1]),
                        instrument_id: decode_utf8(fields[2]),
                        bid: decode_utf8(bid),
                        ask: decode_utf8(ask),
                        volume: decode_utf8(fields[5]),
                        date_time: dtm,
                    },
                ),
            }
        }
    }
}

/// The runtime decode result agrees with the specified one: same error, or
/// a record whose image is the specified model.
pub open spec fn record_result_matches(
    r: Result<BidAskDataTcpModel, SerializeError>,
    m: Result<TickModel, SerializeError>,
) -> bool {
    match (r, m) {
        (Ok(rec), Ok(t)) => rec@ == t,
        (Err(e1), Err(e2)) => e1 == e2,
        _ => false,
    }
}

/// Append the UTF-8 bytes of a text field to the output buffer.
fn write_text(out: &mut Vec<u8>, s: &String)
    ensures
        final(out)@ == old(out)@ + encode_utf8(s@),
{
    out.extend_from_slice(s.as_str().as_bytes());
}

fn strip_prefix_slice<'a>(b: &'a [u8], p: u8) -> (r: &'a [u8])
    ensures
        r@ == strip_number_prefix(b@, p),
{
    if b.len() > 0 && b[0] == p {
        let r = slice_subrange(b, 1, b.len());
        proof {
            assert(r@ =~= b@.skip(1));
        }
        r
    } else {
        b
    }
}

impl BidAskDataTcpModel {
    /// Append the wire form of the record payload to the output buffer.
    #[verifier::rlimit(50)]
    pub fn serialize(&self, out: &mut Vec<u8>)
        requires
            self.date_time.valid(),
        ensures
            final(out)@ == old(out)@ + spec_serialize_record(self@),
    {
        out.push(TICK_MARKER);
        out.push(SPACE);
        write_text(out, &self.exchange_id);
        out.push(SPACE);
        write_text(out, &self.instrument_id);
        out.push(SPACE);
        out.push(BID_PREFIX);
        write_text(out, &self.bid);
        out.push(SPACE);
        out.push(ASK_PREFIX);
        write_text(out, &self.ask);
        out.push(SPACE);
        write_text(out, &self.volume);
        out.push(SPACE);
        self.date_time.serialize(out);
        proof {
            assert(out@ =~= old(out)@ + spec_serialize_record(self@));
        }
    }

    /// Decode a tick record payload.
    pub fn deserialize(src: &[u8]) -> (r: Result<Self, SerializeError>)
        ensures
            record_result_matches(r, spec_deserialize_record(src@)),
    {
        let chunks = split_payload(src);
        let ghost fields = split_fields(src@);
        let n = chunks.len();
        let mut i: usize = 1;
        while i <= 5 && i < n
            invariant
                1 <= i <= 6,
                n == chunks@.len(),
                n == fields.len(),
                fields == split_fields(src@),
                forall|k: int| 0 <= k < n ==> chunks@[k]@ == fields[k],
                forall|j: int| 1 <= j < i && j < n ==> valid_utf8(#[trigger] fields[j]),
            decreases 6 - i,
        {
            if !check_utf8(chunks[i].as_slice()) {
                return Err(SerializeError::InvalidUtf8);
            }
            i += 1;
        }
        proof {
            assert forall|j: int| 1 <= j <= 5 && j < fields.len() implies valid_utf8(
                #[trigger] fields[j],
            ) by {}
        }
        if n < 7 {
            return Err(SerializeError::MissingField);
        }
        let bid_slice = strip_prefix_slice(chunks[3].as_slice(), BID_PREFIX);
        if !check_float_text(bid_slice) {
            return Err(SerializeError::InvalidNumber);
        }
        let ask_slice = strip_prefix_slice(chunks[4].as_slice(), ASK_PREFIX);
        if !check_float_text(ask_slice) {
            return Err(SerializeError::InvalidNumber);
        }
        if !check_float_text(chunks[5].as_slice()) {
            return Err(SerializeError::InvalidNumber);
        }
        let date_time = match BidAskDateTimeTcpModel::deserialize(chunks[6].as_slice()) {
            Ok(d) => d,
            Err(e) => {
                return Err(e);
            },
        };
        // the None arms below are infeasible: these fields were proved
        // valid UTF-8 above, and number text is ASCII
        let exchange_id = match field_to_string(chunks[1].as_slice()) {
            Some(s) => s,
            None => {
                return Err(SerializeError::InvalidUtf8);
            },
        };
        let instrument_id = match field_to_string(chunks[2].as_slice()) {
            Some(s) => s,
            None => {
                return Err(SerializeError::InvalidUtf8);
            },
        };
        proof {
            lemma_float_text_bytes(bid_slice@);
            lemma_ascii_valid_utf8(bid_slice@);
            lemma_float_text_bytes(ask_slice@);
            lemma_ascii_valid_utf8(ask_slice@);
            lemma_float_text_bytes(fields[5]);
            lemma_ascii_valid_utf8(fields[5]);
        }
        let bid = match field_to_string(bid_slice) {
            Some(s) => s,
            None => {
                return Err(SerializeError::InvalidNumber);
            },
        };
        let ask = match field_to_string(ask_slice) {
            Some(s) => s,
            None => {
                return Err(SerializeError::InvalidNumber);
            },
        };
        let volume = match field_to_string(chunks[5].as_slice()) {
            Some(s) => s,
            None => {
                return Err(SerializeError::InvalidNumber);
            },
        };
        Ok(BidAskDataTcpModel { exchange_id, instrument_id, bid, ask, volume, date_time })
    }
}

/// Law: on decode, the bid and ask prefix letters are optional. A number
/// field is read the same whether or not its prefix letter is present,
/// because number text never begins with a prefix letter; on encode the
/// prefix is always emitted.
pub proof fn lemma_number_prefix_optional(x: Seq<u8>)
    requires
        is_float_text(x),
    ensures
        strip_number_prefix(seq![BID_PREFIX] + x, BID_PREFIX) == x,
        strip_number_prefix(seq![ASK_PREFIX] + x, ASK_PREFIX) == x,
        strip_number_prefix(x, BID_PREFIX) == x,
        strip_number_prefix(x, ASK_PREFIX) == x,
{
    lemma_float_text_bytes(x);
    assert((seq![BID_PREFIX] + x)[0] == BID_PREFIX);
    assert((seq![ASK_PREFIX] + x)[0] == ASK_PREFIX);
    assert((seq![BID_PREFIX] + x).skip(1) =~= x);
    assert((seq![ASK_PREFIX] + x).skip(1) =~= x);
}

/// Law: parsing a serialized record gives the record back. Every
/// well-formed record survives the round trip through its wire form.
#[verifier::rlimit(100)]
pub proof fn lemma_record_round_trip(t: TickModel)
    requires
        t.wf(),
    ensures
        spec_deserialize_record(spec_serialize_record(t)) == Ok::<TickModel, SerializeError>(t),
{
    let e = encode_utf8(t.exchange_id);
    let ii = encode_utf8(t.instrument_id);
    let b = encode_utf8(t.bid);
    let a = encode_utf8(t.ask);
    let v = encode_utf8(t.volume);
    let d = t.date_time.spec_serialize();
    let dt = t.date_time.date_time();
    let c0 = seq![TICK_MARKER];
    let c3 = seq![BID_PREFIX] + b;
    let c4 = seq![ASK_PREFIX] + a;
    let s5 = v + seq![SPACE] + d;
    let s4 = c4 + seq![SPACE] + s5;
    let s3 = c3 + seq![SPACE] + s4;
    let s2 = ii + seq![SPACE] + s3;
    let s1 = e + seq![SPACE] + s2;
    let s0 = c0 + seq![SPACE] + s1;
    let s = spec_serialize_record(t);
    assert(s =~= s0);
    lemma_float_text_bytes(b);
    lemma_float_text_bytes(a);
    lemma_float_text_bytes(v);
    lemma_compact_bytes(dt);
    assert(d.len() > 0 && d[0] == t.date_time.marker());
    assert(d.skip(1) =~= spec_write_compact(dt));
    assert forall|i: int| 0 <= i < d.len() implies #[trigger] d[i] != SPACE && d[i] < 128 by {
        if i > 0 {
            assert(d[i] == spec_write_compact(dt)[i - 1]);
        }
    }
    assert forall|i: int| 0 <= i < c3.len() implies #[trigger] c3[i] != SPACE && c3[i] < 128 by {
        if i > 0 {
            assert(c3[i] == b[i - 1]);
        }
    }
    assert forall|i: int| 0 <= i < c4.len() implies #[trigger] c4[i] != SPACE && c4[i] < 128 by {
        if i > 0 {
            assert(c4[i] == a[i - 1]);
        }
    }
    lemma_split_fields_concat(c0, s1);
    lemma_split_fields_concat(e, s2);
    lemma_split_fields_concat(ii, s3);
    lemma_split_fields_concat(c3, s4);
    lemma_split_fields_concat(c4, s5);
    lemma_split_fields_concat(v, d);
    lemma_split_fields_whole(d);
    let fields = split_fields(s);
    assert(fields =~~= seq![c0, e, ii, c3, c4, v, d]);
    encode_utf8_valid_utf8(t.exchange_id);
    encode_utf8_valid_utf8(t.instrument_id);
    lemma_ascii_valid_utf8(c3);
    lemma_ascii_valid_utf8(c4);
    lemma_ascii_valid_utf8(v);
    assert(fields.len() == 7);
    assert(valid_utf8(fields[1]) && valid_utf8(fields[2]) && valid_utf8(fields[3]) && valid_utf8(
        fields[4],
    ) && valid_utf8(fields[5]));
    assert(strip_number_prefix(fields[3], BID_PREFIX) == b) by {
        assert(c3[0] == BID_PREFIX);
        assert(c3.skip(1) =~= b);
    }
    assert(strip_number_prefix(fields[4], ASK_PREFIX) == a) by {
        assert(c4[0] == ASK_PREFIX);
        assert(c4.skip(1) =~= a);
    }
    lemma_ascii_valid_utf8(d.skip(1));
    lemma_compact_round_trip(dt);
    assert(BidAskDateTimeTcpModel::spec_deserialize(d) == Ok::<BidAskDateTimeTcpModel, SerializeError>(t.date_time)) by {
        match t.date_time {
            BidAskDateTimeTcpModel::Source(x) => {
                assert(d[0] == SOURCE_DATE_TIME);
            },
            BidAskDateTimeTcpModel::Our(x) => {
                assert(d[0] == OUR_DATE_TIME);
            },
            BidAskDateTimeTcpModel::Generated(x) => {
                assert(d[0] == GENERATED_DATE_TIME);
            },
        }
    }
    encode_utf8_decode_utf8(t.exchange_id);
    encode_utf8_decode_utf8(t.instrument_id);
    encode_utf8_decode_utf8(t.bid);
    encode_utf8_decode_utf8(t.ask);
    encode_utf8_decode_utf8(t.volume);
    assert(spec_deserialize_record(s) == Ok::<TickModel, SerializeError>(t));
}

} // verus!
