use bid_ask_tcp::date_utils::{parse_tcp_feed_date, write_date};
use bid_ask_tcp::number_text::check_float_text;
use bid_ask_tcp::{BidAskDataTcpModel, BidAskDateTimeTcpModel, SerializeError, UtcDateTime};

#[test]
fn test_deserialize() {
    let message = b"A BINANCE EURUSD B1.55555 A2.55555 50000000 S20230213142225.555";
    let result = BidAskDataTcpModel::deserialize(message).unwrap();

    assert_eq!(result.exchange_id, "BINANCE");
    assert_eq!(result.instrument_id, "EURUSD");
    assert_eq!(result.bid.parse::<f64>().unwrap(), 1.55555);
    assert_eq!(result.ask.parse::<f64>().unwrap(), 2.55555);
    assert_eq!(result.volume.parse::<f64>().unwrap(), 50000000.0);

    let is_source = match result.date_time {
        BidAskDateTimeTcpModel::Source(_) => true,
        BidAskDateTimeTcpModel::Our(_) => false,
        BidAskDateTimeTcpModel::Generated(_) => false,
    };

    assert_eq!(is_source, true);
}

#[test]
fn test_serialize() {
    let message = "A BINANCE EURUSD B1.55555 A2.55555 50000000 S20230213142225.555";

    let dt = UtcDateTime {
        year: 2023,
        month: 2,
        day: 13,
        hour: 14,
        minute: 22,
        second: 25,
        millisecond: 555,
    };

    let result = BidAskDataTcpModel {
        exchange_id: "BINANCE".to_string(),
        instrument_id: "EURUSD".to_string(),
        bid: "1.55555".to_string(),
        ask: "2.55555".to_string(),
        volume: "50000000".to_string(),
        date_time: BidAskDateTimeTcpModel::Source(dt),
    };

    let mut serialized: Vec<u8> = Vec::new();

    result.serialize(&mut serialized);

    assert_eq!(String::from_utf8(serialized).unwrap(), message);
}

#[test]
fn test_write_date() {
    let dt = UtcDateTime {
        year: 2015,
        month: 5,
        day: 12,
        hour: 12,
        minute: 13,
        second: 14,
        millisecond: 100,
    };

    let mut buffer = Vec::new();

    write_date(&mut buffer, dt);

    println!("{:?}", std::str::from_utf8(buffer.as_slice()).unwrap());
}

#[test]
fn deserialize_timestamp_field_exactly() {
    let message = b"A BINANCE EURUSD B1.55555 A2.55555 50000000 S20230213142225.555";
    let result = BidAskDataTcpModel::deserialize(message).unwrap();
    let expected = UtcDateTime {
        year: 2023,
        month: 2,
        day: 13,
        hour: 14,
        minute: 22,
        second: 25,
        millisecond: 555,
    };
    assert_eq!(
        result.date_time,
        BidAskDateTimeTcpModel::Source(expected)
    );
}

#[test]
fn deserialize_accepts_unprefixed_bid_and_ask() {
    let prefixed = b"A BINANCE EURUSD B1.55555 A2.55555 50000000 S20230213142225.555";
    let bare = b"A BINANCE EURUSD 1.55555 2.55555 50000000 S20230213142225.555";
    let a = BidAskDataTcpModel::deserialize(prefixed).unwrap();
    let b = BidAskDataTcpModel::deserialize(bare).unwrap();
    assert_eq!(a, b);
    assert_eq!(b.bid, "1.55555");
    assert_eq!(b.ask, "2.55555");
}

#[test]
fn serialize_always_emits_prefixes() {
    let bare = b"A BINANCE EURUSD 1.5 2.5 10 S20230213142225";
    let rec = BidAskDataTcpModel::deserialize(bare).unwrap();
    let mut out: Vec<u8> = Vec::new();
    rec.serialize(&mut out);
    assert_eq!(
        String::from_utf8(out).unwrap(),
        "A BINANCE EURUSD B1.5 A2.5 10 S20230213142225"
    );
}

#[test]
fn deserialize_missing_field() {
    let r = BidAskDataTcpModel::deserialize(b"A BINANCE EURUSD B1.5 A2.5 10");
    assert_eq!(r.unwrap_err(), SerializeError::MissingField);
}

#[test]
fn deserialize_invalid_utf8_field() {
    let message = [65u8, 32, 0xFF, 32, 66, 32, 49, 32, 50, 32, 51, 32, 83];
    let r = BidAskDataTcpModel::deserialize(&message);
    assert_eq!(r.unwrap_err(), SerializeError::InvalidUtf8);
}

#[test]
fn deserialize_invalid_number() {
    let r = BidAskDataTcpModel::deserialize(b"A BINANCE EURUSD B1.5x A2.5 10 S20230213142225");
    assert_eq!(r.unwrap_err(), SerializeError::InvalidNumber);
    let r = BidAskDataTcpModel::deserialize(b"A BINANCE EURUSD B1.5 A2..5 10 S20230213142225");
    assert_eq!(r.unwrap_err(), SerializeError::InvalidNumber);
    let r = BidAskDataTcpModel::deserialize(b"A BINANCE EURUSD B1.5 A2.5 . S20230213142225");
    assert_eq!(r.unwrap_err(), SerializeError::InvalidNumber);
}

#[test]
fn deserialize_special_float_words() {
    let r =
        BidAskDataTcpModel::deserialize(b"A BINANCE EURUSD Binf A-NaN +2e-3 S20230213142225")
            .unwrap();
    assert_eq!(r.bid, "inf");
    assert_eq!(r.ask, "-NaN");
    assert_eq!(r.volume, "+2e-3");
    assert!(r.bid.parse::<f64>().is_ok());
    assert!(r.ask.parse::<f64>().unwrap().is_nan());
    assert_eq!(r.volume.parse::<f64>().unwrap(), 0.002);
}

#[test]
fn timestamp_tag_errors() {
    let r = BidAskDataTcpModel::deserialize(b"A BINANCE EURUSD B1.5 A2.5 10 X20230213142225");
    assert_eq!(r.unwrap_err(), SerializeError::InvalidDateMarker);
    let r = BidAskDataTcpModel::deserialize(b"A BINANCE EURUSD B1.5 A2.5 10 ");
    assert_eq!(r.unwrap_err(), SerializeError::MissingDateMarker);
}

#[test]
fn timestamp_date_errors() {
    // month 13 is no real date
    let r = BidAskDataTcpModel::deserialize(b"A BINANCE EURUSD B1.5 A2.5 10 S20231332142225");
    assert_eq!(r.unwrap_err(), SerializeError::InvalidDate);
    // too few digits
    let r = BidAskDataTcpModel::deserialize(b"A BINANCE EURUSD B1.5 A2.5 10 S2023");
    assert_eq!(r.unwrap_err(), SerializeError::InvalidDate);
    // timestamp text after the tag is not UTF-8
    let mut message = b"A BINANCE EURUSD B1.5 A2.5 10 S".to_vec();
    message.push(0xFF);
    let r = BidAskDataTcpModel::deserialize(&message);
    assert_eq!(r.unwrap_err(), SerializeError::DateSerializeError);
}

#[test]
fn leap_year_days() {
    // February 29 exists in 2024 but not in 2023
    let ok = BidAskDataTcpModel::deserialize(b"A B E B1 A2 3 S20240229120000");
    assert!(ok.is_ok());
    let bad = BidAskDataTcpModel::deserialize(b"A B E B1 A2 3 S20230229120000");
    assert_eq!(bad.unwrap_err(), SerializeError::InvalidDate);
}

#[test]
fn short_millisecond_fractions_pad_right() {
    let r = BidAskDataTcpModel::deserialize(b"A B E B1 A2 3 S20230213142225.5").unwrap();
    match r.date_time {
        BidAskDateTimeTcpModel::Source(dt) => assert_eq!(dt.millisecond, 500),
        _ => panic!("wrong provenance"),
    }
    let r = BidAskDataTcpModel::deserialize(b"A B E B1 A2 3 S20230213142225.55").unwrap();
    match r.date_time {
        BidAskDateTimeTcpModel::Source(dt) => assert_eq!(dt.millisecond, 550),
        _ => panic!("wrong provenance"),
    }
}

#[test]
fn number_text_grammar() {
    let good = [
        "1", "1.5", ".5", "7.", "+1", "-1.5e-10", "1E5", "inf", "Infinity", "nan", "-NaN", "+inf",
    ];
    for text in good {
        assert!(check_float_text(text.as_bytes()));
    }
    let bad = [
        "", "+", ".", "e5", "1.5.5", "1e", "1e+", "in", "infinit", "nanx", "B1", "1x",
    ];
    for text in bad {
        assert!(!check_float_text(text.as_bytes()));
    }
}

#[test]
fn lax_positional_reading() {
    // the marker field is ignored, an empty identifier is copied verbatim,
    // and fields after the timestamp are ignored
    let r = BidAskDataTcpModel::deserialize(b"Z  EURUSD B1.5 A2.5 10 S20230213142225 junk")
        .unwrap();
    assert_eq!(r.exchange_id, "");
    assert_eq!(r.instrument_id, "EURUSD");
    let same = BidAskDataTcpModel::deserialize(b"A  EURUSD B1.5 A2.5 10 S20230213142225").unwrap();
    assert_eq!(r, same);
}

#[test]
fn compact_date_round_trip() {
    let cases = [
        (
            UtcDateTime {
                year: 2023,
                month: 2,
                day: 13,
                hour: 14,
                minute: 22,
                second: 25,
                millisecond: 555,
            },
            "20230213142225.555",
        ),
        (
            UtcDateTime {
                year: 2015,
                month: 5,
                day: 12,
                hour: 12,
                minute: 13,
                second: 14,
                millisecond: 100,
            },
            "20150512121314.100",
        ),
        (
            UtcDateTime {
                year: 1999,
                month: 12,
                day: 31,
                hour: 23,
                minute: 59,
                second: 59,
                millisecond: 0,
            },
            "19991231235959",
        ),
        (
            UtcDateTime {
                year: 7,
                month: 1,
                day: 2,
                hour: 3,
                minute: 4,
                second: 5,
                millisecond: 6,
            },
            "00070102030405.006",
        ),
    ];
    for (dt, text) in cases {
        let mut buffer: Vec<u8> = Vec::new();
        write_date(&mut buffer, dt);
        assert_eq!(String::from_utf8(buffer.clone()).unwrap(), text);
        assert_eq!(parse_tcp_feed_date(&buffer), Some(dt));
    }
}

#[test]
fn compact_date_rejects_bad_shapes() {
    assert_eq!(parse_tcp_feed_date(b""), None);
    assert_eq!(parse_tcp_feed_date(b"2023021314222"), None);
    assert_eq!(parse_tcp_feed_date(b"20230213142225."), None);
    assert_eq!(parse_tcp_feed_date(b"20230213142225.5555"), None);
    assert_eq!(parse_tcp_feed_date(b"20230213142225x555"), None);
    assert_eq!(parse_tcp_feed_date(b"2023021314222x"), None);
    // hour 24 is no real time of day
    assert_eq!(parse_tcp_feed_date(b"20230213242225"), None);
}

#[test]
fn provenance_tags_round_trip() {
    let dt = UtcDateTime {
        year: 2024,
        month: 5,
        day: 7,
        hour: 15,
        minute: 34,
        second: 42,
        millisecond: 320,
    };
    for date_time in [
        BidAskDateTimeTcpModel::Source(dt),
        BidAskDateTimeTcpModel::Our(dt),
        BidAskDateTimeTcpModel::Generated(dt),
    ] {
        let mut out: Vec<u8> = Vec::new();
        date_time.serialize(&mut out);
        let back = BidAskDateTimeTcpModel::deserialize(&out).unwrap();
        assert_eq!(back, date_time);
    }
}
