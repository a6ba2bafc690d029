use bid_ask_tcp::framing::{get_ping, parse_delimited, write_delimited};
use bid_ask_tcp::{
    BidAskDataTcpModel, BidAskDateTimeTcpModel, BidAskTcpMessage, SerializeError, UtcDateTime,
};

#[test]
fn test_message() {
    let src = "A binance BTCUSD B63687.33 A63687.34 0 S20240507153442.320";

    let itm = BidAskTcpMessage::parse(src.as_bytes()).unwrap();

    println!("{:?}", itm);
}

#[test]
fn ping_pong_round_trip() {
    for msg in [BidAskTcpMessage::Ping, BidAskTcpMessage::Pong] {
        let mut out: Vec<u8> = Vec::new();
        msg.serialize(&mut out);
        let back = BidAskTcpMessage::parse(&out).unwrap();
        assert_eq!(back, msg);
    }
}

#[test]
fn keepalive_literals() {
    let mut out: Vec<u8> = Vec::new();
    BidAskTcpMessage::Ping.serialize(&mut out);
    assert_eq!(out, b"PING");
    out.clear();
    BidAskTcpMessage::Pong.serialize(&mut out);
    assert_eq!(out, b"PONG");
}

#[test]
fn keepalives_never_parse_as_ticks() {
    let ping = BidAskTcpMessage::parse(b"PING").unwrap();
    assert!(ping.is_ping());
    assert!(!ping.is_bid_ask());
    let pong = BidAskTcpMessage::parse(b"PONG").unwrap();
    assert!(pong.is_pong());
    assert!(!pong.is_bid_ask());
}

#[test]
fn four_byte_non_keepalive_is_a_tick_attempt() {
    // four bytes that are not a keepalive word fall through to record
    // parsing, and this fragment is short on fields
    let r = BidAskTcpMessage::parse(b"PINX");
    assert_eq!(r.unwrap_err(), SerializeError::MissingField);
}

#[test]
fn predicates() {
    let dt = UtcDateTime {
        year: 2023,
        month: 2,
        day: 13,
        hour: 14,
        minute: 22,
        second: 25,
        millisecond: 0,
    };
    let rec = BidAskDataTcpModel {
        exchange_id: "BINANCE".to_string(),
        instrument_id: "EURUSD".to_string(),
        bid: "1.5".to_string(),
        ask: "2.5".to_string(),
        volume: "10".to_string(),
        date_time: BidAskDateTimeTcpModel::Our(dt),
    };
    let msg = BidAskTcpMessage::BidAsk(rec);
    assert!(msg.is_bid_ask());
    assert!(!msg.is_ping());
    assert!(!msg.is_pong());
    assert!(get_ping().is_ping());
}

#[test]
fn tick_message_round_trip() {
    let dt = UtcDateTime {
        year: 2024,
        month: 5,
        day: 7,
        hour: 15,
        minute: 34,
        second: 42,
        millisecond: 320,
    };
    let rec = BidAskDataTcpModel {
        exchange_id: "binance".to_string(),
        instrument_id: "BTCUSD".to_string(),
        bid: "63687.33".to_string(),
        ask: "63687.34".to_string(),
        volume: "0".to_string(),
        date_time: BidAskDateTimeTcpModel::Source(dt),
    };
    let msg = BidAskTcpMessage::BidAsk(rec);
    let mut out: Vec<u8> = Vec::new();
    msg.serialize(&mut out);
    assert_eq!(
        String::from_utf8(out.clone()).unwrap(),
        "A binance BTCUSD B63687.33 A63687.34 0 S20240507153442.320"
    );
    let back = BidAskTcpMessage::parse(&out).unwrap();
    assert_eq!(back, msg);
}

#[test]
fn framed_round_trip() {
    let mut out: Vec<u8> = Vec::new();
    write_delimited(&BidAskTcpMessage::Ping, &mut out);
    assert_eq!(out, b"PING\r\n");
    let back = parse_delimited(&out).unwrap();
    assert_eq!(back, BidAskTcpMessage::Ping);

    let dt = UtcDateTime {
        year: 2023,
        month: 2,
        day: 13,
        hour: 14,
        minute: 22,
        second: 25,
        millisecond: 555,
    };
    let rec = BidAskDataTcpModel {
        exchange_id: "BINANCE".to_string(),
        instrument_id: "EURUSD".to_string(),
        bid: "1.55555".to_string(),
        ask: "2.55555".to_string(),
        volume: "50000000".to_string(),
        date_time: BidAskDateTimeTcpModel::Source(dt),
    };
    let msg = BidAskTcpMessage::BidAsk(rec);
    out.clear();
    write_delimited(&msg, &mut out);
    assert_eq!(
        String::from_utf8(out.clone()).unwrap(),
        "A BINANCE EURUSD B1.55555 A2.55555 50000000 S20230213142225.555\r\n"
    );
    let back = parse_delimited(&out).unwrap();
    assert_eq!(back, msg);
}

#[test]
fn record_round_trip_property_cases() {
    // concrete instances of the parse-serialize inverse law
    let dts = [
        UtcDateTime {
            year: 2000,
            month: 1,
            day: 1,
            hour: 0,
            minute: 0,
            second: 0,
            millisecond: 0,
        },
        UtcDateTime {
            year: 9999,
            month: 12,
            day: 31,
            hour: 23,
            minute: 59,
            second: 59,
            millisecond: 999,
        },
        UtcDateTime {
            year: 2024,
            month: 2,
            day: 29,
            hour: 6,
            minute: 7,
            second: 8,
            millisecond: 90,
        },
    ];
    let numbers = ["0", "-12.5", "+3e10", "inf", "NaN", ".5", "7."];
    for (k, dt) in dts.iter().enumerate() {
        let rec = BidAskDataTcpModel {
            exchange_id: "venue".to_string(),
            instrument_id: "pair".to_string(),
            bid: numbers[k].to_string(),
            ask: numbers[k + 1].to_string(),
            volume: numbers[k + 2].to_string(),
            date_time: BidAskDateTimeTcpModel::Generated(*dt),
        };
        let mut out: Vec<u8> = Vec::new();
        rec.serialize(&mut out);
        let back = BidAskDataTcpModel::deserialize(&out).unwrap();
        assert_eq!(back, rec);
    }
}
