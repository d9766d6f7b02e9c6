use serde_json::Value;
use tradingview::frame::{ping_frame, try_parse_ws_packet};
use tradingview::packet::{plan_ws_package, strip_symbol_marker, PackageOutcome};
use tradingview::{format_ws_packet, parse_ws_packet, JsonValue, TradingViewPacket, WsFrame, WsItem};

/// A JSON value in the library's model.
fn to_model(v: &Value) -> JsonValue {
    match v {
        Value::Null => JsonValue::Null,
        Value::Bool(b) => JsonValue::Bool(*b),
        Value::Number(n) => JsonValue::Number(n.to_string()),
        Value::String(s) => JsonValue::String(s.clone()),
        Value::Array(a) => JsonValue::Array(a.iter().map(to_model).collect()),
        Value::Object(o) => JsonValue::Object(o.iter().map(|(k, v)| (k.clone(), to_model(v))).collect()),
    }
}

/// A model value back in `serde_json`.
fn from_model(v: &JsonValue) -> Value {
    match v {
        JsonValue::Null => Value::Null,
        JsonValue::Bool(b) => Value::Bool(*b),
        JsonValue::Number(t) => serde_json::from_str(t).unwrap(),
        JsonValue::String(s) => Value::String(s.clone()),
        JsonValue::Array(a) => Value::Array(a.iter().map(from_model).collect()),
        JsonValue::Object(o) => {
            let mut m = serde_json::Map::new();
            for (k, v) in o {
                m.insert(k.clone(), from_model(v));
            }
            Value::Object(m)
        }
    }
}

/// Reads packet text as a packet (`m` a string, `p` an optional array).
fn read_packet(text: &str) -> Option<TradingViewPacket> {
    let v: Value = serde_json::from_str(text).ok()?;
    let o = v.as_object()?;
    let m = o.get("m")?.as_str()?.to_string();
    let data = match o.get("p") {
        None | Some(Value::Null) => None,
        Some(Value::Array(a)) => Some(a.iter().map(to_model).collect()),
        Some(_) => return None,
    };
    Some(TradingViewPacket { packet_type: m, data })
}

/// The packet's JSON text.
fn packet_text(p: &TradingViewPacket) -> String {
    let mut m = serde_json::Map::new();
    m.insert("m".to_string(), Value::String(p.packet_type.clone()));
    if let Some(d) = &p.data {
        m.insert("p".to_string(), Value::Array(d.iter().map(from_model).collect()));
    }
    serde_json::to_string(&Value::Object(m)).unwrap()
}

/// Decodes a message into packets and ping numbers.
fn decode(data: &str) -> Vec<WsItem> {
    parse_ws_packet(data)
        .into_iter()
        .filter_map(|f| match f {
            WsFrame::Packet(t) => read_packet(&t).map(|p| WsItem::Packet(strip_symbol_marker(p))),
            WsFrame::Ping(n) => Some(WsItem::Ping(n)),
        })
        .collect()
}

fn json(text: &str) -> JsonValue {
    to_model(&serde_json::from_str::<Value>(text).unwrap())
}

#[test]
fn test_parse_ws_packet() {
    let data = r#"~m~208~m~{"m":"qsd","p":["xs_MNEYASv50aGa",{"n":"={\"currency-id\":\"USD\",\"symbol\":\"BITSTAMP:BTCUSD\"}","s":"ok","v":{"trade_loaded":true,"bid_size":0.39190755,"bid":27161.0,"ask_size":0.19131476,"ask":27162.0}}]}"#;

    let parsed = decode(data);

    let expected_p = vec![
        JsonValue::String("xs_MNEYASv50aGa".to_string()),
        json(r#"{"n":"{\"currency-id\":\"USD\",\"symbol\":\"BITSTAMP:BTCUSD\"}","s":"ok","v":{"trade_loaded":true,"bid_size":0.39190755,"bid":27161.0,"ask_size":0.19131476,"ask":27162.0}}"#),
    ];
    let expected_packet = TradingViewPacket { packet_type: "qsd".to_string(), data: Some(expected_p) };

    if let Some(WsItem::Packet(first_packet)) = parsed.first() {
        assert_eq!(first_packet, &expected_packet);
    } else {
        panic!("Parsed data did not contain a TradingViewPacket, but was: {:?}", parsed);
    }
}

#[test]
fn test_parse_ws_packet_ping_number() {
    let data = r#"~h~1"#;

    let parsed = decode(data);

    if let Some(WsItem::Ping(ping_number)) = parsed.first() {
        assert_eq!(ping_number, &1);
    } else {
        panic!("Parsed data did not contain a ping number, but was: {:?}", parsed);
    }
}

#[test]
fn test_parse_ws_packet_empty() {
    let data = "";
    let parsed = decode(data);
    assert!(parsed.is_empty(), "Parsed data should be empty for empty input");
}

#[test]
fn test_parse_ws_packet_invalid_json() {
    let data = r#"~m~208~m~{"m":,,"p":["xs_MNEYASv50aGa",{"n":"={\"currency-id\":\"USD\",\"symbol\":\"BITSTAMP:BTCUSD\"}","s":"ok","v":{"trade_loaded":true,"bid_size":0.39190755,"bid":27161.0,"ask_size":0.19131476,"ask":27162.0}}]}"#;
    let parsed = try_parse_ws_packet(data).map(|_| decode(data));
    assert!(parsed.is_some(), "Parsing should not fail for invalid JSON");
    assert!(parsed.unwrap().is_empty(), "Parsed data should be empty for invalid JSON");
}

#[test]
fn test_parse_ws_packet_missing_p_field() {
    let data = r#"~m~208~m~{"m":"qsd"}"#;
    let parsed = try_parse_ws_packet(data).map(|_| decode(data));
    assert!(parsed.is_some(), "Parsing should not fail for missing fields");

    if let Some(WsItem::Packet(first_packet)) = parsed.unwrap().first() {
        assert_eq!(first_packet.packet_type, "qsd".to_string());
        assert_eq!(first_packet.data, None);
    } else {
        panic!("Parsed data did not contain a TradingViewPacket",);
    }
}

#[test]
fn test_parse_ws_packet_missing_m_field() {
    let data = r#"~m~208~m~{"p":["xs_MNEYASv50aGa",{"n":"={\"currency-id\":\"USD\",\"symbol\":\"BITSTAMP:BTCUSD\"}","s":"ok","v":{"trade_loaded":true,"bid_size":0.39190755,"bid":27161.0,"ask_size":0.19131476,"ask":27162.0}}]}"#;
    let parsed = try_parse_ws_packet(data).map(|_| decode(data));
    assert!(parsed.is_some(), "Parsing should not fail for missing fields");

    if let Some(WsItem::Packet(first_packet)) = parsed.unwrap().first() {
        assert_eq!(first_packet.packet_type, "m".to_string());
        assert_eq!(
            first_packet.data,
            Some(vec![
                JsonValue::String("xs_MNEYASv50aGa".to_string()),
                json(r#"{"n":"{\"currency-id\":\"USD\",\"symbol\":\"BITSTAMP:BTCUSD\"}","s":"ok","v":{"trade_loaded":true,"bid_size":0.39190755,"bid":27161.0,"ask_size":0.19131476,"ask":27162.0}}"#),
            ])
        );
    } else {
        panic!("Parsed data did not contain a TradingViewPacket",);
    }
}

#[test]
fn test_parse_ws_packet_multiple() {
    let data = r#"~m~114~m~{"m":"qsd","p":["xs_kujC8txR2L01",{"n":"OMXSTO:OMXS30","s":"ok","v":{"minute_loaded":true,"lp_time":1730462340}}]}~m~92~m~{"m":"qsd","p":["xs_kujC8txR2L01",{"n":"OMXSTO:OMXS30","s":"ok","v":{"trade_loaded":true}}]}~m~3295~m~{"m":"qsd","p":["xs_kujC8txR2L01",{"n":"OMXSTO:OMXS30","s":"ok","v":{"first_bar_time_1d":528422400,"regular_close":2542.4079}}]}~m~97~m~{"m":"qsd","p":["xs_kujC8txR2L01",{"n":"OMXSTO:OMXS30","s":"ok","v":{"fundamental_data":false}}]}~m~63~m~{"m":"quote_completed","p":["xs_kujC8txR2L01","OMXSTO:OMXS30"]}"#;

    let parsed_packets = decode(data);

    assert_eq!(parsed_packets.len(), 5, "Expected 5 packets");

    if let WsItem::Packet(packet1) = &parsed_packets[0] {
        assert_eq!(packet1.packet_type, "qsd");
        assert!(packet1.data.is_some());
        let p_data = packet1.data.as_ref().unwrap();
        assert_eq!(p_data[0], JsonValue::String("xs_kujC8txR2L01".to_string()));
    } else {
        panic!("Packet 1 did not parse as expected");
    }

    if let WsItem::Packet(packet2) = &parsed_packets[1] {
        assert_eq!(packet2.packet_type, "qsd");
        assert!(packet2.data.is_some());
    } else {
        panic!("Packet 2 did not parse as expected");
    }

    if let WsItem::Packet(packet3) = &parsed_packets[2] {
        assert_eq!(packet3.packet_type, "qsd");
        assert!(packet3.data.is_some());
    } else {
        panic!("Packet 3 did not parse as expected");
    }

    if let WsItem::Packet(packet4) = &parsed_packets[3] {
        assert_eq!(packet4.packet_type, "qsd");
        assert!(packet4.data.is_some());
    } else {
        panic!("Packet 4 did not parse as expected");
    }

    if let WsItem::Packet(packet5) = &parsed_packets[4] {
        assert_eq!(packet5.packet_type, "quote_completed");
        assert!(packet5.data.is_some());
        let p_data = packet5.data.as_ref().unwrap();
        assert_eq!(p_data[0], JsonValue::String("xs_kujC8txR2L01".to_string()));
        assert_eq!(p_data[1], JsonValue::String("OMXSTO:OMXS30".to_string()));
    } else {
        panic!("Packet 5 did not parse as expected");
    }
}

#[test]
fn test_format_ws_packet() {
    let packet = TradingViewPacket {
        packet_type: "set_auth_token".to_owned(),
        data: Some(vec![JsonValue::String("xs".to_owned())]),
    };

    let formatted = format_ws_packet(&packet_text(&packet));

    assert_eq!(formatted, "~m~33~m~{\"m\":\"set_auth_token\",\"p\":[\"xs\"]}");
}

#[test]
fn test_format_ws_packet_ping_number() {
    let ping_number = "1";

    let ping_message = format!("~h~{}", ping_number);
    let formatted = format_ws_packet(&ping_message);

    assert_eq!(formatted, "~m~4~m~~h~1");
}

#[test]
fn frame_length_counts_utf8_bytes() {
    assert_eq!(format_ws_packet("é"), "~m~2~m~é");
    assert_eq!(format_ws_packet(""), "~m~0~m~");
    assert_eq!(format_ws_packet("abcdefghij"), "~m~10~m~abcdefghij");
}

#[test]
fn frames_decode_back_to_their_payloads() {
    let payloads = ["{\"m\":\"a\"}", "hello", "42", "-7", "={\"m\":\"x\"}"];
    let message: String = payloads.iter().map(|p| format_ws_packet(p)).collect();
    let frames = parse_ws_packet(&message);
    assert_eq!(
        frames,
        vec![
            WsFrame::Packet("{\"m\":\"a\"}".to_string()),
            WsFrame::Packet("hello".to_string()),
            WsFrame::Ping(42),
            WsFrame::Ping(-7),
            WsFrame::Packet("{\"m\":\"x\"}".to_string()),
        ]
    );
}

#[test]
fn ping_frames_decode_to_their_number() {
    for n in [0, 1, 17, -3, i32::MAX, i32::MIN] {
        let f = ping_frame(n);
        assert_eq!(f, format_ws_packet(&format!("~h~{}", n)));
        assert_eq!(parse_ws_packet(&f), vec![WsFrame::Ping(n)]);
    }
}

#[test]
fn heartbeats_and_headers_edge_cases() {
    // heartbeat markers vanish anywhere in the message
    assert_eq!(parse_ws_packet("~h~~h~"), vec![]);
    // a header needs at least one digit
    assert_eq!(parse_ws_packet("~m~~m~x"), vec![WsFrame::Packet("~m~~m~x".to_string())]);
    // the declared length is not checked
    assert_eq!(parse_ws_packet("~m~99~m~abc"), vec![WsFrame::Packet("abc".to_string())]);
    // numbers out of range are not pings
    assert_eq!(parse_ws_packet("~m~10~m~2147483648"), vec![WsFrame::Packet("2147483648".to_string())]);
    assert_eq!(parse_ws_packet("~m~2~m~+5"), vec![WsFrame::Ping(5)]);
    assert_eq!(parse_ws_packet("~m~1~m~-"), vec![WsFrame::Packet("-".to_string())]);
}

#[test]
fn wrapping_needs_one_byte_ends() {
    assert!(try_parse_ws_packet("~m~9~m~é\"p\":[1]é").is_none());
    assert_eq!(
        try_parse_ws_packet("~m~9~m~[\"p\":[1]]"),
        Some(vec![WsFrame::Packet("{\"m\":\"m\",\"p\":[1]}".to_string())])
    );
}

#[test]
fn plan_answers_pings_and_delivers_packets() {
    let items = decode("~m~4~m~~h~3~m~19~m~{\"m\":\"a\",\"p\":[1]}~m~4~m~~h~4");
    let plan = plan_ws_package(items);
    assert_eq!(plan.pings, vec![3, 4]);
    match plan.outcome {
        PackageOutcome::Delivered(ps) => {
            assert_eq!(ps.len(), 1);
            assert_eq!(ps[0].packet_type, "a");
        }
        other => panic!("unexpected {:?}", other),
    }
}

#[test]
fn plan_stops_at_critical_error() {
    let items = decode(
        "~m~4~m~~h~1~m~1~m~{\"m\":\"critical_error\",\"p\":[\"boom\"]}~m~4~m~~h~2",
    );
    let plan = plan_ws_package(items);
    assert_eq!(plan.pings, vec![1]);
    assert_eq!(plan.outcome, PackageOutcome::Critical(vec![JsonValue::String("boom".to_string())]));

    let plan = plan_ws_package(vec![WsItem::Packet(TradingViewPacket {
        packet_type: "protocol_error".to_string(),
        data: None,
    })]);
    assert_eq!(plan.outcome, PackageOutcome::Critical(vec![]));
}

#[test]
fn plan_rejects_packet_reporting_error() {
    let items = decode("~m~1~m~{\"m\":\"qsd\",\"p\":[\"xs\",{\"s\":\"error\"}]}~m~4~m~~h~9");
    let plan = plan_ws_package(items);
    assert!(plan.pings.is_empty());
    match plan.outcome {
        PackageOutcome::Rejected(p) => assert_eq!(p.packet_type, "qsd"),
        other => panic!("unexpected {:?}", other),
    }
}

#[test]
fn marker_is_stripped_once_and_only_from_n() {
    let p = read_packet(r#"{"m":"qsd","p":["xs",{"n":"==A","s":"ok"}]}"#).unwrap();
    let p = strip_symbol_marker(p);
    assert_eq!(p.data.unwrap()[1], json(r#"{"n":"=A","s":"ok"}"#));
    let q = read_packet(r#"{"m":"qsd","p":["xs",{"s":"=A"}]}"#).unwrap();
    let q2 = strip_symbol_marker(read_packet(r#"{"m":"qsd","p":["xs",{"s":"=A"}]}"#).unwrap());
    assert_eq!(q, q2);
}

#[test]
fn framed_packet_texts_read_back_unchanged() {
    let texts = [
        r#"{"m":"quote_completed","p":["xs","A"]}"#,
        r#"{"p":[1],"m":"du"}"#,
        r#"{"m":"qsd"}"#,
    ];
    let message: String = texts.iter().map(|t| format_ws_packet(t)).collect();
    let expected: Vec<WsFrame> = texts.iter().map(|t| WsFrame::Packet(t.to_string())).collect();
    assert_eq!(parse_ws_packet(&message), expected);
}

#[test]
fn payloads_with_tildes_read_back_unchanged() {
    let texts = [
        r#"{"m":"qsd","p":["a~b"]}"#,
        r#"{"m":"du","p":["~x~","m~","~h"]}"#,
        r#"{"m":"x","p":["ends in ~m"]}~m"#,
    ];
    let message: String = texts.iter().map(|t| format_ws_packet(t)).collect();
    let expected: Vec<WsFrame> = texts.iter().map(|t| WsFrame::Packet(t.to_string())).collect();
    assert_eq!(parse_ws_packet(&message), expected);
}

#[test]
fn payloads_that_framing_breaks() {
    // a heartbeat marker inside a payload is dropped
    let message = format_ws_packet(r#"{"m":"a~h~b"}"#);
    assert_eq!(parse_ws_packet(&message), vec![WsFrame::Packet(r#"{"m":"ab"}"#.to_string())]);
    // a payload ending in `~h` forms a heartbeat with the next frame
    let message = format_ws_packet("x~h") + &format_ws_packet("y");
    assert_eq!(parse_ws_packet(&message), vec![WsFrame::Packet("xm~1~m~y".to_string())]);
}

#[test]
fn header_digits_are_regex_decimal_digits() {
    let digit = regex::Regex::new(r"\A\d\z").unwrap();
    for c in (0u32..0x3000).filter_map(char::from_u32) {
        assert_eq!(tradingview::frame::is_header_digit(c), digit.is_match(&c.to_string()), "{:?}", c);
    }
    assert!(tradingview::frame::is_header_digit('٣'));
    assert!(!tradingview::frame::is_header_digit('½'));
}

#[test]
fn headers_with_other_scripts_digits_split_the_message() {
    assert_eq!(parse_ws_packet("~m~٣~m~x"), vec![WsFrame::Packet("x".to_string())]);
    assert_eq!(
        parse_ws_packet("~m~१२~m~ab~m~1~m~7"),
        vec![WsFrame::Packet("ab".to_string()), WsFrame::Ping(7)]
    );
    // a number written with other digits is not a ping
    assert_eq!(parse_ws_packet("~m~2~m~٣"), vec![WsFrame::Packet("٣".to_string())]);
}

#[test]
fn framed_json_texts_can_always_be_decoded() {
    let texts = [r#"{"m":"é","p":["~"]}"#, r#"{"p":["a"]}"#, r#"{"m":"x"}"#];
    let message: String = texts.iter().map(|t| format_ws_packet(t)).collect();
    assert!(try_parse_ws_packet(&message).is_some());
}
