use tradingview::packet::{
    auth_packet, chart_symbol_key, historical_messages, instrument_messages, is_quote_readable,
    is_rows_readable, is_timescale_update, price_rows, quote_update, subscribe_messages, symbol_key,
    quote_symbol, QuoteUpdate,
};
use tradingview::{Currency, JsonValue, TickerSymbol, Timeframe, TradingViewPacket};

fn s(t: &str) -> JsonValue {
    JsonValue::String(t.to_string())
}

fn n(t: &str) -> JsonValue {
    JsonValue::Number(t.to_string())
}

fn obj(members: Vec<(&str, JsonValue)>) -> JsonValue {
    JsonValue::Object(members.into_iter().map(|(k, v)| (k.to_string(), v)).collect())
}

fn packet(ty: &str, data: Vec<JsonValue>) -> TradingViewPacket {
    TradingViewPacket { packet_type: ty.to_string(), data: Some(data) }
}

#[test]
fn symbol_keys_are_json_objects() {
    let t = TickerSymbol::new("BITSTAMP:BTCUSD".to_string(), Currency::Usd);
    assert_eq!(symbol_key(&t), r#"={"currency-id":"USD","symbol":"BITSTAMP:BTCUSD"}"#);
    let q = TickerSymbol::new("A\"B".to_string(), Currency::Sek);
    assert_eq!(symbol_key(&q), r#"={"currency-id":"SEK","symbol":"A\"B"}"#);
    assert_eq!(
        chart_symbol_key("NDQ", Currency::Eur),
        r#"={"adjustment":"splits","currency-id":"EUR","session":"extended","symbol":"NDQ"}"#
    );
}

#[test]
fn symbol_keys_escape_as_json_does() {
    let name = "a\\b\n\t\u{1}\u{1f}\u{8}\u{c}\r\u{7f}é/\"";
    assert_eq!(
        chart_symbol_key(name, Currency::Usd),
        "={\"adjustment\":\"splits\",\"currency-id\":\"USD\",\"session\":\"extended\",\"symbol\":\"a\\\\b\\n\\t\\u0001\\u001f\\b\\f\\r\u{7f}é/\\\"\"}"
    );
    let expected = serde_json::Value::String(name.to_string()).to_string();
    assert!(chart_symbol_key(name, Currency::Usd).ends_with(&format!("\"symbol\":{}}}", expected)));
}

#[test]
fn auth_packet_uses_token_or_empty() {
    assert_eq!(auth_packet(Some("tok".to_string())), packet("set_auth_token", vec![s("tok")]));
    assert_eq!(auth_packet(None), packet("set_auth_token", vec![s("")]));
}

#[test]
fn subscription_messages() {
    let tickers = vec![
        TickerSymbol::new("OMXSTO:SAND".to_string(), Currency::Sek),
        TickerSymbol::new("NASDAQ:AAPL".to_string(), Currency::Usd),
    ];
    let m = subscribe_messages("xs_1", Some("tok".to_string()), &tickers);
    assert_eq!(
        m,
        vec![
            packet("set_auth_token", vec![s("tok")]),
            packet("quote_create_session", vec![s("xs_1")]),
            packet(
                "quote_add_symbols",
                vec![s("xs_1"), s(r#"={"currency-id":"SEK","symbol":"OMXSTO:SAND"}"#)]
            ),
            packet(
                "quote_add_symbols",
                vec![s("xs_1"), s(r#"={"currency-id":"USD","symbol":"NASDAQ:AAPL"}"#)]
            ),
        ]
    );
    let m = instrument_messages("xs_1", None, &tickers);
    assert_eq!(
        m,
        vec![
            packet("set_auth_token", vec![s("")]),
            packet("quote_create_session", vec![s("xs_1")]),
            packet("quote_add_symbols", vec![s("xs_1"), s("OMXSTO:SAND"), s("NASDAQ:AAPL")]),
        ]
    );
}

#[test]
fn chart_messages() {
    let m = historical_messages("cs_1", Some("t".to_string()), "NDQ", Timeframe::FiveMinutes, 20425, Currency::Usd);
    assert_eq!(
        m,
        vec![
            packet("set_auth_token", vec![s("t")]),
            packet("chart_create_session", vec![s("cs_1")]),
            packet(
                "resolve_symbol",
                vec![
                    s("cs_1"),
                    s("sds_sym_1"),
                    s(r#"={"adjustment":"splits","currency-id":"USD","session":"extended","symbol":"NDQ"}"#)
                ]
            ),
            packet(
                "create_series",
                vec![s("cs_1"), s("$prices"), s("s1"), s("sds_sym_1"), s("5"), n("20425")]
            ),
        ]
    );
}

#[test]
fn ok_quotes_are_picked() {
    let p = packet(
        "qsd",
        vec![
            s("xs"),
            obj(vec![
                ("n", s("{\"symbol\":\"X\"}")),
                ("s", s("ok")),
                ("v", obj(vec![("lp", n("1.5")), ("ch", n("0.1"))])),
            ]),
        ],
    );
    assert_eq!(
        quote_update(p),
        Some(QuoteUpdate {
            symbol_text: "{\"symbol\":\"X\"}".to_string(),
            values: vec![("lp".to_string(), n("1.5")), ("ch".to_string(), n("0.1"))],
        })
    );
    let no_v = packet("qsd", vec![s("xs"), obj(vec![("n", s("N")), ("s", s("ok"))])]);
    assert_eq!(quote_update(no_v), None);
    let failed = packet("qsd", vec![s("xs"), obj(vec![("s", s("error")), ("v", obj(vec![]))])]);
    assert_eq!(quote_update(failed), None);
    let other = packet("quote_completed", vec![s("xs"), s("X")]);
    assert_eq!(quote_update(other), None);
    let no_n = packet("qsd", vec![s("xs"), obj(vec![("s", s("ok")), ("v", obj(vec![]))])]);
    assert_eq!(
        quote_update(no_n),
        Some(QuoteUpdate { symbol_text: String::new(), values: vec![] })
    );
}

#[test]
fn price_rows_are_taken_from_series() {
    let p = packet(
        "timescale_update",
        vec![
            s("cs"),
            obj(vec![(
                "$prices",
                obj(vec![(
                    "s",
                    JsonValue::Array(vec![
                        obj(vec![("i", n("0")), ("v", JsonValue::Array(vec![n("1700000000"), n("1.0")]))]),
                        obj(vec![("i", n("1"))]),
                        obj(vec![("v", JsonValue::Array(vec![n("1700000060"), n("2.0")]))]),
                    ]),
                )]),
            )]),
        ],
    );
    assert!(is_timescale_update(&p));
    assert_eq!(
        price_rows(p),
        vec![vec![n("1700000000"), n("1.0")], vec![n("1700000060"), n("2.0")]]
    );
    let empty = packet("timescale_update", vec![s("cs"), obj(vec![])]);
    assert_eq!(price_rows(empty), Vec::<Vec<JsonValue>>::new());
    let none = TradingViewPacket { packet_type: "timescale_update".to_string(), data: None };
    assert!(!is_timescale_update(&none));
    assert!(!is_timescale_update(&packet("du", vec![])));
}

#[test]
fn readability_of_quotes_and_series() {
    assert!(is_quote_readable(&packet("qsd", vec![s("xs"), obj(vec![("s", s("ok"))])])));
    assert!(!is_quote_readable(&packet("qsd", vec![s("xs")])));
    assert!(!is_quote_readable(&packet("qsd", vec![s("xs"), s("not an object")])));
    assert!(!is_quote_readable(&packet("qsd", vec![s("xs"), obj(vec![("s", n("1"))])])));
    assert!(!is_quote_readable(&packet("qsd", vec![s("xs"), obj(vec![])])));
    assert!(is_quote_readable(&packet("du", vec![])));
    assert!(is_quote_readable(&TradingViewPacket { packet_type: "qsd".to_string(), data: None }));

    let series = |v: JsonValue| packet("timescale_update", vec![s("cs"), obj(vec![("$prices", obj(vec![("s", v)]))])]);
    assert!(is_rows_readable(&series(JsonValue::Array(vec![]))));
    assert!(!is_rows_readable(&series(JsonValue::Null)));
    assert!(is_rows_readable(&packet("timescale_update", vec![s("cs"), obj(vec![("$prices", n("3"))])])));
}

fn parsed(text: &str) -> Option<JsonValue> {
    serde_json::from_str::<serde_json::Value>(text).ok().map(|v| model(&v))
}

fn model(v: &serde_json::Value) -> JsonValue {
    match v {
        serde_json::Value::Null => JsonValue::Null,
        serde_json::Value::Bool(b) => JsonValue::Bool(*b),
        serde_json::Value::Number(n) => JsonValue::Number(n.to_string()),
        serde_json::Value::String(s) => JsonValue::String(s.clone()),
        serde_json::Value::Array(a) => JsonValue::Array(a.iter().map(model).collect()),
        serde_json::Value::Object(o) => {
            JsonValue::Object(o.iter().map(|(k, v)| (k.clone(), model(v))).collect())
        }
    }
}

#[test]
fn quote_symbols_are_read_from_their_json_text() {
    assert_eq!(quote_symbol(&parsed(r#"{"symbol":"BITSTAMP:BTCUSD","currency-id":"USD"}"#)), Some("BITSTAMP:BTCUSD".to_string()));
    assert_eq!(quote_symbol(&parsed(r#"{"currency-id":"USD"}"#)), Some(String::new()));
    assert_eq!(quote_symbol(&parsed(r#"{"symbol":7}"#)), Some(String::new()));
    assert_eq!(quote_symbol(&parsed("[1,2]")), Some(String::new()));
    assert_eq!(quote_symbol(&parsed("NASDAQ:AAPL")), None);
    assert_eq!(quote_symbol(&parsed("")), None);
}

#[test]
fn quote_symbol_looks_only_at_the_symbol_member() {
    let v = JsonValue::Object(vec![
        ("currency-id".to_string(), JsonValue::String("USD".to_string())),
        ("symbol".to_string(), JsonValue::String("X".to_string())),
    ]);
    assert_eq!(quote_symbol(&Some(v)), Some("X".to_string()));
    assert_eq!(quote_symbol(&Some(JsonValue::String("symbol".to_string()))), Some(String::new()));
    assert_eq!(quote_symbol(&None), None);
}
