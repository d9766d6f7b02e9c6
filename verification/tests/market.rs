use tradingview::market::ClientOptions;
use tradingview::{Currency, TickerSymbol, Timeframe};

#[test]
fn currency_from_accepts_upper_and_lower_case() {
    assert_eq!(Currency::from("EUR"), Currency::Eur);
    assert_eq!(Currency::from("eur"), Currency::Eur);
    assert_eq!(Currency::from("USD"), Currency::Usd);
    assert_eq!(Currency::from("usd"), Currency::Usd);
    assert_eq!(Currency::from("SEK"), Currency::Sek);
    assert_eq!(Currency::from("sek"), Currency::Sek);
}

#[test]
fn currency_parse_rejects_other_spellings() {
    assert_eq!(Currency::parse("Usd"), None);
    assert_eq!(Currency::parse("GBP"), None);
    assert_eq!(Currency::parse(""), None);
    assert_eq!(Currency::parse("USDX"), None);
}

#[test]
fn currency_code_reads_back() {
    for c in [Currency::Eur, Currency::Usd, Currency::Sek] {
        let code = c.to_string();
        assert_eq!(Currency::parse(&code), Some(c));
        assert_eq!(Currency::parse(&code.to_lowercase()), Some(c));
    }
    assert_eq!(Currency::Sek.to_string(), "SEK");
}

#[test]
fn timeframe_codes() {
    let all = [
        (Timeframe::OneMinute, "1"),
        (Timeframe::ThreeMinutes, "3"),
        (Timeframe::FiveMinutes, "5"),
        (Timeframe::FifteenMinutes, "15"),
        (Timeframe::ThirtyMinutes, "30"),
        (Timeframe::FortyFiveMinutes, "45"),
        (Timeframe::OneHour, "60"),
        (Timeframe::TwoHours, "120"),
        (Timeframe::ThreeHours, "180"),
        (Timeframe::FourHours, "240"),
        (Timeframe::OneDay, "1D"),
        (Timeframe::OneWeek, "1W"),
        (Timeframe::OneMonth, "1M"),
    ];
    for (t, code) in all.iter() {
        assert_eq!(t.to_string(), *code);
    }
    let mut codes: Vec<String> = all.iter().map(|(t, _)| t.to_string()).collect();
    codes.sort();
    codes.dedup();
    assert_eq!(codes.len(), all.len());
}

#[test]
fn ticker_symbol_holds_its_parts() {
    let t = TickerSymbol::new("NASDAQ:AAPL".to_string(), Currency::Usd);
    assert_eq!(t.symbol(), "NASDAQ:AAPL");
    assert_eq!(t.currency(), Currency::Usd);
}

#[test]
fn client_options_defaults_and_urls() {
    let o = ClientOptions::new(None, None);
    assert_eq!(o.server_url(), "https://www.tradingview.com");
    assert_eq!(o.user_agent(), "tradingview API /0.1.0");
    assert_eq!(o.signin_url(), "https://www.tradingview.com/accounts/signin/");
    assert_eq!(
        o.two_factor_url(),
        "https://www.tradingview.com/accounts/two-factor/signin/totp/"
    );
    assert_eq!(o.referer(), "https://www.tradingview.com/");

    let o = ClientOptions::new(Some("http://127.0.0.1:9".to_string()), Some("agent".to_string()));
    assert_eq!(o.server_url(), "http://127.0.0.1:9");
    assert_eq!(o.user_agent(), "agent");
    assert_eq!(o.signin_url(), "http://127.0.0.1:9/accounts/signin/");
    assert_eq!(o.referer(), "http://127.0.0.1:9/");
}
