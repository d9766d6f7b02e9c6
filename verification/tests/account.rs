use serde_json::Value;
use tradingview::account::{
    check_status, deserialize_datetime_string, stored_credentials, login_step, read_profile, session_cookie_header,
    session_cookies, try_read_profile, two_factor_step, LoginNext,
};
use tradingview::{JsonValue, TradingViewError, UtcInstant};

fn instant(text: &str) -> UtcInstant {
    let d = chrono::DateTime::parse_from_rfc3339(text).unwrap();
    UtcInstant { seconds: d.timestamp(), nanos: d.timestamp_subsec_nanos() }
}

#[test]
fn test_deserialize_datetime() {
    let json = r#"{
        "id": 123,
        "username": "test",
        "first_name": "Test",
        "last_name": "User",
        "reputation": 5.0,
        "following": 10,
        "followers": 20,
        "is_pro": true,
        "notification_count": {
            "user": 2
        },
        "session_hash": "ijkl",
        "private_channel": "mnop",
        "auth_token": "qrst",
        "date_joined": "2022-02-28T06:16:18.735255"
    }"#;

    let expected_datetime = instant("2022-02-28T06:16:18.735255Z");

    let user = serde_json::from_str::<Value>(json).unwrap();
    let date_joined = deserialize_datetime_string(user["date_joined"].as_str().unwrap()).unwrap();

    assert_eq!(date_joined, expected_datetime);
}

#[test]
fn dates_read_the_same_with_or_without_zone() {
    let a = deserialize_datetime_string("2023-06-01T00:00:00Z").unwrap();
    let b = deserialize_datetime_string("2023-06-01T00:00:00").unwrap();
    assert_eq!(a, b);
    assert_eq!(a, UtcInstant { seconds: 1685577600, nanos: 0 });
}

#[test]
fn bad_dates_are_chrono_errors() {
    match deserialize_datetime_string("yesterday") {
        Err(TradingViewError::ChronoParseError(_)) => {}
        other => panic!("unexpected {:?}", other),
    }
    assert!(deserialize_datetime_string("").is_err());
}

#[test]
fn bad_dates_give_the_same_error_with_or_without_zone() {
    for text in ["yesterday", "2023-13-01T00:00:00", "2023-06-01", "2023-06-01T25:00:00"] {
        let expected = chrono::DateTime::parse_from_rfc3339(&format!("{}Z", text)).unwrap_err();
        assert_eq!(
            deserialize_datetime_string(text),
            Err(TradingViewError::ChronoParseError(expected))
        );
        assert_eq!(
            deserialize_datetime_string(text),
            deserialize_datetime_string(&format!("{}Z", text))
        );
    }
}

#[test]
fn statuses_are_judged() {
    assert_eq!(check_status(200), Ok(()));
    assert_eq!(check_status(204), Ok(()));
    assert_eq!(check_status(299), Ok(()));
    assert_eq!(check_status(401), Err(TradingViewError::InvalidCredentials));
    assert_eq!(check_status(500), Err(TradingViewError::InternalServerError));
    assert_eq!(check_status(403), Err(TradingViewError::AuthenticationFailed));
    assert_eq!(check_status(302), Err(TradingViewError::AuthenticationFailed));
    assert_eq!(check_status(199), Err(TradingViewError::AuthenticationFailed));
}

fn cookies(pairs: &[(&str, &str)]) -> Vec<(String, String)> {
    pairs.iter().map(|(a, b)| (a.to_string(), b.to_string())).collect()
}

#[test]
fn session_cookies_are_found() {
    let c = cookies(&[("csrftoken", "x"), ("sessionid_sign", "efgh"), ("sessionid", "abcd")]);
    assert_eq!(session_cookies(&c), Ok(("abcd".to_string(), "efgh".to_string())));
    let c = cookies(&[("sessionid", "a"), ("sessionid", "b"), ("sessionid_sign", "s")]);
    assert_eq!(session_cookies(&c), Ok(("a".to_string(), "s".to_string())));
}

#[test]
fn missing_cookies_are_bad_credentials() {
    let c = cookies(&[("sessionid", "abcd")]);
    assert_eq!(session_cookies(&c), Err(TradingViewError::InvalidCredentials));
    let c = cookies(&[("sessionid_sign", "efgh")]);
    assert_eq!(session_cookies(&c), Err(TradingViewError::InvalidCredentials));
    assert_eq!(session_cookies(&vec![]), Err(TradingViewError::InvalidCredentials));
}

#[test]
fn sign_in_errors_are_judged() {
    assert_eq!(login_step(None), Ok(LoginNext::ReadUser));
    let two_fa = JsonValue::String("2FA_required".to_string());
    assert_eq!(login_step(Some(&two_fa)), Ok(LoginNext::TwoFactor));
    let other = JsonValue::String("Invalid username or password.".to_string());
    assert_eq!(login_step(Some(&other)), Err(TradingViewError::InvalidCredentials));
    let not_text = JsonValue::Bool(true);
    assert_eq!(login_step(Some(&not_text)), Err(TradingViewError::InvalidCredentials));
    assert_eq!(two_factor_step(None), Ok(()));
    assert_eq!(two_factor_step(Some(&two_fa)), Err(TradingViewError::InvalidCredentials));
}

#[test]
fn cookie_header_text() {
    assert_eq!(session_cookie_header("abcd", "efgh"), "sessionid=abcd;sessionid_sign=efgh;");
}

const PAGE: &str = r#"<script>window.user = {"id":123,"username":"test","first_name":"Test","last_name":"User","reputation":5.5,"following":10,"followers":20,"is_pro":true,"notification_count":{"following":0,"user":2},"session_hash":"ijkl","private_channel":"mnop","auth_token":"qrst","date_joined":"2023-06-01T00:00:00"};</script>"#;

#[test]
fn profile_is_read_from_the_page() {
    let f = read_profile(PAGE).unwrap();
    assert_eq!(f.id, 123);
    assert_eq!(f.username, "test");
    assert_eq!(f.first_name, "Test");
    assert_eq!(f.last_name, "User");
    assert_eq!(f.reputation, "5.5");
    assert_eq!(f.following, 10);
    assert_eq!(f.followers, 20);
    assert!(f.is_pro);
    assert_eq!(f.notifications, 2);
    assert_eq!(f.session_hash, "ijkl");
    assert_eq!(f.private_channel, "mnop");
    assert_eq!(f.auth_token, "qrst");
    assert_eq!(f.date_joined, "2023-06-01T00:00:00");
    assert_eq!(
        deserialize_datetime_string(&f.date_joined).unwrap(),
        UtcInstant { seconds: 1685577600, nanos: 0 }
    );
}

#[test]
fn signed_out_page_fails_authentication() {
    assert_eq!(read_profile("<html>hello</html>"), Err(TradingViewError::AuthenticationFailed));
    assert_eq!(
        try_read_profile("{\"id\":1}"),
        Some(Err(TradingViewError::AuthenticationFailed))
    );
}

#[test]
fn unreadable_signed_in_page_is_refused() {
    assert_eq!(try_read_profile("{\"auth_token\":\"x\"}"), None);
    let broken = PAGE.replace("\"following\":10", "\"following\":ten");
    assert_eq!(try_read_profile(&broken), None);
}

#[test]
fn stored_credentials_need_user_session_and_signature() {
    let full = Some((Some("abcd".to_string()), Some("efgh".to_string())));
    assert_eq!(stored_credentials(&full), Ok(("abcd".to_string(), "efgh".to_string())));
    assert_eq!(stored_credentials(&None), Err(TradingViewError::InvalidCredentials));
    assert_eq!(
        stored_credentials(&Some((None, Some("efgh".to_string())))),
        Err(TradingViewError::InvalidCredentials)
    );
    assert_eq!(
        stored_credentials(&Some((Some("abcd".to_string()), None))),
        Err(TradingViewError::InvalidCredentials)
    );
}
