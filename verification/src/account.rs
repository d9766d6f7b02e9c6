//! Account handling: how sign-in replies are judged, the session cookie,
//! the join date, and reading a profile out of the account page.
use vstd::prelude::*;
use crate::json::{is_string, JsonValue};
use crate::text::{
    chars_of, contains, find_from, occurs_at, find_from_exec, lemma_find_from_bounds, parse_bool,
    parse_bool_spec, parse_u32, parse_u32_spec, push_char, string_from_chars, sub_chars, text_eq,
};

verus! {

/// chrono's date parsing error, carried through unchanged inside
/// `TradingViewError::ChronoParseError`.
#[verifier::external_type_specification]
#[verifier::external_body]
pub struct ExChronoParseError(chrono::ParseError);

/// Why an account request failed.
#[derive(Debug, PartialEq, Eq)]
pub enum TradingViewError {
    AuthenticationFailed,
    InvalidCredentials,
    InternalServerError,
    ChronoParseError(chrono::ParseError),
}

/// Judges the HTTP status of a sign-in reply: 401 means bad credentials,
/// 500 a server failure, any other status outside 200..=299 a failed
/// sign-in.
pub fn check_status(status: u16) -> (r: Result<(), TradingViewError>)
    ensures
        status == 401 ==> r == Err::<(), TradingViewError>(TradingViewError::InvalidCredentials),
        status == 500 ==> r == Err::<(), TradingViewError>(TradingViewError::InternalServerError),
        status != 401 && status != 500 && !(200 <= status <= 299) ==> r == Err::<
            (),
            TradingViewError,
        >(TradingViewError::AuthenticationFailed),
        200 <= status <= 299 ==> r == Ok::<(), TradingViewError>(()),
{
    if status == 401 {
        Err(TradingViewError::InvalidCredentials)
    } else if status == 500 {
        Err(TradingViewError::InternalServerError)
    } else if !(200 <= status && status <= 299) {
        Err(TradingViewError::AuthenticationFailed)
    } else {
        Ok(())
    }
}

/// The position of the first cookie named `name`, searching from `i`.
pub open spec fn cookie_index_from(cookies: Seq<(String, String)>, name: Seq<char>, i: int) -> Option<
    int,
>
    decreases cookies.len() - i,
{
    if i < 0 || i >= cookies.len() {
        None
    } else if cookies[i].0@ == name {
        Some(i)
    } else {
        cookie_index_from(cookies, name, i + 1)
    }
}

/// The value of the first cookie named `name`.
pub open spec fn cookie_value(cookies: Seq<(String, String)>, name: Seq<char>) -> Option<Seq<char>> {
    match cookie_index_from(cookies, name, 0) {
        Some(i) => Some(cookies[i].1@),
        None => None,
    }
}

fn find_cookie(cookies: &Vec<(String, String)>, name: &str) -> (r: Option<String>)
    ensures
        match r {
            Some(v) => cookie_value(cookies@, name@) == Some(v@),
            None => cookie_value(cookies@, name@) is None,
        },
{
    let mut i: usize = 0;
    while i < cookies.len()
        invariant
            i <= cookies@.len(),
            cookie_index_from(cookies@, name@, 0) == cookie_index_from(cookies@, name@, i as int),
        decreases cookies@.len() - i,
    {
        if text_eq(cookies[i].0.as_str(), name) {
            return Some(cookies[i].1.clone());
        }
        i = i + 1;
    }
    None
}

/// The session and signature cookies of a sign-in reply, given as (name,
/// value) pairs; bad credentials when either is missing.
pub fn session_cookies(cookies: &Vec<(String, String)>) -> (r: Result<
    (String, String),
    TradingViewError,
>)
    ensures
        match (cookie_value(cookies@, "sessionid"@), cookie_value(cookies@, "sessionid_sign"@)) {
            (Some(s), Some(g)) => r matches Ok((a, b)) && a@ == s && b@ == g,
            _ => r == Err::<(String, String), TradingViewError>(
                TradingViewError::InvalidCredentials,
            ),
        },
{
    let session = match find_cookie(cookies, "sessionid") {
        Some(v) => v,
        None => {
            return Err(TradingViewError::InvalidCredentials);
        },
    };
    let signature = match find_cookie(cookies, "sessionid_sign") {
        Some(v) => v,
        None => {
            return Err(TradingViewError::InvalidCredentials);
        },
    };
    Ok((session, signature))
}

/// What follows a successful sign-in reply.
#[derive(Debug, Clone, Copy, PartialEq, Eq, Structural)]
pub enum LoginNext {
    /// The reply carries the user.
    ReadUser,
    /// A two-factor code is required.
    TwoFactor,
}

/// Judges the `error` member of a sign-in reply: none means the user can be
/// read, `"2FA_required"` asks for a code, anything else is bad credentials.
pub fn login_step(error: Option<&JsonValue>) -> (r: Result<LoginNext, TradingViewError>)
    ensures
        match error {
            None => r == Ok::<LoginNext, TradingViewError>(LoginNext::ReadUser),
            Some(e) => if is_string(*e, "2FA_required"@) {
                r == Ok::<LoginNext, TradingViewError>(LoginNext::TwoFactor)
            } else {
                r == Err::<LoginNext, TradingViewError>(TradingViewError::InvalidCredentials)
            },
        },
{
    match error {
        None => Ok(LoginNext::ReadUser),
        Some(e) => if e.is_str("2FA_required") {
            Ok(LoginNext::TwoFactor)
        } else {
            Err(TradingViewError::InvalidCredentials)
        },
    }
}

/// Judges the `error` member of a two-factor reply: any error is bad
/// credentials.
pub fn two_factor_step(error: Option<&JsonValue>) -> (r: Result<(), TradingViewError>)
    ensures
        error is None ==> r == Ok::<(), TradingViewError>(()),
        error is Some ==> r == Err::<(), TradingViewError>(TradingViewError::InvalidCredentials),
{
    match error {
        None => Ok(()),
        Some(_) => Err(TradingViewError::InvalidCredentials),
    }
}

/// The session and its signature kept for the signed-in user, as the
/// two-factor step needs them: a missing user, session or signature means
/// the credentials are invalid.
pub fn stored_credentials(user: &Option<(Option<String>, Option<String>)>) -> (r: Result<
    (String, String),
    TradingViewError,
>)
    ensures
        match *user {
            Some((Some(session), Some(signature))) => r matches Ok((a, b)) && a@ == session@
                && b@ == signature@,
            _ => r == Err::<(String, String), TradingViewError>(
                TradingViewError::InvalidCredentials,
            ),
        },
{
    match user {
        Some((Some(session), Some(signature))) => Ok((session.clone(), signature.clone())),
        _ => Err(TradingViewError::InvalidCredentials),
    }
}

/// The `Cookie` header that presents a session:
/// `sessionid=<session>;sessionid_sign=<signature>;`.
pub fn session_cookie_header(session: &str, signature: &str) -> (r: String)
    ensures
        r@ == "sessionid="@ + session@ + ";sessionid_sign="@ + signature@ + ";"@,
{
    let mut r = "sessionid=".to_owned();
    r.append(session);
    r.append(";sessionid_sign=");
    r.append(signature);
    r.append(";");
    r
}

/// A moment in UTC: seconds since the Unix epoch and the nanoseconds within
/// that second.
#[derive(Debug, Clone, Copy, PartialEq, Eq, Structural)]
pub struct UtcInstant {
    pub seconds: i64,
    pub nanos: u32,
}

/// What chrono makes of an RFC 3339 text
/// (`chrono::DateTime::parse_from_rfc3339`): the instant it denotes, as
/// seconds since the epoch and nanoseconds in UTC, or the parse error.
pub uninterp spec fn rfc3339_result(text: Seq<char>) -> Result<(i64, u32), chrono::ParseError>;

/// Parses an RFC 3339 date-time with chrono and converts it to UTC.
/// Trusted: the outcome, instant or error, depends on the text alone; which
/// texts parse, and which error comes back, is left to the name.
#[verifier::external_body]
fn parse_rfc3339(text: &str) -> (r: Result<(i64, u32), chrono::ParseError>)
    ensures
        r == rfc3339_result(text@),
{
    match chrono::DateTime::parse_from_rfc3339(text) {
        Ok(d) => Ok((d.timestamp(), d.timestamp_subsec_nanos())),
        Err(e) => Err(e),
    }
}

/// A join date as the service writes it, with the `Z` it may leave out.
pub open spec fn utc_text(s: Seq<char>) -> Seq<char> {
    if s.len() > 0 && s.last() == 'Z' {
        s
    } else {
        s.push('Z')
    }
}

/// Law: a join date reads the same with or without its trailing `Z`.
pub proof fn lemma_utc_text_zone(s: Seq<char>)
    ensures
        utc_text(s.push('Z')) == utc_text(s) || (s.len() > 0 && s.last() == 'Z'),
        utc_text(utc_text(s)) == utc_text(s),
{
}

/// What a join date reads as: the instant chrono finds in the text with its
/// trailing `Z`, or chrono's error.
pub open spec fn datetime_result(s: Seq<char>) -> Result<UtcInstant, TradingViewError> {
    match rfc3339_result(utc_text(s)) {
        Ok((secs, n)) => Ok(UtcInstant { seconds: secs, nanos: n }),
        Err(e) => Err(TradingViewError::ChronoParseError(e)),
    }
}

/// Law: a join date without a trailing `Z` reads exactly as the same date
/// with one, the same instant or the same error.
pub proof fn lemma_datetime_zone(s: Seq<char>)
    requires
        !(s.len() > 0 && s.last() == 'Z'),
    ensures
        datetime_result(s.push('Z')) == datetime_result(s),
{
    lemma_utc_text_zone(s);
}

/// Reads a join date: a missing trailing `Z` is added, then the text is read
/// as RFC 3339.
pub fn deserialize_datetime_string(date: &str) -> (r: Result<UtcInstant, TradingViewError>)
    ensures
        r == datetime_result(date@),
{
    let cs = chars_of(date);
    let mut text = date.to_owned();
    if !(cs.len() > 0 && cs[cs.len() - 1] == 'Z') {
        push_char(&mut text, 'Z');
    }
    assert(text@ =~= utc_text(date@));
    match parse_rfc3339(text.as_str()) {
        Ok((secs, n)) => Ok(UtcInstant { seconds: secs, nanos: n }),
        Err(e) => Err(TradingViewError::ChronoParseError(e)),
    }
}

// ---------------------------------------------------------------------------
// Reading a profile out of the account page
// ---------------------------------------------------------------------------

/// What `s.split(pat).nth(1)` gives: the text between the first and the
/// second occurrence of `pat`, or from the first occurrence to the end.
pub open spec fn split_second(s: Seq<char>, pat: Seq<char>) -> Option<Seq<char>> {
    match find_from(s, pat, 0) {
        None => None,
        Some(i) => {
            let rest = s.skip(i + pat.len());
            Some(
                match find_from(rest, pat, 0) {
                    None => rest,
                    Some(j) => rest.take(j),
                },
            )
        },
    }
}

/// What `s.split(c).next()` gives: the text before the first `c`.
pub open spec fn until_char(s: Seq<char>, c: char) -> Seq<char> {
    match find_from(s, seq![c], 0) {
        None => s,
        Some(j) => s.take(j),
    }
}

/// `s` without any `c` (`str::replace(c, "")`).
pub open spec fn without_char(s: Seq<char>, c: char) -> Seq<char>
    decreases s.len(),
{
    if s.len() == 0 {
        s
    } else {
        without_char(s.drop_last(), c) + if s.last() == c {
            Seq::<char>::empty()
        } else {
            seq![s.last()]
        }
    }
}

/// A bare value: the text after `key` up to the next comma.
pub open spec fn bare_field(body: Seq<char>, key: Seq<char>) -> Option<Seq<char>> {
    match split_second(body, key) {
        Some(t) => Some(until_char(t, ',')),
        None => None,
    }
}

/// A quoted value: the text after `key` up to the next quote.
pub open spec fn quoted_field(body: Seq<char>, key: Seq<char>) -> Option<Seq<char>> {
    match split_second(body, key) {
        Some(t) => Some(until_char(t, '"')),
        None => None,
    }
}

/// The unread-notification count: in the text after
/// `notification_count":`, the piece between the first two commas, the part
/// after `user":`, without closing braces.
pub open spec fn notifications_text(body: Seq<char>) -> Option<Seq<char>> {
    match split_second(body, "notification_count\":"@) {
        Some(a) => match split_second(a, seq![',']) {
            Some(b) => match split_second(b, "user\":"@) {
                Some(c) => Some(without_char(c, '}')),
                None => None,
            },
            None => None,
        },
        None => None,
    }
}

pub open spec fn opt_u32(t: Option<Seq<char>>) -> Option<u32> {
    match t {
        Some(x) => parse_u32_spec(x),
        None => None,
    }
}

pub open spec fn opt_bool(t: Option<Seq<char>>) -> Option<bool> {
    match t {
        Some(x) => parse_bool_spec(x),
        None => None,
    }
}

/// Every field of a signed-in account page can be read (the reputation is
/// only cut out here; reading it as a number is left to the caller).
pub open spec fn profile_readable(body: Seq<char>) -> bool {
    &&& opt_u32(bare_field(body, "id\":"@)) is Some
    &&& quoted_field(body, "username\":\""@) is Some
    &&& quoted_field(body, "first_name\":\""@) is Some
    &&& quoted_field(body, "last_name\":\""@) is Some
    &&& bare_field(body, "reputation\":"@) is Some
    &&& opt_u32(bare_field(body, "following\":"@)) is Some
    &&& opt_u32(bare_field(body, "followers\":"@)) is Some
    &&& opt_bool(bare_field(body, "is_pro\":"@)) is Some
    &&& opt_u32(notifications_text(body)) is Some
    &&& quoted_field(body, "session_hash\":\""@) is Some
    &&& quoted_field(body, "private_channel\":\""@) is Some
    &&& quoted_field(body, "auth_token\":\""@) is Some
    &&& quoted_field(body, "date_joined\":\""@) is Some
}

/// The page belongs to a signed-in account.
pub open spec fn signed_in_page(body: Seq<char>) -> bool {
    contains(body, "auth_token"@)
}

/// The fields of a profile as the account page shows them.
#[derive(Debug, PartialEq, Eq)]
pub struct ProfileFields {
    pub id: u32,
    pub username: String,
    pub first_name: String,
    pub last_name: String,
    /// The reputation, as written on the page.
    pub reputation: String,
    pub following: u32,
    pub followers: u32,
    pub is_pro: bool,
    pub notifications: u32,
    pub session_hash: String,
    pub private_channel: String,
    pub auth_token: String,
    /// The join date, as written on the page.
    pub date_joined: String,
}

/// `f` holds the fields read out of `body`.
pub open spec fn profile_of(body: Seq<char>, f: ProfileFields) -> bool {
    &&& opt_u32(bare_field(body, "id\":"@)) == Some(f.id)
    &&& quoted_field(body, "username\":\""@) == Some(f.username@)
    &&& quoted_field(body, "first_name\":\""@) == Some(f.first_name@)
    &&& quoted_field(body, "last_name\":\""@) == Some(f.last_name@)
    &&& bare_field(body, "reputation\":"@) == Some(f.reputation@)
    &&& opt_u32(bare_field(body, "following\":"@)) == Some(f.following)
    &&& opt_u32(bare_field(body, "followers\":"@)) == Some(f.followers)
    &&& opt_bool(bare_field(body, "is_pro\":"@)) == Some(f.is_pro)
    &&& opt_u32(notifications_text(body)) == Some(f.notifications)
    &&& quoted_field(body, "session_hash\":\""@) == Some(f.session_hash@)
    &&& quoted_field(body, "private_channel\":\""@) == Some(f.private_channel@)
    &&& quoted_field(body, "auth_token\":\""@) == Some(f.auth_token@)
    &&& quoted_field(body, "date_joined\":\""@) == Some(f.date_joined@)
}

fn split_second_exec(cs: &Vec<char>, pat: &Vec<char>) -> (r: Option<Vec<char>>)
    ensures
        match r {
            Some(v) => split_second(cs@, pat@) == Some(v@),
            None => split_second(cs@, pat@) is None,
        },
{
    match find_from_exec(cs, pat, 0) {
        None => None,
        Some(i) => {
            proof {
                lemma_find_from_bounds(cs@, pat@, 0);
            }
            assert(occurs_at(cs@, pat@, i as int));
            let n = cs.len();
            let m = pat.len();
            assert(i + m <= n);
            let rest = sub_chars(cs, i + m, n);
            assert(rest@ =~= cs@.skip(i + pat@.len()));
            match find_from_exec(&rest, pat, 0) {
                None => Some(rest),
                Some(j) => {
                    proof {
                        lemma_find_from_bounds(rest@, pat@, 0);
                    }
                    let t = sub_chars(&rest, 0, j);
                    assert(t@ =~= rest@.take(j as int));
                    Some(t)
                },
            }
        },
    }
}

fn until_char_exec(cs: &Vec<char>, c: char) -> (r: Vec<char>)
    ensures
        r@ == until_char(cs@, c),
{
    let pat = vec![c];
    assert(pat@ =~= seq![c]);
    match find_from_exec(cs, &pat, 0) {
        None => sub_chars(cs, 0, cs.len()),
        Some(j) => {
            proof {
                lemma_find_from_bounds(cs@, seq![c], 0);
            }
            let t = sub_chars(cs, 0, j);
            assert(t@ =~= cs@.take(j as int));
            t
        },
    }
}

fn without_char_exec(cs: &Vec<char>, c: char) -> (r: Vec<char>)
    ensures
        r@ == without_char(cs@, c),
{
    let mut r: Vec<char> = Vec::new();
    let mut i: usize = 0;
    assert(cs@.take(0) =~= Seq::<char>::empty());
    while i < cs.len()
        invariant
            i <= cs@.len(),
            r@ == without_char(cs@.take(i as int), c),
        decreases cs@.len() - i,
    {
        assert(cs@.take(i + 1).drop_last() =~= cs@.take(i as int));
        if cs[i] != c {
            r.push(cs[i]);
        }
        i = i + 1;
        assert(r@ =~= without_char(cs@.take(i as int), c));
    }
    assert(cs@.take(cs@.len() as int) =~= cs@);
    r
}

fn bare_field_exec(cs: &Vec<char>, key: &str) -> (r: Option<Vec<char>>)
    ensures
        match r {
            Some(v) => bare_field(cs@, key@) == Some(v@),
            None => bare_field(cs@, key@) is None,
        },
{
    let pat = chars_of(key);
    match split_second_exec(cs, &pat) {
        Some(t) => Some(until_char_exec(&t, ',')),
        None => None,
    }
}

fn quoted_field_exec(cs: &Vec<char>, key: &str) -> (r: Option<String>)
    ensures
        match r {
            Some(v) => quoted_field(cs@, key@) == Some(v@),
            None => quoted_field(cs@, key@) is None,
        },
{
    let pat = chars_of(key);
    match split_second_exec(cs, &pat) {
        Some(t) => Some(string_from_chars(&until_char_exec(&t, '"'))),
        None => None,
    }
}

fn u32_field(cs: &Vec<char>, key: &str) -> (r: Option<u32>)
    ensures
        r == opt_u32(bare_field(cs@, key@)),
{
    match bare_field_exec(cs, key) {
        Some(t) => parse_u32(&t),
        None => None,
    }
}

fn notifications_exec(cs: &Vec<char>) -> (r: Option<u32>)
    ensures
        r == opt_u32(notifications_text(cs@)),
{
    let p1 = chars_of("notification_count\":");
    let a = match split_second_exec(cs, &p1) {
        Some(a) => a,
        None => {
            return None;
        },
    };
    let comma = vec![','];
    assert(comma@ =~= seq![',']);
    let b = match split_second_exec(&a, &comma) {
        Some(b) => b,
        None => {
            return None;
        },
    };
    let p2 = chars_of("user\":");
    let c = match split_second_exec(&b, &p2) {
        Some(c) => c,
        None => {
            return None;
        },
    };
    parse_u32(&without_char_exec(&c, '}'))
}

/// Reads a profile out of the account page. Not signed in (no
/// `auth_token` on the page) is a failed authentication; a signed-in page
/// on which a field cannot be read gives `None`.
pub fn try_read_profile(body: &str) -> (r: Option<Result<ProfileFields, TradingViewError>>)
    ensures
        !signed_in_page(body@) ==> r == Some(
            Err::<ProfileFields, TradingViewError>(TradingViewError::AuthenticationFailed),
        ),
        signed_in_page(body@) ==> (r is Some <==> profile_readable(body@)),
        r matches Some(Ok(f)) ==> signed_in_page(body@) && profile_of(body@, f),
        r matches Some(Err(e)) ==> !signed_in_page(body@),
{
    let cs = chars_of(body);
    let marker = chars_of("auth_token");
    if find_from_exec(&cs, &marker, 0).is_none() {
        return Some(Err(TradingViewError::AuthenticationFailed));
    }
    let id = u32_field(&cs, "id\":");
    let username = quoted_field_exec(&cs, "username\":\"");
    let first_name = quoted_field_exec(&cs, "first_name\":\"");
    let last_name = quoted_field_exec(&cs, "last_name\":\"");
    let reputation = match bare_field_exec(&cs, "reputation\":") {
        Some(t) => Some(string_from_chars(&t)),
        None => None,
    };
    let following = u32_field(&cs, "following\":");
    let followers = u32_field(&cs, "followers\":");
    let is_pro = match bare_field_exec(&cs, "is_pro\":") {
        Some(t) => parse_bool(&t),
        None => None,
    };
    let notifications = notifications_exec(&cs);
    let session_hash = quoted_field_exec(&cs, "session_hash\":\"");
    let private_channel = quoted_field_exec(&cs, "private_channel\":\"");
    let auth_token = quoted_field_exec(&cs, "auth_token\":\"");
    let date_joined = quoted_field_exec(&cs, "date_joined\":\"");
    match (
        id,
        username,
        first_name,
        last_name,
        reputation,
        following,
        followers,
        is_pro,
        notifications,
        session_hash,
        private_channel,
        auth_token,
        date_joined,
    ) {
        (
            Some(id),
            Some(username),
            Some(first_name),
            Some(last_name),
            Some(reputation),
            Some(following),
            Some(followers),
            Some(is_pro),
            Some(notifications),
            Some(session_hash),
            Some(private_channel),
            Some(auth_token),
            Some(date_joined),
        ) => Some(
            Ok(
                ProfileFields {
                    id,
                    username,
                    first_name,
                    last_name,
                    reputation,
                    following,
                    followers,
                    is_pro,
                    notifications,
                    session_hash,
                    private_channel,
                    auth_token,
                    date_joined,
                },
            ),
        ),
        _ => None,
    }
}

/// Reads a profile out of the account page: the numeric and quoted fields
/// that follow their keys, cut at the next comma or quote. A page without
/// `auth_token` is a failed authentication.
pub fn read_profile(body: &str) -> (r: Result<ProfileFields, TradingViewError>)
    requires
        signed_in_page(body@) ==> profile_readable(body@),
    ensures
        !signed_in_page(body@) ==> r == Err::<ProfileFields, TradingViewError>(
            TradingViewError::AuthenticationFailed,
        ),
        signed_in_page(body@) ==> (r matches Ok(f) && profile_of(body@, f)),
{
    match try_read_profile(body) {
        Some(r) => r,
        None => Err(TradingViewError::AuthenticationFailed),
    }
}

} // verus!
