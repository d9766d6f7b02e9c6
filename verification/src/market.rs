//! The instruments and settings a client works with: currencies, chart
//! resolutions, ticker symbols and connection options.
use vstd::prelude::*;
use crate::text::chars_of;

verus! {

/// A quote currency.
#[derive(Debug, Clone, Copy, PartialEq, Eq, Structural)]
pub enum Currency {
    Eur,
    Usd,
    Sek,
}

/// The upper-case ISO code of a currency, as it is printed and sent.
pub open spec fn currency_code(c: Currency) -> Seq<char> {
    match c {
        Currency::Eur => seq!['E', 'U', 'R'],
        Currency::Usd => seq!['U', 'S', 'D'],
        Currency::Sek => seq!['S', 'E', 'K'],
    }
}

/// The lower-case spelling of a currency code, also accepted on input.
pub open spec fn currency_code_lower(c: Currency) -> Seq<char> {
    match c {
        Currency::Eur => seq!['e', 'u', 'r'],
        Currency::Usd => seq!['u', 's', 'd'],
        Currency::Sek => seq!['s', 'e', 'k'],
    }
}

/// The currency that `s` names, in upper or lower case.
pub open spec fn currency_named(s: Seq<char>) -> Option<Currency> {
    if s == currency_code(Currency::Eur) || s == currency_code_lower(Currency::Eur) {
        Some(Currency::Eur)
    } else if s == currency_code(Currency::Usd) || s == currency_code_lower(Currency::Usd) {
        Some(Currency::Usd)
    } else if s == currency_code(Currency::Sek) || s == currency_code_lower(Currency::Sek) {
        Some(Currency::Sek)
    } else {
        None
    }
}

fn is_word(cs: &Vec<char>, a: char, b: char, c: char) -> (r: bool)
    ensures
        r == (cs@ == seq![a, b, c]),
{
    let r = cs.len() == 3 && cs[0] == a && cs[1] == b && cs[2] == c;
    proof {
        if cs@ == seq![a, b, c] {
            assert(cs@[0] == a && cs@[1] == b && cs@[2] == c);
        }
        if r {
            assert(cs@ =~= seq![a, b, c]);
        }
    }
    r
}

impl Currency {
    /// The currency named by `s` (`EUR`, `USD`, `SEK`, or the same in lower
    /// case), or `None` for any other text.
    pub fn parse(s: &str) -> (r: Option<Currency>)
        ensures
            r == currency_named(s@),
    {
        let cs = chars_of(s);
        if is_word(&cs, 'E', 'U', 'R') || is_word(&cs, 'e', 'u', 'r') {
            Some(Currency::Eur)
        } else if is_word(&cs, 'U', 'S', 'D') || is_word(&cs, 'u', 's', 'd') {
            Some(Currency::Usd)
        } else if is_word(&cs, 'S', 'E', 'K') || is_word(&cs, 's', 'e', 'k') {
            Some(Currency::Sek)
        } else {
            None
        }
    }

    /// The currency named by `s`; only the six accepted spellings may be
    /// passed.
    pub fn from(s: &str) -> (r: Currency)
        requires
            currency_named(s@) is Some,
        ensures
            Some(r) == currency_named(s@),
    {
        match Currency::parse(s) {
            Some(c) => c,
            None => Currency::Eur,
        }
    }

    /// The upper-case code of the currency (its display form).
    pub fn to_string(&self) -> (r: String)
        ensures
            r@ == currency_code(*self),
    {
        let mut r = String::new();
        match self {
            Currency::Eur => {
                crate::text::push_char(&mut r, 'E');
                crate::text::push_char(&mut r, 'U');
                crate::text::push_char(&mut r, 'R');
            },
            Currency::Usd => {
                crate::text::push_char(&mut r, 'U');
                crate::text::push_char(&mut r, 'S');
                crate::text::push_char(&mut r, 'D');
            },
            Currency::Sek => {
                crate::text::push_char(&mut r, 'S');
                crate::text::push_char(&mut r, 'E');
                crate::text::push_char(&mut r, 'K');
            },
        }
        assert(r@ =~= currency_code(*self));
        r
    }
}

/// Law: reading the printed code of a currency gives the currency back, and
/// so does reading its lower-case spelling.
pub proof fn lemma_currency_code_roundtrip(c: Currency)
    ensures
        currency_named(currency_code(c)) == Some(c),
        currency_named(currency_code_lower(c)) == Some(c),
{
    assert(currency_code(Currency::Eur) != currency_code(Currency::Usd));
    assert(currency_code(Currency::Eur)[0] != currency_code_lower(Currency::Usd)[0]);
    assert(currency_code(Currency::Eur)[0] != currency_code(Currency::Sek)[0]);
    assert(currency_code_lower(Currency::Eur)[0] != currency_code(Currency::Sek)[0]);
    assert(currency_code_lower(Currency::Eur)[0] != currency_code_lower(Currency::Sek)[0]);
    assert(currency_code_lower(Currency::Eur)[0] != currency_code(Currency::Usd)[0]);
    assert(currency_code_lower(Currency::Eur)[0] != currency_code_lower(Currency::Usd)[0]);
    assert(currency_code(Currency::Usd)[0] != currency_code(Currency::Sek)[0]);
    assert(currency_code(Currency::Usd)[0] != currency_code_lower(Currency::Sek)[0]);
    assert(currency_code_lower(Currency::Usd)[0] != currency_code(Currency::Sek)[0]);
    assert(currency_code_lower(Currency::Usd)[0] != currency_code_lower(Currency::Sek)[0]);
    assert(currency_code(Currency::Eur)[0] != currency_code_lower(Currency::Eur)[0]);
}

/// A chart resolution.
#[derive(Debug, Clone, Copy, PartialEq, Eq, Structural)]
pub enum Timeframe {
    OneMinute,
    ThreeMinutes,
    FiveMinutes,
    FifteenMinutes,
    ThirtyMinutes,
    FortyFiveMinutes,
    OneHour,
    TwoHours,
    ThreeHours,
    FourHours,
    OneDay,
    OneWeek,
    OneMonth,
}

/// The resolution code the chart service expects.
pub open spec fn timeframe_code(t: Timeframe) -> Seq<char> {
    match t {
        Timeframe::OneMinute => seq!['1'],
        Timeframe::ThreeMinutes => seq!['3'],
        Timeframe::FiveMinutes => seq!['5'],
        Timeframe::FifteenMinutes => seq!['1', '5'],
        Timeframe::ThirtyMinutes => seq!['3', '0'],
        Timeframe::FortyFiveMinutes => seq!['4', '5'],
        Timeframe::OneHour => seq!['6', '0'],
        Timeframe::TwoHours => seq!['1', '2', '0'],
        Timeframe::ThreeHours => seq!['1', '8', '0'],
        Timeframe::FourHours => seq!['2', '4', '0'],
        Timeframe::OneDay => seq!['1', 'D'],
        Timeframe::OneWeek => seq!['1', 'W'],
        Timeframe::OneMonth => seq!['1', 'M'],
    }
}

impl Timeframe {
    /// The resolution code (its display form).
    pub fn to_string(&self) -> (r: String)
        ensures
            r@ == timeframe_code(*self),
    {
        let cs: Vec<char> = match self {
            Timeframe::OneMinute => vec!['1'],
            Timeframe::ThreeMinutes => vec!['3'],
            Timeframe::FiveMinutes => vec!['5'],
            Timeframe::FifteenMinutes => vec!['1', '5'],
            Timeframe::ThirtyMinutes => vec!['3', '0'],
            Timeframe::FortyFiveMinutes => vec!['4', '5'],
            Timeframe::OneHour => vec!['6', '0'],
            Timeframe::TwoHours => vec!['1', '2', '0'],
            Timeframe::ThreeHours => vec!['1', '8', '0'],
            Timeframe::FourHours => vec!['2', '4', '0'],
            Timeframe::OneDay => vec!['1', 'D'],
            Timeframe::OneWeek => vec!['1', 'W'],
            Timeframe::OneMonth => vec!['1', 'M'],
        };
        assert(cs@ =~= timeframe_code(*self));
        crate::text::string_from_chars(&cs)
    }
}

/// Law: distinct resolutions have distinct codes, so a code names exactly
/// one resolution.
pub proof fn lemma_timeframe_code_injective(a: Timeframe, b: Timeframe)
    requires
        timeframe_code(a) == timeframe_code(b),
    ensures
        a == b,
{
    let x = timeframe_code(a);
    let y = timeframe_code(b);
    assert(x.len() == y.len());
    if x.len() > 0 {
        assert(x[0] == y[0]);
    }
    if x.len() > 1 {
        assert(x[1] == y[1]);
    }
    if x.len() > 2 {
        assert(x[2] == y[2]);
    }
}

/// An instrument and the currency its quotes are wanted in.
#[derive(Debug, Clone)]
pub struct TickerSymbol {
    pub(crate) symbol: String,
    pub(crate) currency: Currency,
}

impl TickerSymbol {
    /// The symbol's characters.
    pub closed spec fn symbol_spec(&self) -> Seq<char> {
        self.symbol@
    }

    /// The quote currency.
    pub closed spec fn currency_spec(&self) -> Currency {
        self.currency
    }

    pub fn new(symbol: String, currency: Currency) -> (r: TickerSymbol)
        ensures
            r.symbol_spec() == symbol@,
            r.currency_spec() == currency,
    {
        TickerSymbol { symbol, currency }
    }

    /// The exchange-qualified symbol, such as `NASDAQ:AAPL`.
    pub fn symbol(&self) -> (r: &str)
        ensures
            r@ == self.symbol_spec(),
    {
        self.symbol.as_str()
    }

    pub fn currency(&self) -> (r: Currency)
        ensures
            r == self.currency_spec(),
    {
        self.currency
    }
}

/// The service used when no server is configured.
pub open spec fn default_server() -> Seq<char> {
    "https://www.tradingview.com"@
}

/// The user agent sent when none is configured.
pub open spec fn default_user_agent() -> Seq<char> {
    "tradingview API /0.1.0"@
}

/// Where and as whom the client connects.
#[derive(Debug, Clone)]
pub struct ClientOptions {
    pub(crate) server: Option<String>,
    pub(crate) user_agent: Option<String>,
}

/// An optional string's characters.
pub open spec fn opt_view(o: Option<String>) -> Option<Seq<char>> {
    match o {
        Some(s) => Some(s@),
        None => None,
    }
}

impl ClientOptions {
    /// The configured server, if any.
    pub closed spec fn server_spec(&self) -> Option<Seq<char>> {
        opt_view(self.server)
    }

    /// The configured user agent, if any.
    pub closed spec fn user_agent_spec(&self) -> Option<Seq<char>> {
        opt_view(self.user_agent)
    }

    /// The server address that requests go to.
    pub open spec fn server_base(&self) -> Seq<char> {
        match self.server_spec() {
            Some(s) => s,
            None => default_server(),
        }
    }

    pub fn new(server: Option<String>, user_agent: Option<String>) -> (r: ClientOptions)
        ensures
            r.server_spec() == opt_view(server),
            r.user_agent_spec() == opt_view(user_agent),
    {
        ClientOptions { server, user_agent }
    }

    /// The configured server, or the public service.
    pub fn server_url(&self) -> (r: &str)
        ensures
            r@ == self.server_base(),
    {
        match &self.server {
            Some(s) => s.as_str(),
            None => "https://www.tradingview.com",
        }
    }

    /// The configured user agent, or the library's own.
    pub fn user_agent(&self) -> (r: &str)
        ensures
            r@ == match self.user_agent_spec() {
                Some(s) => s,
                None => default_user_agent(),
            },
    {
        match &self.user_agent {
            Some(s) => s.as_str(),
            None => "tradingview API /0.1.0",
        }
    }

    /// The server address followed by `path`.
    fn on_server(&self, path: &str) -> (r: String)
        ensures
            r@ == self.server_base() + path@,
    {
        let mut r = self.server_url().to_owned();
        r.append(path);
        r
    }

    /// The sign-in endpoint.
    pub fn signin_url(&self) -> (r: String)
        ensures
            r@ == self.server_base() + "/accounts/signin/"@,
    {
        self.on_server("/accounts/signin/")
    }

    /// The endpoint that checks a two-factor code.
    pub fn two_factor_url(&self) -> (r: String)
        ensures
            r@ == self.server_base() + "/accounts/two-factor/signin/totp/"@,
    {
        self.on_server("/accounts/two-factor/signin/totp/")
    }

    /// The `Referer` sent with account requests: the server with a trailing
    /// slash.
    pub fn referer(&self) -> (r: String)
        ensures
            r@ == self.server_base() + "/"@,
    {
        self.on_server("/")
    }
}

} // verus!
