//! Packets: the JSON messages exchanged with the quote and chart services,
//! the messages a client sends to open a subscription, and what it reads
//! from the packets it receives.
use vstd::prelude::*;
use crate::json::{
    find_key, get_field, is_number, is_string, json_string_literal, key_index, key_index_from, quote_json,
    JsonValue,
};
use crate::market::{currency_code, timeframe_code, Currency, TickerSymbol, Timeframe};
use crate::text::{decimal, text_eq};

verus! {

/// One message: a type (`m`) and optional arguments (`p`).
#[derive(Debug, PartialEq)]
pub struct TradingViewPacket {
    pub packet_type: String,
    pub data: Option<Vec<JsonValue>>,
}

/// `p` has type `ty` and exactly the string arguments `items`.
pub open spec fn strings_packet(p: TradingViewPacket, ty: Seq<char>, items: Seq<Seq<char>>) -> bool {
    &&& p.packet_type@ == ty
    &&& match p.data {
        Some(v) => v@.len() == items.len() && forall|i: int|
            0 <= i < items.len() ==> #[trigger] is_string(v@[i], items[i]),
        None => false,
    }
}

fn json_str(s: &str) -> (r: JsonValue)
    ensures
        is_string(r, s@),
{
    JsonValue::String(s.to_owned())
}

fn packet_of(ty: &str, data: Vec<JsonValue>) -> (r: TradingViewPacket)
    ensures
        r.packet_type@ == ty@,
        r.data == Some(data),
{
    TradingViewPacket { packet_type: ty.to_owned(), data: Some(data) }
}

/// The message that authenticates the connection with `auth_token` (the
/// empty token when there is none).
pub fn auth_packet(auth_token: Option<String>) -> (r: TradingViewPacket)
    ensures
        strings_packet(
            r,
            "set_auth_token"@,
            seq![
                match auth_token {
                    Some(t) => t@,
                    None => Seq::<char>::empty(),
                },
            ],
        ),
{
    let token = match auth_token {
        Some(t) => t,
        None => String::new(),
    };
    let r = packet_of("set_auth_token", vec![JsonValue::String(token)]);
    assert(r.data.unwrap()@[0] == JsonValue::String(token));
    r
}

/// The key under which a quote session knows a ticker.
pub open spec fn symbol_key_spec(symbol: Seq<char>, currency: Currency) -> Seq<char> {
    "={\"currency-id\":"@ + json_string_literal(currency_code(currency)) + ",\"symbol\":"@
        + json_string_literal(symbol) + "}"@
}

/// The key under which a chart session knows a symbol.
pub open spec fn chart_symbol_key_spec(symbol: Seq<char>, currency: Currency) -> Seq<char> {
    "={\"adjustment\":"@ + json_string_literal("splits"@) + ",\"currency-id\":"@
        + json_string_literal(currency_code(currency)) + ",\"session\":"@ + json_string_literal(
        "extended"@,
    ) + ",\"symbol\":"@ + json_string_literal(symbol) + "}"@
}

/// `=` followed by the JSON object `{"currency-id":…,"symbol":…}` that names
/// a ticker in a quote session (members in the order `serde_json` keeps).
pub fn symbol_key(ticker: &TickerSymbol) -> (r: String)
    ensures
        r@ == symbol_key_spec(ticker.symbol_spec(), ticker.currency_spec()),
{
    let code = ticker.currency().to_string();
    let mut r = "={\"currency-id\":".to_owned();
    let q = quote_json(code.as_str());
    r.append(q.as_str());
    r.append(",\"symbol\":");
    let q2 = quote_json(ticker.symbol());
    r.append(q2.as_str());
    r.append("}");
    r
}

/// `=` followed by the JSON object that names a symbol in a chart session:
/// split-adjusted prices in the extended session, in `currency`.
pub fn chart_symbol_key(symbol: &str, currency: Currency) -> (r: String)
    ensures
        r@ == chart_symbol_key_spec(symbol@, currency),
{
    let code = currency.to_string();
    let mut r = "={\"adjustment\":".to_owned();
    let q1 = quote_json("splits");
    r.append(q1.as_str());
    r.append(",\"currency-id\":");
    let q2 = quote_json(code.as_str());
    r.append(q2.as_str());
    r.append(",\"session\":");
    let q3 = quote_json("extended");
    r.append(q3.as_str());
    r.append(",\"symbol\":");
    let q4 = quote_json(symbol);
    r.append(q4.as_str());
    r.append("}");
    r
}

/// The messages that open a quote session and subscribe to `tickers`, in the
/// order they are sent: authentication, session creation, then one
/// `quote_add_symbols` per ticker.
pub fn subscribe_messages(session_id: &str, auth_token: Option<String>, tickers: &Vec<TickerSymbol>) -> (r:
    Vec<TradingViewPacket>)
    ensures
        r@.len() == tickers@.len() + 2,
        strings_packet(
            r@[0],
            "set_auth_token"@,
            seq![
                match auth_token {
                    Some(t) => t@,
                    None => Seq::<char>::empty(),
                },
            ],
        ),
        strings_packet(r@[1], "quote_create_session"@, seq![session_id@]),
        forall|i: int|
            0 <= i < tickers@.len() ==> strings_packet(
                #[trigger] r@[i + 2],
                "quote_add_symbols"@,
                seq![
                    session_id@,
                    symbol_key_spec(tickers@[i].symbol_spec(), tickers@[i].currency_spec()),
                ],
            ),
{
    let mut r: Vec<TradingViewPacket> = Vec::new();
    r.push(auth_packet(auth_token));
    r.push(packet_of("quote_create_session", vec![json_str(session_id)]));
    let mut i: usize = 0;
    while i < tickers.len()
        invariant
            i <= tickers@.len(),
            r@.len() == i + 2,
            strings_packet(
                r@[0],
                "set_auth_token"@,
                seq![
                    match auth_token {
                        Some(t) => t@,
                        None => Seq::<char>::empty(),
                    },
                ],
            ),
            strings_packet(r@[1], "quote_create_session"@, seq![session_id@]),
            forall|j: int|
                0 <= j < i ==> strings_packet(
                    #[trigger] r@[j + 2],
                    "quote_add_symbols"@,
                    seq![
                        session_id@,
                        symbol_key_spec(tickers@[j].symbol_spec(), tickers@[j].currency_spec()),
                    ],
                ),
        decreases tickers@.len() - i,
    {
        let key = symbol_key(&tickers[i]);
        let p = packet_of("quote_add_symbols", vec![json_str(session_id), JsonValue::String(key)]);
        r.push(p);
        i = i + 1;
    }
    r
}

/// The messages that ask for the chart of `symbol`, in the order they are
/// sent: authentication, chart session creation, symbol resolution, and a
/// price series of `range` bars at resolution `timeframe`.
pub fn historical_messages(
    session_id: &str,
    auth_token: Option<String>,
    symbol: &str,
    timeframe: Timeframe,
    range: u32,
    currency: Currency,
) -> (r: Vec<TradingViewPacket>)
    ensures
        r@.len() == 4,
        strings_packet(
            r@[0],
            "set_auth_token"@,
            seq![
                match auth_token {
                    Some(t) => t@,
                    None => Seq::<char>::empty(),
                },
            ],
        ),
        strings_packet(r@[1], "chart_create_session"@, seq![session_id@]),
        strings_packet(
            r@[2],
            "resolve_symbol"@,
            seq![session_id@, "sds_sym_1"@, chart_symbol_key_spec(symbol@, currency)],
        ),
        r@[3].packet_type@ == "create_series"@,
        r@[3].data matches Some(v) && v@.len() == 6 && is_string(v@[0], session_id@) && is_string(
            v@[1],
            "$prices"@,
        ) && is_string(v@[2], "s1"@) && is_string(v@[3], "sds_sym_1"@) && is_string(
            v@[4],
            timeframe_code(timeframe),
        ) && is_number(v@[5], decimal(range as nat)),
{
    let mut r: Vec<TradingViewPacket> = Vec::new();
    r.push(auth_packet(auth_token));
    r.push(packet_of("chart_create_session", vec![json_str(session_id)]));
    let key = chart_symbol_key(symbol, currency);
    let d2 = vec![json_str(session_id), json_str("sds_sym_1"), JsonValue::String(key)];
    r.push(packet_of("resolve_symbol", d2));
    let d3 = vec![
        json_str(session_id),
        json_str("$prices"),
        json_str("s1"),
        json_str("sds_sym_1"),
        JsonValue::String(timeframe.to_string()),
        JsonValue::Number(crate::text::decimal_string(range as u64)),
    ];
    r.push(packet_of("create_series", d3));
    r
}

/// The messages that ask for the quotes of `tickers` at once, in the order
/// they are sent: authentication, session creation, and one
/// `quote_add_symbols` naming every symbol.
pub fn instrument_messages(session_id: &str, auth_token: Option<String>, tickers: &Vec<TickerSymbol>) -> (r:
    Vec<TradingViewPacket>)
    ensures
        r@.len() == 3,
        strings_packet(
            r@[0],
            "set_auth_token"@,
            seq![
                match auth_token {
                    Some(t) => t@,
                    None => Seq::<char>::empty(),
                },
            ],
        ),
        strings_packet(r@[1], "quote_create_session"@, seq![session_id@]),
        strings_packet(
            r@[2],
            "quote_add_symbols"@,
            seq![session_id@] + tickers@.map_values(|t: TickerSymbol| t.symbol_spec()),
        ),
{
    let mut r: Vec<TradingViewPacket> = Vec::new();
    r.push(auth_packet(auth_token));
    r.push(packet_of("quote_create_session", vec![json_str(session_id)]));
    let mut data: Vec<JsonValue> = vec![json_str(session_id)];
    let ghost items = seq![session_id@] + tickers@.map_values(|t: TickerSymbol| t.symbol_spec());
    let mut i: usize = 0;
    while i < tickers.len()
        invariant
            i <= tickers@.len(),
            items == seq![session_id@] + tickers@.map_values(|t: TickerSymbol| t.symbol_spec()),
            data@.len() == i + 1,
            forall|j: int| 0 <= j <= i ==> #[trigger] is_string(data@[j], items[j]),
        decreases tickers@.len() - i,
    {
        data.push(json_str(tickers[i].symbol()));
        i = i + 1;
    }
    r.push(packet_of("quote_add_symbols", data));
    r
}

// ---------------------------------------------------------------------------
// Reading received packets
// ---------------------------------------------------------------------------

/// The member `n` of the second argument, when it is a string that starts
/// with `=`: its position and its text.
pub open spec fn symbol_marker(p: TradingViewPacket) -> Option<(int, Seq<char>)> {
    match p.data {
        Some(v) => if v@.len() > 1 {
            match v@[1] {
                JsonValue::Object(fs) => match key_index(fs@, "n"@) {
                    Some(k) => match fs@[k].1 {
                        JsonValue::String(s) => if s@.len() > 0 && s@[0] == '=' {
                            Some((k, s@))
                        } else {
                            None
                        },
                        _ => None,
                    },
                    None => None,
                },
                _ => None,
            }
        } else {
            None
        },
        None => None,
    }
}

/// `new` is `old` with the leading `=` of the member at position `k` of its
/// second argument removed, leaving the text `rest`.
pub open spec fn marker_removed(old: TradingViewPacket, new: TradingViewPacket, k: int, rest: Seq<
    char,
>) -> bool {
    &&& new.packet_type == old.packet_type
    &&& old.data matches Some(v)
    &&& new.data matches Some(v2)
    &&& v2@.len() == v@.len()
    &&& forall|i: int| 0 <= i < v@.len() && i != 1 ==> v2@[i] == v@[i]
    &&& v@[1] matches JsonValue::Object(fs)
    &&& v2@[1] matches JsonValue::Object(fs2)
    &&& fs2@.len() == fs@.len()
    &&& forall|j: int| 0 <= j < fs@.len() && j != k ==> fs2@[j] == fs@[j]
    &&& fs2@[k].0 == fs@[k].0
    &&& is_string(fs2@[k].1, rest)
}

/// Drops the first character of a string.
fn drop_first_char(s: &String) -> (r: String)
    requires
        s@.len() > 0,
    ensures
        r@ == s@.skip(1),
{
    let cs = crate::text::chars_of(s.as_str());
    let r = crate::text::string_of(&cs, 1, cs.len());
    assert(cs@.subrange(1, cs@.len() as int) =~= s@.skip(1));
    r
}

/// Where the second argument names its symbol as `=…` (in member `n`), the
/// `=` is removed; every other packet is returned unchanged.
pub fn strip_symbol_marker(packet: TradingViewPacket) -> (r: TradingViewPacket)
    ensures
        match symbol_marker(packet) {
            None => r == packet,
            Some((k, s)) => marker_removed(packet, r, k, s.skip(1)),
        },
{
    let found: Option<usize> = match &packet.data {
        Some(v) => if v.len() > 1 {
            match &v[1] {
                JsonValue::Object(fs) => match find_key(fs, "n") {
                    Some(k) => match &fs[k].1 {
                        JsonValue::String(t) => {
                            let cs = crate::text::chars_of(t.as_str());
                            if cs.len() > 0 && cs[0] == '=' {
                                Some(k)
                            } else {
                                None
                            }
                        },
                        _ => None,
                    },
                    None => None,
                },
                _ => None,
            }
        } else {
            None
        },
        None => None,
    };
    match found {
        None => packet,
        Some(k) => {
            let TradingViewPacket { packet_type, data } = packet;
            let mut v = match data {
                Some(v) => v,
                None => Vec::new(),
            };
            let second = v.remove(1);
            let second2 = match second {
                JsonValue::Object(mut fs) => {
                    let (key, val) = fs.remove(k);
                    let val2 = match val {
                        JsonValue::String(t) => JsonValue::String(drop_first_char(&t)),
                        other => other,
                    };
                    fs.insert(k, (key, val2));
                    JsonValue::Object(fs)
                },
                other => other,
            };
            v.insert(1, second2);
            TradingViewPacket { packet_type, data: Some(v) }
        },
    }
}

/// What a decoded piece of a message turned out to be.
#[derive(Debug, PartialEq)]
pub enum WsItem {
    Packet(TradingViewPacket),
    Ping(i32),
}

/// The server reports a failure of the whole connection.
pub open spec fn is_critical(p: TradingViewPacket) -> bool {
    p.packet_type@ == "protocol_error"@ || p.packet_type@ == "critical_error"@
}

/// The second argument says `"s":"error"`.
pub open spec fn reports_error(p: TradingViewPacket) -> bool {
    match p.data {
        Some(v) => v@.len() > 1 && match get_field(v@[1], "s"@) {
            Some(s) => is_string(s, "error"@),
            None => false,
        },
        None => false,
    }
}

/// Handling a message stops at this item.
pub open spec fn stops_at(item: WsItem) -> bool {
    match item {
        WsItem::Packet(p) => is_critical(p) || reports_error(p),
        WsItem::Ping(_) => false,
    }
}

/// The position of the first item at which handling stops, from `i` on.
pub open spec fn first_stop_from(items: Seq<WsItem>, i: int) -> Option<int>
    decreases items.len() - i,
{
    if i < 0 || i >= items.len() {
        None
    } else if stops_at(items[i]) {
        Some(i)
    } else {
        first_stop_from(items, i + 1)
    }
}

/// The heartbeat numbers among `items`, in order.
pub open spec fn pings_of(items: Seq<WsItem>) -> Seq<i32>
    decreases items.len(),
{
    if items.len() == 0 {
        Seq::empty()
    } else {
        pings_of(items.drop_last()) + match items.last() {
            WsItem::Ping(n) => seq![n],
            WsItem::Packet(_) => Seq::<i32>::empty(),
        }
    }
}

/// The packets among `items`, in order.
pub open spec fn packets_of(items: Seq<WsItem>) -> Seq<TradingViewPacket>
    decreases items.len(),
{
    if items.len() == 0 {
        Seq::empty()
    } else {
        packets_of(items.drop_last()) + match items.last() {
            WsItem::Packet(p) => seq![p],
            WsItem::Ping(_) => Seq::<TradingViewPacket>::empty(),
        }
    }
}

/// How handling one message ends.
#[derive(Debug, PartialEq)]
pub enum PackageOutcome {
    /// Every packet, in order; the connection goes on.
    Delivered(Vec<TradingViewPacket>),
    /// The server reported a critical error with these arguments; the
    /// connection is closed.
    Critical(Vec<JsonValue>),
    /// This packet reported an error.
    Rejected(TradingViewPacket),
}

/// What to do with one message: the heartbeats to answer first, in order,
/// then how it ends.
#[derive(Debug, PartialEq)]
pub struct PackagePlan {
    pub pings: Vec<i32>,
    pub outcome: PackageOutcome,
}

/// The plan for a message whose items are `items`.
pub open spec fn plan_holds(items: Seq<WsItem>, plan: PackagePlan) -> bool {
    match first_stop_from(items, 0) {
        None => {
            &&& plan.pings@ == pings_of(items)
            &&& plan.outcome matches PackageOutcome::Delivered(ps)
            &&& ps@ == packets_of(items)
        },
        Some(k) => {
            &&& plan.pings@ == pings_of(items.take(k))
            &&& items[k] matches WsItem::Packet(p)
            &&& if is_critical(p) {
                plan.outcome matches PackageOutcome::Critical(d) && d@ == match p.data {
                    Some(v) => v@,
                    None => Seq::<JsonValue>::empty(),
                }
            } else {
                plan.outcome == PackageOutcome::Rejected(p)
            }
        },
    }
}

fn is_critical_exec(p: &TradingViewPacket) -> (r: bool)
    ensures
        r == is_critical(*p),
{
    text_eq(p.packet_type.as_str(), "protocol_error") || text_eq(p.packet_type.as_str(), "critical_error")
}

fn reports_error_exec(p: &TradingViewPacket) -> (r: bool)
    ensures
        r == reports_error(*p),
{
    match &p.data {
        Some(v) => if v.len() > 1 {
            match v[1].get("s") {
                Some(s) => s.is_str("error"),
                None => false,
            }
        } else {
            false
        },
        None => false,
    }
}

proof fn lemma_prefix_step(items: Seq<WsItem>, i: int)
    requires
        0 <= i < items.len(),
    ensures
        pings_of(items.take(i + 1)) == pings_of(items.take(i)) + match items[i] {
            WsItem::Ping(n) => seq![n],
            WsItem::Packet(_) => Seq::<i32>::empty(),
        },
        packets_of(items.take(i + 1)) == packets_of(items.take(i)) + match items[i] {
            WsItem::Packet(p) => seq![p],
            WsItem::Ping(_) => Seq::<TradingViewPacket>::empty(),
        },
{
    assert(items.take(i + 1).drop_last() =~= items.take(i));
    assert(items.take(i + 1).last() == items[i]);
}

/// Decides what to do with the items of one message: heartbeats are
/// answered in order; the first critical packet closes the connection and
/// the first packet that reports an error ends handling; otherwise every
/// packet is delivered.
pub fn plan_ws_package(items: Vec<WsItem>) -> (r: PackagePlan)
    ensures
        plan_holds(items@, r),
{
    let ghost all = items@;
    let mut pings: Vec<i32> = Vec::new();
    let mut packets: Vec<TradingViewPacket> = Vec::new();
    let n = items.len();
    let mut idx: usize = 0;
    assert(all.take(0) =~= Seq::<WsItem>::empty());
    for item in it: items
        invariant
            it.seq() == all,
            all.len() == n,
            idx == it.index(),
            0 <= idx <= all.len(),
            first_stop_from(all, 0) == first_stop_from(all, idx as int),
            pings@ == pings_of(all.take(idx as int)),
            packets@ == packets_of(all.take(idx as int)),
    {
        assert(item == all[idx as int]);
        proof {
            lemma_prefix_step(all, idx as int);
        }
        match item {
            WsItem::Packet(mut p) => {
                if is_critical_exec(&p) {
                    let d = match p.data {
                        Some(v) => v,
                        None => Vec::new(),
                    };
                    return PackagePlan { pings, outcome: PackageOutcome::Critical(d) };
                }
                if reports_error_exec(&p) {
                    return PackagePlan { pings, outcome: PackageOutcome::Rejected(p) };
                }
                packets.push(p);
            },
            WsItem::Ping(n) => {
                pings.push(n);
            },
        }
        idx = idx + 1;
    }
    assert(all.take(idx as int) =~= all);
    PackagePlan { pings, outcome: PackageOutcome::Delivered(packets) }
}

/// The packet is a quote update (`qsd`) with arguments.
pub open spec fn is_quote_update(p: TradingViewPacket) -> bool {
    p.packet_type@ == "qsd"@ && p.data is Some
}

/// A quote update can be inspected: its second argument is an object whose
/// member `s` is a string (reading any other quote update fails).
pub open spec fn quote_readable(p: TradingViewPacket) -> bool {
    is_quote_update(p) ==> match p.data {
        Some(v) => v@.len() > 1 && v@[1] is Object && get_field(v@[1], "s"@) matches Some(
            JsonValue::String(_),
        ),
        None => false,
    }
}

/// A quote update whose status `s` is `ok`.
pub open spec fn is_ok_quote(p: TradingViewPacket) -> bool {
    &&& is_quote_update(p)
    &&& p.data matches Some(v)
    &&& v@.len() > 1
    &&& get_field(v@[1], "s"@) matches Some(s)
    &&& is_string(s, "ok"@)
}

/// The parts of a quote update that prices are read from.
#[derive(Debug, PartialEq)]
pub struct QuoteUpdate {
    /// The symbol member `n`, or the empty text when it is missing.
    pub symbol_text: String,
    /// The members of the values object `v`.
    pub values: Vec<(String, JsonValue)>,
}

/// What `quote_update` gives for `p`: for an `ok` quote update whose last
/// argument is an object with a values object `v`, that object's members and
/// the text of `n`; nothing otherwise.
pub open spec fn quote_update_holds(p: TradingViewPacket, r: Option<QuoteUpdate>) -> bool {
    if !is_ok_quote(p) {
        r is None
    } else {
        let last = p.data.unwrap()@.last();
        match get_field(last, "v"@) {
            Some(JsonValue::Object(vf)) => r matches Some(q) && q.values == vf && q.symbol_text@
                == match get_field(last, "n"@) {
                Some(JsonValue::String(n)) => n@,
                _ => Seq::<char>::empty(),
            },
            _ => r is None,
        }
    }
}

/// The quote update can be inspected (see `quote_readable`).
pub fn is_quote_readable(p: &TradingViewPacket) -> (r: bool)
    ensures
        r == quote_readable(*p),
{
    if !(text_eq(p.packet_type.as_str(), "qsd") && p.data.is_some()) {
        return true;
    }
    match &p.data {
        Some(v) => v.len() > 1 && match &v[1] {
            JsonValue::Object(_) => match v[1].get("s") {
                Some(JsonValue::String(_)) => true,
                _ => false,
            },
            _ => false,
        },
        None => true,
    }
}

/// Picks the quote data out of a received packet, for ok quote updates.
pub fn quote_update(packet: TradingViewPacket) -> (r: Option<QuoteUpdate>)
    requires
        quote_readable(packet),
    ensures
        quote_update_holds(packet, r),
{
    let qsd = text_eq(packet.packet_type.as_str(), "qsd");
    if !qsd || packet.data.is_none() {
        return None;
    }
    let ok = match &packet.data {
        Some(v) => match v[1].get("s") {
            Some(s) => s.is_str("ok"),
            None => false,
        },
        None => false,
    };
    if !ok {
        return None;
    }
    let ghost d = packet.data.unwrap()@;
    let mut v = match packet.data {
        Some(v) => v,
        None => Vec::new(),
    };
    let last = match v.pop() {
        Some(x) => x,
        None => JsonValue::Null,
    };
    assert(last == d.last());
    let symbol_text = match last.get("n") {
        Some(JsonValue::String(n)) => n.clone(),
        _ => String::new(),
    };
    match last {
        JsonValue::Object(mut fs) => match find_key(&fs, "v") {
            Some(k) => {
                let (_key, val) = fs.remove(k);
                match val {
                    JsonValue::Object(vf) => Some(QuoteUpdate { symbol_text, values: vf }),
                    _ => None,
                }
            },
            None => None,
        },
        _ => None,
    }
}

/// The symbol a quote update names, given what its symbol text reads as in
/// JSON: none where the text is not JSON; the `symbol` member where it is a
/// string; the empty text otherwise (no such member, or not a string).
pub open spec fn symbol_of_parsed(parsed: Option<JsonValue>) -> Option<Seq<char>> {
    match parsed {
        None => None,
        Some(v) => match get_field(v, "symbol"@) {
            Some(JsonValue::String(m)) => Some(m@),
            _ => Some(Seq::empty()),
        },
    }
}

/// Reads the symbol of a quote update out of its symbol text parsed as JSON
/// (`None` where the text is not JSON; see `symbol_of_parsed`).
pub fn quote_symbol(parsed: &Option<JsonValue>) -> (r: Option<String>)
    ensures
        match symbol_of_parsed(*parsed) {
            None => r is None,
            Some(t) => r matches Some(u) && u@ == t,
        },
{
    match parsed {
        None => None,
        Some(v) => match v.get("symbol") {
            Some(JsonValue::String(m)) => Some(m.clone()),
            _ => Some(String::new()),
        },
    }
}

/// The packet carries chart bars (`timescale_update` with arguments).
pub fn is_timescale_update(p: &TradingViewPacket) -> (r: bool)
    ensures
        r == (p.packet_type@ == "timescale_update"@ && p.data is Some),
{
    text_eq(p.packet_type.as_str(), "timescale_update") && p.data.is_some()
}

/// The series list `$prices.s` of the second argument, if present.
pub open spec fn series_list(p: TradingViewPacket) -> Option<JsonValue> {
    match p.data {
        Some(v) => if v@.len() > 1 {
            match get_field(v@[1], "$prices"@) {
                Some(prices) => get_field(prices, "s"@),
                None => None,
            }
        } else {
            None
        },
        None => None,
    }
}

/// The series list can be read: where `$prices.s` is present it is an array
/// (reading any other fails).
pub open spec fn rows_readable(p: TradingViewPacket) -> bool {
    series_list(p) matches Some(s) ==> s is Array
}

/// The bar rows of a series list: the array `v` of every item that has one,
/// in order.
pub open spec fn rows_of(items: Seq<JsonValue>) -> Seq<Vec<JsonValue>>
    decreases items.len(),
{
    if items.len() == 0 {
        Seq::empty()
    } else {
        rows_of(items.drop_last()) + match get_field(items.last(), "v"@) {
            Some(JsonValue::Array(a)) => seq![a],
            _ => Seq::<Vec<JsonValue>>::empty(),
        }
    }
}

/// The bar rows of a packet: those of `$prices.s`, or none.
pub open spec fn price_rows_spec(p: TradingViewPacket) -> Seq<Vec<JsonValue>> {
    match series_list(p) {
        Some(JsonValue::Array(items)) => rows_of(items@),
        _ => Seq::empty(),
    }
}

/// The series list can be read (see `rows_readable`).
pub fn is_rows_readable(p: &TradingViewPacket) -> (r: bool)
    ensures
        r == rows_readable(*p),
{
    match &p.data {
        Some(v) => if v.len() > 1 {
            match v[1].get("$prices") {
                Some(prices) => match prices.get("s") {
                    Some(JsonValue::Array(_)) => true,
                    Some(_) => false,
                    None => true,
                },
                None => true,
            }
        } else {
            true
        },
        None => true,
    }
}

/// Takes out the member `key` of an object, if it has one.
fn take_field(v: JsonValue, key: &str) -> (r: Option<JsonValue>)
    ensures
        r == get_field(v, key@),
{
    match v {
        JsonValue::Object(mut fs) => match find_key(&fs, key) {
            Some(k) => {
                let (_key, val) = fs.remove(k);
                Some(val)
            },
            None => None,
        },
        _ => None,
    }
}

/// The bar rows of a chart packet: every `v` array in `$prices.s`, in order.
pub fn price_rows(packet: TradingViewPacket) -> (r: Vec<Vec<JsonValue>>)
    requires
        rows_readable(packet),
    ensures
        r@ == price_rows_spec(packet),
{
    let ghost p0 = packet;
    let mut v = match packet.data {
        Some(v) => v,
        None => {
            return Vec::new();
        },
    };
    if v.len() < 2 {
        return Vec::new();
    }
    let second = v.remove(1);
    let prices = match take_field(second, "$prices") {
        Some(x) => x,
        None => {
            return Vec::new();
        },
    };
    let series = match take_field(prices, "s") {
        Some(x) => x,
        None => {
            return Vec::new();
        },
    };
    let items = match series {
        JsonValue::Array(items) => items,
        _ => {
            return Vec::new();
        },
    };
    let ghost all = items@;
    let n = items.len();
    let mut rows: Vec<Vec<JsonValue>> = Vec::new();
    let mut idx: usize = 0;
    assert(all.take(0) =~= Seq::<JsonValue>::empty());
    for item in it: items
        invariant
            it.seq() == all,
            all.len() == n,
            idx == it.index(),
            idx <= n,
            rows@ == rows_of(all.take(idx as int)),
    {
        assert(item == all[idx as int]);
        assert(all.take(idx + 1).drop_last() =~= all.take(idx as int));
        assert(all.take(idx + 1).last() == item);
        match take_field(item, "v") {
            Some(JsonValue::Array(a)) => {
                rows.push(a);
            },
            _ => {},
        }
        idx = idx + 1;
    }
    assert(all.take(n as int) =~= all);
    rows
}

proof fn lemma_first_stop_none(items: Seq<WsItem>, i: int)
    requires
        0 <= i,
        first_stop_from(items, i) is None,
    ensures
        forall|k: int| i <= k < items.len() ==> !stops_at(#[trigger] items[k]),
    decreases items.len() - i,
{
    if i < items.len() {
        lemma_first_stop_none(items, i + 1);
    }
}

proof fn lemma_packets_clean(items: Seq<WsItem>)
    requires
        forall|k: int| 0 <= k < items.len() ==> !stops_at(#[trigger] items[k]),
    ensures
        forall|k: int|
            0 <= k < packets_of(items).len() ==> !is_critical(#[trigger] packets_of(items)[k])
                && !reports_error(packets_of(items)[k]),
    decreases items.len(),
{
    if items.len() > 0 {
        let front = items.drop_last();
        assert forall|k: int| 0 <= k < front.len() implies !stops_at(#[trigger] front[k]) by {
            assert(front[k] == items[k]);
        }
        lemma_packets_clean(front);
        let last = items[items.len() - 1];
        assert(!stops_at(last));
        assert(items.last() == last);
        let pf = packets_of(front);
        let all = packets_of(items);
        assert forall|k: int| 0 <= k < all.len() implies !is_critical(#[trigger] all[k])
            && !reports_error(all[k]) by {
            if k < pf.len() {
                assert(all[k] == pf[k]);
            } else {
                match last {
                    WsItem::Packet(p) => {
                        assert(all[k] == p);
                    },
                    WsItem::Ping(_) => {},
                }
            }
        }
    }
}

/// Law: a message is delivered only when none of its packets is critical or
/// reports an error, so no delivered packet ever is one.
pub proof fn lemma_delivered_packets_clean(items: Seq<WsItem>, plan: PackagePlan)
    requires
        plan_holds(items, plan),
        plan.outcome is Delivered,
    ensures
        forall|k: int|
            0 <= k < packets_of(items).len() ==> !is_critical(#[trigger] packets_of(items)[k])
                && !reports_error(packets_of(items)[k]),
{
    lemma_first_stop_none(items, 0);
    lemma_packets_clean(items);
}


// ---------------------------------------------------------------------------
// What received packets are turned into
// ---------------------------------------------------------------------------

/// The symbol member `n` of a packet's second argument, if it has one.
pub open spec fn symbol_member(p: TradingViewPacket) -> Option<JsonValue> {
    match p.data {
        Some(v) => if v@.len() > 1 {
            get_field(v@[1], "n"@)
        } else {
            None
        },
        None => None,
    }
}

/// The symbol member is a text that begins with `=`.
pub open spec fn symbol_marked(p: TradingViewPacket) -> bool {
    symbol_member(p) matches Some(JsonValue::String(t)) && t@.len() > 0 && t@[0] == '='
}

proof fn lemma_same_keys_same_index(
    fs: Seq<(String, JsonValue)>,
    gs: Seq<(String, JsonValue)>,
    key: Seq<char>,
    i: int,
)
    requires
        gs.len() == fs.len(),
        forall|j: int| 0 <= j < fs.len() ==> #[trigger] gs[j].0 == fs[j].0,
    ensures
        key_index_from(gs, key, i) == key_index_from(fs, key, i),
    decreases fs.len() - i,
{
    if 0 <= i < fs.len() {
        assert(gs[i].0 == fs[i].0);
        lemma_same_keys_same_index(fs, gs, key, i + 1);
    }
}

/// Law: stripping the symbol marker leaves a packet exactly as it was unless
/// its symbol member is a text beginning with `=`; then that member becomes
/// the same text without its first character, under the same packet type.
pub proof fn lemma_symbol_marker_stripped(packet: TradingViewPacket, r: TradingViewPacket)
    requires
        match symbol_marker(packet) {
            None => r == packet,
            Some((k, s)) => marker_removed(packet, r, k, s.skip(1)),
        },
    ensures
        !symbol_marked(packet) ==> r == packet,
        symbol_marked(packet) ==> {
            &&& r.packet_type == packet.packet_type
            &&& symbol_member(packet) matches Some(JsonValue::String(t))
            &&& symbol_member(r) matches Some(JsonValue::String(u))
            &&& u@ == t@.skip(1)
            &&& packet.data matches Some(v)
            &&& r.data matches Some(w)
            &&& w@.len() == v@.len()
            &&& forall|i: int| 0 <= i < v@.len() && i != 1 ==> w@[i] == v@[i]
            &&& forall|key: Seq<char>|
                key != "n"@ ==> #[trigger] get_field(w@[1], key) == get_field(v@[1], key)
        },
{
    if let Some((k, s)) = symbol_marker(packet) {
        let v = packet.data.unwrap();
        let v2 = r.data.unwrap();
        let fs = v@[1]->Object_0;
        let gs = v2@[1]->Object_0;
        assert forall|j: int| 0 <= j < fs@.len() implies #[trigger] gs@[j].0 == fs@[j].0 by {
            if j != k {
                assert(gs@[j] == fs@[j]);
            }
        }
        lemma_same_keys_same_index(fs@, gs@, "n"@, 0);
        assert forall|key: Seq<char>| key != "n"@ implies #[trigger] get_field(v2@[1], key)
            == get_field(v@[1], key) by {
            lemma_same_keys_same_index(fs@, gs@, key, 0);
            if let Some(idx) = key_index(fs@, key) {
                lemma_key_index_names(fs@, key, 0);
                if idx == k {
                    lemma_key_index_names(fs@, "n"@, 0);
                    assert(fs@[k].0@ == "n"@);
                }
            }
        }
    }
}

proof fn lemma_key_index_names(fs: Seq<(String, JsonValue)>, key: Seq<char>, i: int)
    ensures
        key_index_from(fs, key, i) matches Some(j) ==> 0 <= j < fs.len() && fs[j].0@ == key,
    decreases fs.len() - i,
{
    if 0 <= i < fs.len() && fs[i].0@ != key {
        lemma_key_index_names(fs, key, i + 1);
    }
}

/// The packets among `items`, in order, told by `Seq::filter` and
/// `Seq::map_values`.
pub open spec fn packet_items(items: Seq<WsItem>) -> Seq<TradingViewPacket> {
    items.filter(|it: WsItem| it is Packet).map_values(|it: WsItem| it->Packet_0)
}

proof fn lemma_packets_of_filter(items: Seq<WsItem>)
    ensures
        packets_of(items) == packet_items(items),
    decreases items.len(),
{
    reveal(Seq::filter);
    if items.len() > 0 {
        let init = items.drop_last();
        lemma_packets_of_filter(init);
        let f = init.filter(|it: WsItem| it is Packet);
        if items.last() is Packet {
            assert(items.filter(|it: WsItem| it is Packet) == f.push(items.last()));
            assert(f.push(items.last()).map_values(|it: WsItem| it->Packet_0) =~= f.map_values(
                |it: WsItem| it->Packet_0,
            ).push(items.last()->Packet_0));
            assert(packets_of(items) =~= packet_items(items));
        } else {
            assert(items.filter(|it: WsItem| it is Packet) == f);
            assert(packets_of(items) =~= packet_items(items));
        }
    } else {
        assert(packet_items(items) =~= Seq::<TradingViewPacket>::empty());
    }
}

/// Law: when no packet of a message is critical or reports an error,
/// handling it delivers every packet of the message, in order, and nothing
/// else: as many packets as the message has packet items.
pub proof fn lemma_every_packet_delivered(items: Seq<WsItem>, plan: PackagePlan)
    requires
        plan_holds(items, plan),
        forall|i: int|
            0 <= i < items.len() ==> (#[trigger] items[i] matches WsItem::Packet(p) ==> !is_critical(
                p,
            ) && !reports_error(p)),
    ensures
        plan.outcome matches PackageOutcome::Delivered(ps) && ps@ == packet_items(items),
        plan.pings@ == ping_items(items),
        plan.outcome matches PackageOutcome::Delivered(ps) && ps@.len() == items.filter(
            |it: WsItem| it is Packet,
        ).len(),
{
    lemma_no_stop(items, 0);
    lemma_packets_of_filter(items);
    lemma_pings_of_filter(items);
}

/// The heartbeat numbers among `items`, in order, told by `Seq::filter` and
/// `Seq::map_values`.
pub open spec fn ping_items(items: Seq<WsItem>) -> Seq<i32> {
    items.filter(|it: WsItem| it is Ping).map_values(|it: WsItem| it->Ping_0)
}

proof fn lemma_pings_of_filter(items: Seq<WsItem>)
    ensures
        pings_of(items) == ping_items(items),
    decreases items.len(),
{
    reveal(Seq::filter);
    if items.len() > 0 {
        let init = items.drop_last();
        lemma_pings_of_filter(init);
        let f = init.filter(|it: WsItem| it is Ping);
        if items.last() is Ping {
            assert(items.filter(|it: WsItem| it is Ping) == f.push(items.last()));
            assert(f.push(items.last()).map_values(|it: WsItem| it->Ping_0) =~= f.map_values(
                |it: WsItem| it->Ping_0,
            ).push(items.last()->Ping_0));
            assert(pings_of(items) =~= ping_items(items));
        } else {
            assert(items.filter(|it: WsItem| it is Ping) == f);
            assert(pings_of(items) =~= ping_items(items));
        }
    } else {
        assert(ping_items(items) =~= Seq::<i32>::empty());
    }
}

proof fn lemma_no_stop(items: Seq<WsItem>, i: int)
    requires
        0 <= i,
        forall|j: int|
            0 <= j < items.len() ==> (#[trigger] items[j] matches WsItem::Packet(p) ==> !is_critical(
                p,
            ) && !reports_error(p)),
    ensures
        first_stop_from(items, i) is None,
    decreases items.len() - i,
{
    if i < items.len() {
        assert(!stops_at(items[i]));
        lemma_no_stop(items, i + 1);
    }
}

/// Law: the values of an ok quote update are all the members of its values
/// object `v`, in order, so every member read from them (last price,
/// change, change percent, volume, time) is the one the server sent.
pub proof fn lemma_quote_values_whole(p: TradingViewPacket, r: Option<QuoteUpdate>, vf: Vec<
    (String, JsonValue),
>)
    requires
        quote_update_holds(p, r),
        is_ok_quote(p),
        get_field(p.data.unwrap()@.last(), "v"@) == Some(JsonValue::Object(vf)),
    ensures
        r matches Some(q) && q.values@ == vf@,
        r matches Some(q) && q.values@.len() == vf@.len(),
        r matches Some(q) && forall|key: Seq<char>|
            get_field(JsonValue::Object(q.values), key) == get_field(JsonValue::Object(vf), key),
        r matches Some(q) && (get_field(p.data.unwrap()@.last(), "n"@) matches Some(
            JsonValue::String(n),
        ) ==> q.symbol_text@ == n@),
{
}

/// The `v` array of a series item, where it has one.
pub open spec fn has_bar(item: JsonValue) -> bool {
    get_field(item, "v"@) matches Some(JsonValue::Array(_))
}

/// The rows of a series list told by `Seq::filter` and `Seq::map_values`:
/// the `v` array of every item that has one, in order.
pub open spec fn bar_arrays(items: Seq<JsonValue>) -> Seq<Vec<JsonValue>> {
    items.filter(|it: JsonValue| has_bar(it)).map_values(
        |it: JsonValue| get_field(it, "v"@)->Some_0->Array_0,
    )
}

proof fn lemma_rows_of_filter(items: Seq<JsonValue>)
    ensures
        rows_of(items) == bar_arrays(items),
    decreases items.len(),
{
    reveal(Seq::filter);
    if items.len() > 0 {
        let init = items.drop_last();
        lemma_rows_of_filter(init);
        let f = init.filter(|it: JsonValue| has_bar(it));
        let g = |it: JsonValue| get_field(it, "v"@)->Some_0->Array_0;
        if has_bar(items.last()) {
            assert(items.filter(|it: JsonValue| has_bar(it)) == f.push(items.last()));
            assert(f.push(items.last()).map_values(g) =~= f.map_values(g).push(g(items.last())));
            assert(rows_of(items) =~= bar_arrays(items));
        } else {
            assert(items.filter(|it: JsonValue| has_bar(it)) == f);
            assert(rows_of(items) =~= bar_arrays(items));
        }
    } else {
        assert(bar_arrays(items) =~= Seq::<Vec<JsonValue>>::empty());
    }
}

/// Law: a packet without a `$prices.s` array has no rows.
pub proof fn lemma_no_series_no_rows(p: TradingViewPacket)
    requires
        !(series_list(p) matches Some(JsonValue::Array(_))),
    ensures
        price_rows_spec(p).len() == 0,
{
}

/// Law: the rows of a chart packet are the `v` arrays of every item of
/// `$prices.s` that has one, in order: as many rows as such items.
pub proof fn lemma_rows_are_every_bar(p: TradingViewPacket, items: Vec<JsonValue>)
    requires
        series_list(p) == Some(JsonValue::Array(items)),
    ensures
        price_rows_spec(p) == bar_arrays(items@),
        price_rows_spec(p).len() == items@.filter(|it: JsonValue| has_bar(it)).len(),
{
    lemma_rows_of_filter(items@);
}

} // verus!
