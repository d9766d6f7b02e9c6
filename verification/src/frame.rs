//! The websocket wire format: every payload travels as `~m~<len>~m~<payload>`,
//! where `<len>` is the payload's length in UTF-8 bytes, several frames may
//! share one websocket message, and `~h~` marks heartbeats.
use vstd::prelude::*;
use vstd::utf8::encode_utf8;
use crate::text::{
    all_digits, chars_of, contains, decimal, find_from, find_from_exec, is_digit,
    lemma_decimal_digits, lemma_find_from_bounds, occurs_at, parse_i32, parse_i32_spec, push_char,
    push_decimal, starts_with, starts_with_exec, string_from_chars, sub_chars,
};

verus! {

/// The marker that opens and closes a frame header.
pub open spec fn marker() -> Seq<char> {
    seq!['~', 'm', '~']
}

/// The heartbeat marker.
pub open spec fn heartbeat() -> Seq<char> {
    seq!['~', 'h', '~']
}

/// The frame that carries `payload`.
pub open spec fn frame(payload: Seq<char>) -> Seq<char> {
    marker() + decimal(encode_utf8(payload).len()) + marker() + payload
}

/// `s` with every `~h~` removed, scanning left to right without overlap.
pub open spec fn strip_heartbeats(s: Seq<char>) -> Seq<char>
    decreases s.len(),
{
    if s.len() == 0 {
        s
    } else if starts_with(s, heartbeat()) {
        strip_heartbeats(s.skip(3))
    } else {
        seq![s[0]] + strip_heartbeats(s.skip(1))
    }
}

/// Whether the `regex` crate's `\d` matches the character `c` (in its
/// default Unicode mode: the decimal digits of every script).
pub uninterp spec fn regex_decimal_digit(c: char) -> bool;

/// Tries the `regex` crate's `\d` on one character (`Regex::is_match` with
/// the pattern `\A\d\z`). Trusted: the result is the name's for `c`; the
/// pattern is fixed and valid, so compiling it does not fail.
#[verifier::external_body]
fn regex_digit(c: char) -> (r: bool)
    ensures
        r == regex_decimal_digit(c),
{
    match regex::Regex::new(r"\A\d\z") {
        Ok(re) => re.is_match(&String::from(c)),
        Err(_) => false,
    }
}

/// A digit of a frame length, as `\d` reads it: among one-byte characters
/// exactly `0`..=`9` (the only ASCII characters of Unicode's decimal digit
/// class), beyond them whatever `\d` matches.
pub open spec fn header_digit(c: char) -> bool {
    if (c as u32) < 0x80 {
        is_digit(c)
    } else {
        regex_decimal_digit(c)
    }
}

/// Whether `c` can stand in the length of a frame header.
pub fn is_header_digit(c: char) -> (r: bool)
    ensures
        r == header_digit(c),
{
    if (c as u32) < 0x80 {
        '0' <= c && c <= '9'
    } else {
        regex_digit(c)
    }
}

/// The number of consecutive header digits in `s` starting at `j`.
pub open spec fn digit_run(s: Seq<char>, j: int) -> nat
    decreases s.len() - j,
{
    if 0 <= j < s.len() && header_digit(s[j]) {
        1 + digit_run(s, j + 1)
    } else {
        0
    }
}

/// A frame header `~m~<digits>~m~` starts at position `i` of `s`.
pub open spec fn header_at(s: Seq<char>, i: int) -> bool {
    &&& occurs_at(s, marker(), i)
    &&& digit_run(s, i + 3) >= 1
    &&& occurs_at(s, marker(), i + 3 + digit_run(s, i + 3))
}

/// The length of the header that starts at position `i`.
pub open spec fn header_len(s: Seq<char>, i: int) -> int {
    6 + digit_run(s, i + 3) as int
}

/// The pieces of `s` between headers, scanning from `i` with the current
/// piece starting at `start`.
pub open spec fn split_from(s: Seq<char>, start: int, i: int) -> Seq<Seq<char>>
    decreases s.len() - i,
{
    if i < 0 || i >= s.len() {
        seq![s.subrange(start, s.len() as int)]
    } else if header_at(s, i) {
        let e = i + header_len(s, i);
        seq![s.subrange(start, i)] + split_from(s, e, e)
    } else {
        split_from(s, start, i + 1)
    }
}

/// The pieces of `s` between frame headers, empty ones included.
pub open spec fn split_frames(s: Seq<char>) -> Seq<Seq<char>> {
    split_from(s, 0, 0)
}

/// `"m":`, the type member of a packet object.
pub open spec fn pat_m_field() -> Seq<char> {
    seq!['"', 'm', '"', ':']
}

/// `"p":[`, the start of the argument list of a packet object.
pub open spec fn pat_p_field() -> Seq<char> {
    seq!['"', 'p', '"', ':', '[']
}

/// `={`, an object marked as a symbol key.
pub open spec fn pat_eq_brace() -> Seq<char> {
    seq!['=', '{']
}

/// `{"m":"m",`, the front of a wrapped piece.
pub open spec fn wrap_prefix() -> Seq<char> {
    seq!['{', '"', 'm', '"', ':', '"', 'm', '"', ',']
}

/// A piece that names a `"p":[` field but no `"m":` field is wrapped into an
/// object whose type is `m`.
pub open spec fn needs_wrap(p: Seq<char>) -> bool {
    !contains(p, pat_m_field()) && contains(p, pat_p_field())
}

/// The text that is read as a packet or a ping number.
pub open spec fn normalize_piece(p: Seq<char>) -> Seq<char> {
    if needs_wrap(p) {
        wrap_prefix() + p.subrange(1, p.len() - 1) + seq!['}']
    } else if starts_with(p, pat_eq_brace()) {
        seq!['{'] + p.skip(2)
    } else {
        p
    }
}

/// A piece that is wrapped drops its first and last character; this takes a
/// character boundary on both sides only where both are one-byte characters.
pub open spec fn piece_slicable(p: Seq<char>) -> bool {
    needs_wrap(p) ==> (p[0] as u32) < 0x80 && (p[p.len() - 1] as u32) < 0x80
}

/// One decoded piece of a websocket message.
#[derive(Debug, Clone, PartialEq, Eq)]
pub enum WsFrame {
    /// Text to be read as a JSON packet.
    Packet(String),
    /// A heartbeat number that the server asks to be echoed.
    Ping(i32),
}

/// The abstract value of a decoded piece.
pub enum FrameSpec {
    Packet(Seq<char>),
    Ping(i32),
}

impl View for WsFrame {
    type V = FrameSpec;

    open spec fn view(&self) -> FrameSpec {
        match self {
            WsFrame::Packet(t) => FrameSpec::Packet(t@),
            WsFrame::Ping(n) => FrameSpec::Ping(*n),
        }
    }
}

/// How a non-empty piece is read.
pub open spec fn classify(p: Seq<char>) -> FrameSpec {
    let q = normalize_piece(p);
    match parse_i32_spec(q) {
        Some(n) => FrameSpec::Ping(n),
        None => FrameSpec::Packet(q),
    }
}

/// The non-empty pieces, each classified.
pub open spec fn decode_pieces(ps: Seq<Seq<char>>) -> Seq<FrameSpec>
    decreases ps.len(),
{
    if ps.len() == 0 {
        Seq::empty()
    } else {
        let head = if ps[0].len() == 0 { Seq::empty() } else { seq![classify(ps[0])] };
        head + decode_pieces(ps.skip(1))
    }
}

/// What a websocket message decodes to.
pub open spec fn decode_message(data: Seq<char>) -> Seq<FrameSpec> {
    decode_pieces(split_frames(strip_heartbeats(data)))
}

/// Every piece of the message can be sliced where it has to be.
pub open spec fn message_slicable(data: Seq<char>) -> bool {
    pieces_slicable(split_frames(strip_heartbeats(data)))
}

pub open spec fn frames_view(v: Seq<WsFrame>) -> Seq<FrameSpec> {
    v.map_values(|f: WsFrame| f@)
}

/// Wraps a payload in its frame header (`~m~<utf8 length>~m~`).
pub fn format_ws_packet(payload: &str) -> (r: String)
    ensures
        r@ == frame(payload@),
{
    let n = payload.as_bytes().len();
    let mut r = String::new();
    push_char(&mut r, '~');
    push_char(&mut r, 'm');
    push_char(&mut r, '~');
    push_decimal(&mut r, n as u64);
    push_char(&mut r, '~');
    push_char(&mut r, 'm');
    push_char(&mut r, '~');
    r.append(payload);
    assert(r@ =~= frame(payload@));
    r
}

fn strip_heartbeats_exec(s: &Vec<char>) -> (r: Vec<char>)
    ensures
        r@ == strip_heartbeats(s@),
{
    let n = s.len();
    let mut r: Vec<char> = Vec::new();
    let mut i: usize = 0;
    assert(s@.skip(0) =~= s@);
    while i < n
        invariant
            n == s@.len(),
            i <= n,
            r@ + strip_heartbeats(s@.skip(i as int)) == strip_heartbeats(s@),
        decreases n - i,
    {
        let ghost rest = s@.skip(i as int);
        if n - i >= 3 && s[i] == '~' && s[i + 1] == 'h' && s[i + 2] == '~' {
            assert(rest.take(3) =~= heartbeat());
            assert(rest.skip(3) =~= s@.skip(i + 3));
            i = i + 3;
        } else {
            assert(!starts_with(rest, heartbeat())) by {
                if starts_with(rest, heartbeat()) {
                    assert(rest.take(3)[0] == rest[0]);
                    assert(rest.take(3)[1] == rest[1]);
                    assert(rest.take(3)[2] == rest[2]);
                }
            }
            assert(rest.skip(1) =~= s@.skip(i + 1));
            r.push(s[i]);
            i = i + 1;
            assert(r@ + strip_heartbeats(s@.skip(i as int)) =~= strip_heartbeats(s@));
        }
    }
    assert(s@.skip(n as int) =~= Seq::<char>::empty());
    assert(r@ =~= strip_heartbeats(s@));
    r
}

fn digit_run_exec(s: &Vec<char>, j: usize) -> (r: usize)
    ensures
        r == digit_run(s@, j as int),
        j + r <= s@.len() || r == 0,
{
    let n = s.len();
    let mut k = j;
    while k < n && is_header_digit(s[k])
        invariant
            n == s@.len(),
            j <= k,
            k <= n || k == j,
            digit_run(s@, j as int) == (k - j) + digit_run(s@, k as int),
        decreases n - k,
    {
        k = k + 1;
    }
    k - j
}

/// The length of the frame header at position `i`, if there is one.
fn header_len_exec(s: &Vec<char>, i: usize) -> (r: Option<usize>)
    ensures
        r is Some <==> header_at(s@, i as int),
        r matches Some(h) ==> h == header_len(s@, i as int) && i + h <= s@.len(),
{
    let n = s.len();
    if i > n || n - i < 3 || s[i] != '~' || s[i + 1] != 'm' || s[i + 2] != '~' {
        proof {
            if occurs_at(s@, marker(), i as int) {
                let w = s@.subrange(i as int, i + 3);
                assert(w[0] == s@[i as int] && w[1] == s@[i + 1] && w[2] == s@[i + 2]);
            }
        }
        return None;
    }
    assert(s@.subrange(i as int, i + 3) =~= marker());
    let k = digit_run_exec(s, i + 3);
    if k == 0 {
        return None;
    }
    let e = i + 3 + k;
    if n - e < 3 || s[e] != '~' || s[e + 1] != 'm' || s[e + 2] != '~' {
        proof {
            if occurs_at(s@, marker(), e as int) {
                let w = s@.subrange(e as int, e + 3);
                assert(w[0] == s@[e as int] && w[1] == s@[e + 1] && w[2] == s@[e + 2]);
            }
        }
        return None;
    }
    assert(s@.subrange(e as int, e + 3) =~= marker());
    Some(k + 6)
}

/// Reads one non-empty piece, or `None` where the piece would have to be
/// sliced inside a character.
fn classify_piece(c: &Vec<char>, start: usize, end: usize) -> (r: Option<WsFrame>)
    requires
        start < end <= c@.len(),
    ensures
        r is Some <==> piece_slicable(c@.subrange(start as int, end as int)),
        r matches Some(f) ==> f@ == classify(c@.subrange(start as int, end as int)),
{
    let ghost p = c@.subrange(start as int, end as int);
    let piece = sub_chars(c, start, end);
    let pat_m = vec!['"', 'm', '"', ':'];
    let pat_p = vec!['"', 'p', '"', ':', '['];
    let pat_eq = vec!['=', '{'];
    assert(pat_m@ =~= pat_m_field());
    assert(pat_p@ =~= pat_p_field());
    assert(pat_eq@ =~= pat_eq_brace());
    let has_m = find_from_exec(&piece, &pat_m, 0).is_some();
    let has_p = find_from_exec(&piece, &pat_p, 0).is_some();
    let len = piece.len();
    let mut q: Vec<char> = Vec::new();
    if !has_m && has_p {
        proof {
            lemma_find_from_bounds(p, pat_p_field(), 0);
        }
        if (piece[0] as u32) >= 0x80 || (piece[len - 1] as u32) >= 0x80 {
            return None;
        }
        q.push('{');
        q.push('"');
        q.push('m');
        q.push('"');
        q.push(':');
        q.push('"');
        q.push('m');
        q.push('"');
        q.push(',');
        let mut i: usize = 1;
        while i < len - 1
            invariant
                len == piece@.len(),
                len >= 5,
                1 <= i <= len - 1,
                q@ == wrap_prefix() + piece@.subrange(1, i as int),
            decreases len - 1 - i,
        {
            q.push(piece[i]);
            i = i + 1;
            assert(q@ =~= wrap_prefix() + piece@.subrange(1, i as int));
        }
        q.push('}');
        assert(q@ =~= normalize_piece(p));
    } else if starts_with_exec(&piece, &pat_eq) {
        q.push('{');
        let mut i: usize = 2;
        while i < len
            invariant
                len == piece@.len(),
                2 <= i <= len,
                q@ == seq!['{'] + piece@.subrange(2, i as int),
            decreases len - i,
        {
            q.push(piece[i]);
            i = i + 1;
            assert(q@ =~= seq!['{'] + piece@.subrange(2, i as int));
        }
        assert(q@ =~= normalize_piece(p));
    } else {
        q = piece;
        assert(q@ =~= normalize_piece(p));
    }
    match parse_i32(&q) {
        Some(n) => Some(WsFrame::Ping(n)),
        None => {
            Some(WsFrame::Packet(string_from_chars(&q)))
        },
    }
}

/// Every non-empty piece can be sliced where it has to be.
pub open spec fn pieces_slicable(ps: Seq<Seq<char>>) -> bool {
    forall|k: int| 0 <= k < ps.len() && ps[k].len() > 0 ==> #[trigger] piece_slicable(ps[k])
}

proof fn lemma_cons_piece(p: Seq<char>, rest: Seq<Seq<char>>)
    ensures
        decode_pieces(seq![p] + rest) == (if p.len() == 0 {
            Seq::<FrameSpec>::empty()
        } else {
            seq![classify(p)]
        }) + decode_pieces(rest),
        pieces_slicable(seq![p] + rest) == ((p.len() > 0 ==> piece_slicable(p))
            && pieces_slicable(rest)),
{
    let ps = seq![p] + rest;
    assert(ps.skip(1) =~= rest);
    assert(ps[0] == p);
    if pieces_slicable(ps) {
        assert forall|k: int| 0 <= k < rest.len() && rest[k].len() > 0 implies #[trigger] piece_slicable(
            rest[k],
        ) by {
            assert(ps[k + 1] == rest[k]);
        }
    }
    if (p.len() > 0 ==> piece_slicable(p)) && pieces_slicable(rest) {
        assert forall|k: int| 0 <= k < ps.len() && ps[k].len() > 0 implies #[trigger] piece_slicable(
            ps[k],
        ) by {
            if k > 0 {
                assert(ps[k] == rest[k - 1]);
            }
        }
    }
}

proof fn lemma_frames_view_push(v: Seq<WsFrame>, f: WsFrame)
    ensures
        frames_view(v.push(f)) == frames_view(v).push(f@),
{
    assert(frames_view(v.push(f)) =~= frames_view(v).push(f@));
}

/// Decodes the pieces of a heartbeat-free message.
fn decode_cleaned(c: &Vec<char>) -> (r: Option<Vec<WsFrame>>)
    ensures
        r is Some <==> pieces_slicable(split_frames(c@)),
        r matches Some(v) ==> frames_view(v@) == decode_pieces(split_frames(c@)),
{
    let n = c.len();
    let mut out: Vec<WsFrame> = Vec::new();
    let mut start: usize = 0;
    let mut i: usize = 0;
    assert(frames_view(out@) =~= Seq::<FrameSpec>::empty());
    while i < n
        invariant
            n == c@.len(),
            start <= i <= n,
            frames_view(out@) + decode_pieces(split_from(c@, start as int, i as int))
                == decode_pieces(split_frames(c@)),
            pieces_slicable(split_frames(c@)) == pieces_slicable(
                split_from(c@, start as int, i as int),
            ),
        decreases n - i,
    {
        match header_len_exec(c, i) {
            Some(h) => {
                let e = i + h;
                let ghost p = c@.subrange(start as int, i as int);
                let ghost rest = split_from(c@, e as int, e as int);
                assert(split_from(c@, start as int, i as int) == seq![p] + rest);
                proof {
                    lemma_cons_piece(p, rest);
                }
                if start < i {
                    match classify_piece(c, start, i) {
                        Some(f) => {
                            proof {
                                lemma_frames_view_push(out@, f);
                            }
                            out.push(f);
                            assert(frames_view(out@) + decode_pieces(rest) =~= decode_pieces(
                                split_frames(c@),
                            ));
                        },
                        None => {
                            return None;
                        },
                    }
                } else {
                    assert(frames_view(out@) + decode_pieces(rest) =~= decode_pieces(
                        split_frames(c@),
                    ));
                }
                start = e;
                i = e;
            },
            None => {
                assert(split_from(c@, start as int, i as int) == split_from(
                    c@,
                    start as int,
                    i + 1,
                ));
                i = i + 1;
            },
        }
    }
    let ghost p = c@.subrange(start as int, n as int);
    assert(split_from(c@, start as int, i as int) == seq![p] + Seq::<Seq<char>>::empty());
    proof {
        lemma_cons_piece(p, Seq::<Seq<char>>::empty());
        assert(decode_pieces(Seq::<Seq<char>>::empty()) =~= Seq::<FrameSpec>::empty());
    }
    if start < n {
        match classify_piece(c, start, n) {
            Some(f) => {
                proof {
                    lemma_frames_view_push(out@, f);
                }
                out.push(f);
                assert(frames_view(out@) =~= decode_pieces(split_frames(c@)));
            },
            None => {
                return None;
            },
        }
    } else {
        assert(frames_view(out@) =~= decode_pieces(split_frames(c@)));
    }
    Some(out)
}

/// Decodes one websocket message into its pieces, or `None` where a piece
/// would have to be sliced inside a character.
pub fn try_parse_ws_packet(data: &str) -> (r: Option<Vec<WsFrame>>)
    ensures
        r is Some <==> message_slicable(data@),
        r matches Some(v) ==> frames_view(v@) == decode_message(data@),
{
    let cs = chars_of(data);
    let cleaned = strip_heartbeats_exec(&cs);
    decode_cleaned(&cleaned)
}

/// Decodes one websocket message: heartbeat markers are dropped, the text is
/// cut at every frame header, empty pieces are skipped, and each remaining
/// piece is normalised and read as a ping number where it is one, as a
/// packet text otherwise.
pub fn parse_ws_packet(data: &str) -> (r: Vec<WsFrame>)
    requires
        message_slicable(data@),
    ensures
        frames_view(r@) == decode_message(data@),
{
    match try_parse_ws_packet(data) {
        Some(v) => v,
        None => Vec::new(),
    }
}

// ---------------------------------------------------------------------------
// What a reader gives back of what a writer wrote
// ---------------------------------------------------------------------------

/// The frames of `ps`, one after another, as one websocket message.
pub open spec fn frames_concat(ps: Seq<Seq<char>>) -> Seq<char>
    decreases ps.len(),
{
    if ps.len() == 0 {
        Seq::empty()
    } else {
        frame(ps[0]) + frames_concat(ps.skip(1))
    }
}

/// The length of the header in front of `p`.
pub open spec fn frame_header_len(p: Seq<char>) -> int {
    6 + decimal(encode_utf8(p).len()).len() as int
}

/// What stands right after a payload in a message: the `~` that opens the
/// next frame, or nothing at the end.
pub open spec fn after_payload(followed: bool) -> Seq<char> {
    if followed {
        seq!['~']
    } else {
        Seq::empty()
    }
}

/// A payload that framing leaves intact at its place in a message: it is not
/// empty, no `~h~` forms in it or with the `~` around it, and no `~m~` forms
/// in it or with the `~` of a following frame. `followed` says whether
/// another frame comes after it.
pub open spec fn intact_payload(p: Seq<char>, followed: bool) -> bool {
    &&& p.len() > 0
    &&& !contains(seq!['~'] + p + after_payload(followed), heartbeat())
    &&& !contains(p + after_payload(followed), marker())
}

/// Every payload of `ps` is intact at its place.
pub open spec fn intact_payloads(ps: Seq<Seq<char>>) -> bool {
    forall|k: int| 0 <= k < ps.len() ==> intact_payload(#[trigger] ps[k], k + 1 < ps.len())
}

/// What follows a frame: nothing, or the marker that opens the next frame.
pub open spec fn opens_frame_or_ends(r: Seq<char>) -> bool {
    r.len() == 0 || (r.len() >= 3 && r[0] == '~' && r[1] == 'm' && r[2] == '~')
}

proof fn lemma_no_window(t: Seq<char>, pat: Seq<char>, j: int)
    requires
        !contains(t, pat),
        pat.len() == 3,
        0 <= j,
        j + 3 <= t.len(),
    ensures
        !(t[j] == pat[0] && t[j + 1] == pat[1] && t[j + 2] == pat[2]),
{
    lemma_find_from_bounds(t, pat, 0);
    if t[j] == pat[0] && t[j + 1] == pat[1] && t[j + 2] == pat[2] {
        assert(t.subrange(j, j + 3) =~= pat);
        assert(occurs_at(t, pat, j));
    }
}

proof fn lemma_intact_tail(ps: Seq<Seq<char>>)
    requires
        ps.len() > 0,
        intact_payloads(ps),
    ensures
        intact_payloads(ps.skip(1)),
        intact_payload(ps[0], ps.len() > 1),
{
    let rest = ps.skip(1);
    assert forall|k: int| 0 <= k < rest.len() implies intact_payload(
        #[trigger] rest[k],
        k + 1 < rest.len(),
    ) by {
        assert(rest[k] == ps[k + 1]);
        assert(intact_payload(ps[k + 1], k + 2 < ps.len()));
    }
    assert(intact_payload(ps[0], 0 + 1 < ps.len()));
}

proof fn lemma_not_heartbeat_at(s: Seq<char>, i: int)
    requires
        0 <= i <= s.len(),
        i + 2 < s.len() ==> (s[i] != '~' || s[i + 1] != 'h' || s[i + 2] != '~'),
    ensures
        !starts_with(s.skip(i), heartbeat()),
{
    if starts_with(s.skip(i), heartbeat()) {
        let t = s.skip(i);
        assert(t.take(3)[0] == t[0] && t.take(3)[1] == t[1] && t.take(3)[2] == t[2]);
    }
}

proof fn lemma_strip_prefix(x: Seq<char>, y: Seq<char>)
    requires
        forall|i: int| 0 <= i < x.len() ==> !starts_with(#[trigger] (x + y).skip(i), heartbeat()),
    ensures
        strip_heartbeats(x + y) == x + strip_heartbeats(y),
    decreases x.len(),
{
    if x.len() == 0 {
        assert(x + y =~= y);
        assert(x + strip_heartbeats(y) =~= strip_heartbeats(y));
    } else {
        let s = x + y;
        assert(s.skip(0) =~= s);
        assert(!starts_with(s, heartbeat()));
        let x1 = x.skip(1);
        assert(s.skip(1) =~= x1 + y);
        assert forall|i: int| 0 <= i < x1.len() implies !starts_with(
            #[trigger] (x1 + y).skip(i),
            heartbeat(),
        ) by {
            assert((x1 + y).skip(i) =~= s.skip(i + 1));
        }
        lemma_strip_prefix(x1, y);
        assert(x =~= seq![x[0]] + x1);
        assert(x + strip_heartbeats(y) =~= seq![x[0]] + (x1 + strip_heartbeats(y)));
    }
}

proof fn lemma_frame_shape(p: Seq<char>)
    ensures
        decimal(encode_utf8(p).len()).len() > 0,
        all_digits(decimal(encode_utf8(p).len())),
        frame(p).len() == 6 + decimal(encode_utf8(p).len()).len() + p.len(),
{
    lemma_decimal_digits(encode_utf8(p).len());
}

proof fn lemma_frames_concat_front(ps: Seq<Seq<char>>)
    ensures
        opens_frame_or_ends(frames_concat(ps)),
        frames_concat(ps).len() > 0 <==> ps.len() > 0,
{
    if ps.len() > 0 {
        let p = ps[0];
        lemma_frame_shape(p);
        let d = decimal(encode_utf8(p).len());
        let f = frame(p);
        let r = frames_concat(ps.skip(1));
        assert(frames_concat(ps) == f + r);
        assert(f =~= marker() + (d + marker() + p));
        assert(f[0] == '~' && f[1] == 'm' && f[2] == '~');
        assert((f + r)[0] == f[0] && (f + r)[1] == f[1] && (f + r)[2] == f[2]);
    }
}

proof fn lemma_strip_frame(p: Seq<char>, rest: Seq<char>)
    requires
        intact_payload(p, rest.len() > 0),
        opens_frame_or_ends(rest),
    ensures
        strip_heartbeats(frame(p) + rest) == frame(p) + strip_heartbeats(rest),
{
    lemma_frame_shape(p);
    let d = decimal(encode_utf8(p).len());
    let f = frame(p);
    let s = f + rest;
    let a = 3 + d.len() as int;
    let t = seq!['~'] + p + after_payload(rest.len() > 0);
    assert(f =~= marker() + d + marker() + p);
    assert forall|k: int| a + 2 <= k < s.len() && k - (a + 2) < t.len() implies #[trigger] s[k]
        == t[k - (a + 2)] by {
        if k == a + 2 {
        } else if k < f.len() {
            assert(s[k] == p[k - a - 3]);
        } else {
            assert(s[k] == rest[0]);
        }
    }
    assert forall|i: int| 0 <= i < f.len() implies !starts_with(#[trigger] s.skip(i), heartbeat()) by {
        if i < 3 {
            if i == 2 {
                assert(is_digit(d[0]));
                assert(s[3] == d[0]);
            }
        } else if i < a {
            assert(is_digit(d[i - 3]));
            assert(s[i] == d[i - 3]);
        } else if i < a + 2 {
            assert(s[a] == '~');
            assert(s[a + 1] == 'm');
        } else if i + 2 < s.len() {
            let j = i - (a + 2);
            if j + 3 <= t.len() {
                assert(s[i] == t[j] && s[i + 1] == t[j + 1] && s[i + 2] == t[j + 2]);
                lemma_no_window(t, heartbeat(), j);
            } else {
                assert(s[i + 2] == rest[1]);
            }
        }
        lemma_not_heartbeat_at(s, i);
    }
    lemma_strip_prefix(f, rest);
}

proof fn lemma_strip_frames(ps: Seq<Seq<char>>)
    requires
        intact_payloads(ps),
    ensures
        strip_heartbeats(frames_concat(ps)) == frames_concat(ps),
    decreases ps.len(),
{
    if ps.len() > 0 {
        let rest = ps.skip(1);
        lemma_intact_tail(ps);
        lemma_strip_frames(rest);
        lemma_frames_concat_front(rest);
        lemma_strip_frame(ps[0], frames_concat(rest));
    }
}

proof fn lemma_digit_run_shift(a: Seq<char>, r: Seq<char>, j: int)
    requires
        0 <= j,
    ensures
        digit_run(a + r, a.len() + j) == digit_run(r, j),
    decreases r.len() - j,
{
    if j < r.len() && header_digit(r[j]) {
        lemma_digit_run_shift(a, r, j + 1);
    }
}

proof fn lemma_occurs_shift(a: Seq<char>, r: Seq<char>, pat: Seq<char>, j: int)
    requires
        0 <= j,
    ensures
        occurs_at(a + r, pat, a.len() + j) == occurs_at(r, pat, j),
{
    if j + pat.len() <= r.len() {
        assert((a + r).subrange(a.len() + j, a.len() + j + pat.len()) =~= r.subrange(
            j,
            j + pat.len(),
        ));
    }
}

proof fn lemma_header_shift(a: Seq<char>, r: Seq<char>, j: int)
    requires
        0 <= j,
    ensures
        header_at(a + r, a.len() + j) == header_at(r, j),
        header_len(a + r, a.len() + j) == header_len(r, j),
{
    lemma_digit_run_shift(a, r, j + 3);
    lemma_occurs_shift(a, r, marker(), j);
    lemma_occurs_shift(a, r, marker(), j + 3 + digit_run(r, j + 3));
}

proof fn lemma_split_shift(a: Seq<char>, r: Seq<char>, st: int, i: int)
    requires
        0 <= st <= i <= r.len(),
    ensures
        split_from(a + r, a.len() + st, a.len() + i) == split_from(r, st, i),
    decreases r.len() - i,
{
    let s = a + r;
    if i >= r.len() {
        assert(s.subrange(a.len() + st, s.len() as int) =~= r.subrange(st, r.len() as int));
    } else {
        lemma_header_shift(a, r, i);
        if header_at(r, i) {
            let e = i + header_len(r, i);
            lemma_split_shift(a, r, e, e);
            assert(s.subrange(a.len() + st, a.len() + i) =~= r.subrange(st, i));
        } else {
            lemma_split_shift(a, r, st, i + 1);
        }
    }
}

proof fn lemma_digit_run_digits(d: Seq<char>, t: Seq<char>, j: int)
    requires
        0 <= j <= d.len(),
        all_digits(d),
        t.len() > 0,
        t[0] == '~',
    ensures
        digit_run(d + t, j) == d.len() - j,
    decreases d.len() - j,
{
    if j < d.len() {
        assert(is_digit(d[j]));
        lemma_digit_run_digits(d, t, j + 1);
    } else {
        assert((d + t)[j] == '~');
    }
}

proof fn lemma_header_of_frame(p: Seq<char>, rest: Seq<char>)
    ensures
        header_at(frame(p) + rest, 0),
        header_len(frame(p) + rest, 0) == frame_header_len(p),
{
    lemma_frame_shape(p);
    let d = decimal(encode_utf8(p).len());
    let s = frame(p) + rest;
    let m = marker();
    let t = m + p + rest;
    assert(s =~= m + (d + t));
    lemma_digit_run_digits(d, t, 0);
    lemma_digit_run_shift(m, d + t, 0);
    assert(s.subrange(0, 3) =~= m);
    assert(s.subrange(3 + d.len() as int, 6 + d.len() as int) =~= m);
}

proof fn lemma_split_skip(s: Seq<char>, st: int, i: int, j: int)
    requires
        0 <= i <= j <= s.len(),
        forall|k: int| i <= k < j ==> !header_at(s, k),
    ensures
        split_from(s, st, i) == split_from(s, st, j),
    decreases j - i,
{
    if i < j {
        lemma_split_skip(s, st, i + 1, j);
    }
}

proof fn lemma_split_frames_tail(ps: Seq<Seq<char>>)
    requires
        ps.len() > 0,
        intact_payloads(ps),
    ensures
        split_from(
            frames_concat(ps),
            frame_header_len(ps[0]),
            frame_header_len(ps[0]),
        ) == ps,
    decreases ps.len(),
{
    let p = ps[0];
    lemma_intact_tail(ps);
    let rest = ps.skip(1);
    let r = frames_concat(rest);
    lemma_frames_concat_front(rest);
    let f = frame(p);
    let s = f + r;
    assert(frames_concat(ps) == s);
    lemma_frame_shape(p);
    let h = frame_header_len(p);
    let u = p + after_payload(r.len() > 0);
    assert forall|k: int| h <= k < s.len() && k - h < u.len() implies #[trigger] s[k] == u[k - h] by {
        if k < f.len() {
            assert(s[k] == p[k - h]);
        } else {
            assert(s[k] == r[0]);
        }
    }
    assert forall|k: int| h <= k < f.len() implies !header_at(s, k) by {
        if occurs_at(s, marker(), k) {
            let w = s.subrange(k, k + 3);
            assert(w[0] == s[k] && w[1] == s[k + 1] && w[2] == s[k + 2]);
            let j = k - h;
            if j + 3 <= u.len() {
                assert(s[k] == u[j] && s[k + 1] == u[j + 1] && s[k + 2] == u[j + 2]);
                lemma_no_window(u, marker(), j);
            } else {
                assert(s[k + 1] == r[0]);
            }
        }
    }
    lemma_split_skip(s, h, h, f.len() as int);
    if rest.len() == 0 {
        assert(r =~= Seq::<char>::empty());
        assert(s.subrange(h, s.len() as int) =~= p);
        assert(seq![p] =~= ps);
    } else {
        let h1 = frame_header_len(rest[0]);
        assert(r == frame(rest[0]) + frames_concat(rest.skip(1)));
        lemma_header_of_frame(rest[0], frames_concat(rest.skip(1)));
        lemma_header_shift(f, r, 0);
        lemma_split_frames_tail(rest);
        lemma_split_shift(f, r, h1, h1);
        assert(s.subrange(h, f.len() as int) =~= p);
        assert(seq![p] + rest =~= ps);
    }
}

proof fn lemma_decode_nonempty(ps: Seq<Seq<char>>)
    requires
        forall|k: int| 0 <= k < ps.len() ==> (#[trigger] ps[k]).len() > 0,
    ensures
        decode_pieces(ps) == ps.map_values(|p: Seq<char>| classify(p)),
    decreases ps.len(),
{
    if ps.len() > 0 {
        let rest = ps.skip(1);
        assert forall|k: int| 0 <= k < rest.len() implies (#[trigger] rest[k]).len() > 0 by {
            assert(rest[k] == ps[k + 1]);
        }
        lemma_decode_nonempty(rest);
        assert(ps.map_values(|p: Seq<char>| classify(p)) =~= seq![classify(ps[0])]
            + rest.map_values(|p: Seq<char>| classify(p)));
    } else {
        assert(ps.map_values(|p: Seq<char>| classify(p)) =~= Seq::<FrameSpec>::empty());
    }
}

/// Law: a message made of the frames of payloads that framing leaves
/// intact decodes to exactly those payloads, in order, each read as
/// `classify` reads it.
pub proof fn lemma_decode_frames(ps: Seq<Seq<char>>)
    requires
        intact_payloads(ps),
    ensures
        decode_message(frames_concat(ps)) == ps.map_values(|p: Seq<char>| classify(p)),
{
    let s = frames_concat(ps);
    lemma_strip_frames(ps);
    assert forall|k: int| 0 <= k < ps.len() implies (#[trigger] ps[k]).len() > 0 by {
        assert(intact_payload(ps[k], k + 1 < ps.len()));
    }
    lemma_decode_nonempty(ps);
    if ps.len() == 0 {
        assert(s =~= Seq::<char>::empty());
        assert(split_frames(s) == seq![s.subrange(0, 0)]);
        lemma_cons_piece(s.subrange(0, 0), Seq::<Seq<char>>::empty());
        assert(decode_pieces(Seq::<Seq<char>>::empty()) =~= Seq::<FrameSpec>::empty());
        assert(ps.map_values(|p: Seq<char>| classify(p)) =~= Seq::<FrameSpec>::empty());
    } else {
        assert(s == frame(ps[0]) + frames_concat(ps.skip(1)));
        lemma_header_of_frame(ps[0], frames_concat(ps.skip(1)));
        lemma_split_frames_tail(ps);
        assert(split_frames(s) == seq![s.subrange(0, 0)] + ps);
        lemma_cons_piece(s.subrange(0, 0), ps);
        assert(decode_pieces(split_frames(s)) =~= decode_pieces(ps));
    }
}

/// Law: a message made of the frames of intact payloads can be decoded
/// (`parse_ws_packet`'s precondition holds) wherever each payload can be
/// sliced as its reading asks; payloads that begin and end with one-byte
/// characters, such as JSON objects, always can.
pub proof fn lemma_frames_slicable(ps: Seq<Seq<char>>)
    requires
        intact_payloads(ps),
        forall|k: int| 0 <= k < ps.len() ==> piece_slicable(#[trigger] ps[k]),
    ensures
        message_slicable(frames_concat(ps)),
{
    let s = frames_concat(ps);
    lemma_strip_frames(ps);
    if ps.len() == 0 {
        assert(s =~= Seq::<char>::empty());
        assert(split_frames(s) == seq![s.subrange(0, 0)]);
        lemma_cons_piece(s.subrange(0, 0), Seq::<Seq<char>>::empty());
    } else {
        assert(s == frame(ps[0]) + frames_concat(ps.skip(1)));
        lemma_header_of_frame(ps[0], frames_concat(ps.skip(1)));
        lemma_split_frames_tail(ps);
        assert(split_frames(s) == seq![s.subrange(0, 0)] + ps);
        lemma_cons_piece(s.subrange(0, 0), ps);
    }
}

/// The decimal numeral of `n`, with a leading `-` when negative.
pub open spec fn signed_decimal(n: int) -> Seq<char> {
    if n < 0 {
        seq!['-'] + decimal((-n) as nat)
    } else {
        decimal(n as nat)
    }
}

/// The payload that answers heartbeat number `n`.
pub open spec fn ping_payload(n: i32) -> Seq<char> {
    heartbeat() + signed_decimal(n as int)
}

/// The frame that answers heartbeat number `n`: `~m~<len>~m~~h~<n>`.
pub fn ping_frame(n: i32) -> (r: String)
    ensures
        r@ == frame(ping_payload(n)),
{
    let mut payload = String::new();
    push_char(&mut payload, '~');
    push_char(&mut payload, 'h');
    push_char(&mut payload, '~');
    if n < 0 {
        push_char(&mut payload, '-');
        let m: u64 = (0 - (n as i64)) as u64;
        push_decimal(&mut payload, m);
    } else {
        push_decimal(&mut payload, n as u64);
    }
    assert(payload@ =~= ping_payload(n));
    format_ws_packet(payload.as_str())
}

proof fn lemma_header_generic(d: Seq<char>, rest: Seq<char>)
    requires
        d.len() > 0,
        all_digits(d),
    ensures
        header_at(marker() + d + marker() + rest, 0),
        header_len(marker() + d + marker() + rest, 0) == 6 + d.len(),
{
    let s = marker() + d + marker() + rest;
    let m = marker();
    let t = m + rest;
    assert(s =~= m + (d + t));
    lemma_digit_run_digits(d, t, 0);
    lemma_digit_run_shift(m, d + t, 0);
    assert(s.subrange(0, 3) =~= m);
    assert(s.subrange(3 + d.len() as int, 6 + d.len() as int) =~= m);
}

proof fn lemma_signed_decimal(n: i32)
    ensures
        parse_i32_spec(signed_decimal(n as int)) == Some(n),
        signed_decimal(n as int).len() > 0,
        forall|i: int|
            0 <= i < signed_decimal(n as int).len() ==> {
                let c = #[trigger] signed_decimal(n as int)[i];
                is_digit(c) || (c == '-' && i == 0)
            },
{
    let t = signed_decimal(n as int);
    if n < 0 {
        let m = (-n) as nat;
        lemma_decimal_digits(m);
        assert(t.skip(1) =~= decimal(m));
        assert forall|i: int| 0 <= i < t.len() implies {
            let c = #[trigger] t[i];
            is_digit(c) || (c == '-' && i == 0)
        } by {
            if i > 0 {
                assert(t[i] == decimal(m)[i - 1]);
            }
        }
    } else {
        lemma_decimal_digits(n as nat);
        assert(is_digit(t[0]));
    }
}

proof fn lemma_no_quote_no_match(p: Seq<char>, pat: Seq<char>)
    requires
        pat.len() > 0,
        pat[0] == '"',
        forall|i: int| 0 <= i < p.len() ==> #[trigger] p[i] != '"',
    ensures
        !contains(p, pat),
{
    lemma_find_from_bounds(p, pat, 0);
    if let Some(i) = find_from(p, pat, 0) {
        assert(p.subrange(i, i + pat.len())[0] == p[i]);
    }
}

/// Law: the frame that answers heartbeat `n` decodes to the ping `n`.
pub proof fn lemma_ping_roundtrip(n: i32)
    ensures
        decode_message(frame(ping_payload(n))) == seq![FrameSpec::Ping(n)],
{
    let num = signed_decimal(n as int);
    lemma_signed_decimal(n);
    let pl = ping_payload(n);
    let d = decimal(encode_utf8(pl).len());
    lemma_decimal_digits(encode_utf8(pl).len());
    let x = marker() + d + marker();
    let s = frame(pl);
    assert(s =~= x + (heartbeat() + num));
    // heartbeats: none inside the header, one right after it
    assert forall|i: int| 0 <= i < x.len() implies !starts_with(
        #[trigger] (x + (heartbeat() + num)).skip(i),
        heartbeat(),
    ) by {
        let t = x + (heartbeat() + num);
        if i < 3 {
            if i == 2 {
                assert(is_digit(d[0]));
                assert(t[3] == d[0]);
            }
        } else if i < 3 + d.len() {
            assert(is_digit(d[i - 3]));
            assert(t[i] == d[i - 3]);
        } else if i == x.len() - 1 {
            assert(t[i + 1] == '~');
        }
        lemma_not_heartbeat_at(t, i);
    }
    lemma_strip_prefix(x, heartbeat() + num);
    let y = heartbeat() + num;
    assert(y.take(3) =~= heartbeat());
    assert(y.skip(3) =~= num);
    assert(strip_heartbeats(y) == strip_heartbeats(num));
    assert forall|i: int| 0 <= i < num.len() implies !starts_with(
        #[trigger] (num + Seq::<char>::empty()).skip(i),
        heartbeat(),
    ) by {
        let c = num[i];
        assert(is_digit(c) || c == '-');
        assert((num + Seq::<char>::empty())[i] == c);
        lemma_not_heartbeat_at(num + Seq::<char>::empty(), i);
    }
    lemma_strip_prefix(num, Seq::<char>::empty());
    assert(num + Seq::<char>::empty() =~= num);
    assert(strip_heartbeats(Seq::<char>::empty()) =~= Seq::<char>::empty());
    let c = x + num;
    assert(strip_heartbeats(s) =~= c);
    // one header, then the number
    lemma_header_generic(d, num);
    assert(x + num =~= marker() + d + marker() + num);
    let h = x.len() as int;
    assert forall|k: int| h <= k < c.len() implies !header_at(c, k) by {
        let ch = num[k - h];
        assert(is_digit(ch) || ch == '-');
        assert(c[k] == ch);
        if occurs_at(c, marker(), k) {
            assert(c.subrange(k, k + 3)[0] == c[k]);
        }
    }
    lemma_split_skip(c, h, h, c.len() as int);
    assert(c.subrange(h, c.len() as int) =~= num);
    assert(c.subrange(0, 0) =~= Seq::<char>::empty());
    assert(split_frames(c) == seq![Seq::<char>::empty()] + seq![num]);
    lemma_cons_piece(Seq::<char>::empty(), seq![num]);
    lemma_decode_nonempty(seq![num]);
    // the number is read as itself
    assert forall|i: int| 0 <= i < num.len() implies #[trigger] num[i] != '"' by {
        assert(is_digit(num[i]) || num[i] == '-');
    }
    lemma_no_quote_no_match(num, pat_m_field());
    lemma_no_quote_no_match(num, pat_p_field());
    assert(!starts_with(num, pat_eq_brace())) by {
        if starts_with(num, pat_eq_brace()) {
            assert(num.take(2)[0] == num[0]);
        }
    }
    assert(normalize_piece(num) == num);
    assert(seq![num].map_values(|p: Seq<char>| classify(p)) =~= seq![FrameSpec::Ping(n)]);
    assert(decode_pieces(split_frames(c)) =~= seq![FrameSpec::Ping(n)]);
}

/// Law: the text of a packet object that names its type (`{…"m":…}`) is
/// read back unchanged, so together with `lemma_decode_frames` every framed
/// packet text that framing leaves intact decodes to itself.
pub proof fn lemma_packet_text_kept(p: Seq<char>)
    requires
        p.len() > 0,
        p[0] == '{',
        contains(p, pat_m_field()),
    ensures
        classify(p) == FrameSpec::Packet(p),
{
    assert(!starts_with(p, pat_eq_brace())) by {
        if starts_with(p, pat_eq_brace()) {
            assert(p.take(2)[0] == p[0]);
        }
    }
    assert(normalize_piece(p) == p);
    let body = if p.len() > 0 && (p[0] == '+' || p[0] == '-') { p.skip(1) } else { p };
    assert(body == p);
    assert(!is_digit(p[0]));
    assert(parse_i32_spec(p) is None);
}

} // verus!
