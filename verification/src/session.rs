//! Websocket sessions: where the connection goes and how sessions are named.
use vstd::prelude::*;
use crate::text::{chars_of, push_char};

verus! {

/// The characters a session identifier is drawn from.
pub open spec fn session_alphabet() -> Seq<char> {
    "ABCDEFGHIJKLMNOPQRSTUVWXYZabcdefghijklmnopqrstuvwxyz0123456789"@
}

/// The number of random characters in a session identifier.
pub const SESSION_ID_LEN: usize = 12;

/// A uniformly drawn index below `bound`, from the thread-local generator
/// (`rand::rng().random_range(0..bound)`). Trusted: the result is below
/// `bound`; which index comes out is chance and is not stated.
#[verifier::external_body]
fn random_index(bound: usize) -> (r: usize)
    requires
        bound > 0,
    ensures
        r < bound,
{
    rand::Rng::random_range(&mut rand::rng(), 0..bound)
}

/// `id` names a session of kind `kind`: the kind, `_`, then twelve characters
/// of the alphabet.
pub open spec fn is_session_id(id: Seq<char>, kind: Seq<char>) -> bool {
    &&& id.len() == kind.len() + 1 + SESSION_ID_LEN
    &&& id.take(kind.len() as int) == kind
    &&& id[kind.len() as int] == '_'
    &&& forall|i: int|
        kind.len() + 1 <= i < id.len() ==> session_alphabet().contains(#[trigger] id[i])
}

/// The session identifier of kind `kind` whose random characters are the
/// alphabet's characters at the positions `draws`, in order.
pub fn session_id_from(kind: &str, draws: &Vec<usize>) -> (r: String)
    requires
        draws@.len() == SESSION_ID_LEN,
        forall|i: int| 0 <= i < draws@.len() ==> #[trigger] draws@[i] < 62,
    ensures
        r@ == kind@ + seq!['_'] + draws@.map_values(|k: usize| session_alphabet()[k as int]),
{
    let alphabet = chars_of("ABCDEFGHIJKLMNOPQRSTUVWXYZabcdefghijklmnopqrstuvwxyz0123456789");
    proof {
        reveal_strlit("ABCDEFGHIJKLMNOPQRSTUVWXYZabcdefghijklmnopqrstuvwxyz0123456789");
    }
    assert(alphabet@.len() == 62);
    let mut r = kind.to_owned();
    push_char(&mut r, '_');
    let ghost head = kind@ + seq!['_'];
    let ghost chosen = draws@.map_values(|k: usize| session_alphabet()[k as int]);
    let mut i: usize = 0;
    while i < draws.len()
        invariant
            alphabet@ == session_alphabet(),
            alphabet@.len() == 62,
            draws@.len() == SESSION_ID_LEN,
            forall|j: int| 0 <= j < draws@.len() ==> #[trigger] draws@[j] < 62,
            chosen == draws@.map_values(|k: usize| session_alphabet()[k as int]),
            i <= draws@.len(),
            r@ == head + chosen.take(i as int),
        decreases draws@.len() - i,
    {
        let k = draws[i];
        assert(draws@[i as int] < 62);
        let c = alphabet[k];
        push_char(&mut r, c);
        assert(chosen[i as int] == c);
        assert(chosen.take(i + 1) =~= chosen.take(i as int).push(c));
        assert(r@ =~= head + chosen.take(i + 1));
        i = i + 1;
    }
    assert(chosen.take(i as int) =~= chosen);
    r
}

/// A fresh session identifier of kind `kind` (such as `xs_3fQ9…`): twelve
/// characters drawn at random from the alphabet. Which characters come out is
/// chance; whatever they are, the result is an identifier of that kind.
pub fn generate_session_id(kind: &str) -> (r: String)
    ensures
        is_session_id(r@, kind@),
{
    let mut draws: Vec<usize> = Vec::new();
    while draws.len() < SESSION_ID_LEN
        invariant
            draws@.len() <= SESSION_ID_LEN,
            forall|j: int| 0 <= j < draws@.len() ==> #[trigger] draws@[j] < 62,
        decreases SESSION_ID_LEN - draws@.len(),
    {
        let k = random_index(62);
        draws.push(k);
    }
    let r = session_id_from(kind, &draws);
    proof {
        reveal_strlit("ABCDEFGHIJKLMNOPQRSTUVWXYZabcdefghijklmnopqrstuvwxyz0123456789");
        let head = kind@ + seq!['_'];
        let chosen = draws@.map_values(|k: usize| session_alphabet()[k as int]);
        assert(r@.take(kind@.len() as int) =~= kind@);
        assert(r@[kind@.len() as int] == head[kind@.len() as int]);
        assert forall|i: int| kind@.len() + 1 <= i < r@.len() implies session_alphabet().contains(
            #[trigger] r@[i],
        ) by {
            let j = i - head.len();
            assert(r@[i] == chosen[j]);
            assert(draws@[j] < 62);
            assert(session_alphabet()[draws@[j] as int] == r@[i]);
        }
    }
    r
}

/// The websocket address of the chart service: the `prodata` host for pro
/// accounts, the `data` host for the others.
pub fn websocket_url(is_pro: bool) -> (r: String)
    ensures
        r@ == "wss://"@ + (if is_pro {
            "prodata"@
        } else {
            "data"@
        }) + ".tradingview.com/socket.io/websocket?type=chart"@,
{
    let mut r = "wss://".to_owned();
    if is_pro {
        r.append("prodata");
    } else {
        r.append("data");
    }
    r.append(".tradingview.com/socket.io/websocket?type=chart");
    r
}

} // verus!
