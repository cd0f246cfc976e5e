//! The requests that open the feed's subscriptions.

use vstd::prelude::*;

verus! {

/// A hexadecimal digit in lower case.
pub open spec fn hex_digit(n: int) -> char {
    if n < 10 {
        ('0' as int + n) as char
    } else {
        ('a' as int + n - 10) as char
    }
}

/// How one character stands in a JSON string.
pub open spec fn escaped_char(c: char) -> Seq<char> {
    let code = c as int;
    if c == '"' || c == '\\' {
        seq!['\\', c]
    } else if code == 8 {
        seq!['\\', 'b']
    } else if code == 9 {
        seq!['\\', 't']
    } else if code == 10 {
        seq!['\\', 'n']
    } else if code == 12 {
        seq!['\\', 'f']
    } else if code == 13 {
        seq!['\\', 'r']
    } else if code < 32 {
        seq!['\\', 'u', '0', '0', hex_digit(code / 16), hex_digit(code % 16)]
    } else {
        seq![c]
    }
}

/// How a text stands between the quotes of a JSON string.
pub open spec fn escaped(s: Seq<char>) -> Seq<char>
    decreases s.len(),
{
    if s.len() == 0 {
        Seq::empty()
    } else {
        escaped(s.drop_last()) + escaped_char(s.last())
    }
}

/// A JSON string.
pub open spec fn json_string(s: Seq<char>) -> Seq<char> {
    seq!['"'] + escaped(s) + seq!['"']
}

/// A JSON object of two members, whose values are given as JSON.
pub open spec fn json_object(
    key1: Seq<char>,
    value1: Seq<char>,
    key2: Seq<char>,
    value2: Seq<char>,
) -> Seq<char> {
    seq!['{'] + json_string(key1) + seq![':'] + value1 + seq![','] + json_string(key2) + seq![':']
        + value2 + seq!['}']
}

/// Whether one key comes before another by its first character.
pub open spec fn key_before(one: Seq<char>, two: Seq<char>) -> bool {
    one.len() > 0 && two.len() > 0 && one[0] < two[0]
}

/// Renders an object of two members, a text and an object of two texts: it is built by
/// `serde_json::Map::insert` and `serde_json::Value::from`, and printed by the `Display`
/// of `serde_json::Value`, through `to_string`.
///
/// Not proved: that `serde_json` prints an object without blanks, with its members
/// in the order of their keys, and its strings between quotes with the quote, the
/// backslash and the control characters escaped.
#[verifier::external_body]
fn render_object(
    key: &str,
    value: &str,
    nested_key: &str,
    key1: &str,
    value1: &str,
    key2: &str,
    value2: &str,
) -> (text: String)
    requires
        key_before(key@, nested_key@),
        key_before(key1@, key2@),
    ensures
        text@ == json_object(
            key@,
            json_string(value@),
            nested_key@,
            json_object(key1@, json_string(value1@), key2@, json_string(value2@)),
        ),
{
    let mut nested = serde_json::Map::new();
    nested.insert(key1.to_string(), serde_json::Value::from(value1));
    nested.insert(key2.to_string(), serde_json::Value::from(value2));
    let mut whole = serde_json::Map::new();
    whole.insert(key.to_string(), serde_json::Value::from(value));
    whole.insert(nested_key.to_string(), serde_json::Value::Object(nested));
    serde_json::Value::Object(whole).to_string()
}

/// The request to subscribe to the best bid and offer of `coin`.
pub open spec fn bbo_request(coin: Seq<char>) -> Seq<char> {
    "{\"method\":\"subscribe\",\"subscription\":{\"coin\":"@ + json_string(coin)
        + ",\"type\":\"bbo\"}}"@
}

/// The request to subscribe to the state of the account `user`.
pub open spec fn web_data_request(user: Seq<char>) -> Seq<char> {
    "{\"method\":\"subscribe\",\"subscription\":{\"type\":\"webData2\",\"user\":"@ + json_string(user)
        + "}}"@
}

/// Whether no character of `s` needs escaping.
spec fn is_plain(s: Seq<char>) -> bool {
    forall|i: int| 0 <= i < s.len() ==> s[i] >= ' ' && #[trigger] s[i] != '"' && s[i] != '\\'
}

proof fn lemma_plain(s: Seq<char>)
    requires
        is_plain(s),
    ensures
        escaped(s) == s,
    decreases s.len(),
{
    if s.len() > 0 {
        lemma_plain(s.drop_last());
        assert(s.last() == s[s.len() - 1]);
        assert(s.drop_last() + seq![s.last()] == s);
    }
}

/// Builds the request to subscribe to the best bid and offer of `coin`.
pub fn subscribe_bbo(coin: &str) -> (text: String)
    ensures
        text@ == bbo_request(coin@),
{
    proof {
        reveal_strlit("method");
        reveal_strlit("subscribe");
        reveal_strlit("subscription");
        reveal_strlit("coin");
        reveal_strlit("type");
        reveal_strlit("bbo");
        reveal_strlit("{\"method\":\"subscribe\",\"subscription\":{\"coin\":");
        reveal_strlit(",\"type\":\"bbo\"}}");
        lemma_plain("method"@);
        lemma_plain("subscribe"@);
        lemma_plain("subscription"@);
        lemma_plain("coin"@);
        lemma_plain("type"@);
        lemma_plain("bbo"@);
    }
    let text = render_object("method", "subscribe", "subscription", "coin", coin, "type", "bbo");
    assert(text@ == bbo_request(coin@));
    text
}

/// Builds the request to subscribe to the state of the account `user`.
pub fn subscribe_web_data(user: &str) -> (text: String)
    ensures
        text@ == web_data_request(user@),
{
    proof {
        reveal_strlit("method");
        reveal_strlit("subscribe");
        reveal_strlit("subscription");
        reveal_strlit("type");
        reveal_strlit("webData2");
        reveal_strlit("user");
        reveal_strlit("{\"method\":\"subscribe\",\"subscription\":{\"type\":\"webData2\",\"user\":");
        reveal_strlit("}}");
        lemma_plain("method"@);
        lemma_plain("subscribe"@);
        lemma_plain("subscription"@);
        lemma_plain("type"@);
        lemma_plain("webData2"@);
        lemma_plain("user"@);
    }
    let text = render_object("method", "subscribe", "subscription", "type", "webData2", "user", user);
    assert(text@ == web_data_request(user@));
    text
}

} // verus!
