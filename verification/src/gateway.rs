//! The WebSocket broadcast benchmark: which gateway address a subscriber
//! uses, the subscription it sends, the publisher's command, and when the
//! connection phase is over.

use vstd::prelude::*;
use vstd::string::{StringExecFns, StringSliceAdditionalSpecFns};
use crate::resp::{command, encode_command};
use crate::workload::set_word;
use crate::resp::decimal;
use crate::roundtrip::ascii_text;

verus! {

#[verifier::external_type_specification]
#[verifier::external_body]
pub struct ExUrl(url::Url);

#[verifier::external_type_specification]
#[verifier::external_body]
pub struct ExUrlParseError(url::ParseError);

/// Whether `Url::parse` accepts `text` as an absolute URL.
pub uninterp spec fn url_parses(text: Seq<char>) -> bool;

/// The URL that `Url::parse` makes of `text`, when it accepts it.
pub uninterp spec fn parsed_url(text: Seq<char>) -> url::Url;

/// Trusted: `url::Url::parse(text)` of the `url` crate. Claimed: it succeeds
/// exactly when `url_parses` holds of the text, and then returns the URL named
/// by `parsed_url` for that text; nothing more is claimed of the parsed value.
#[verifier::external_body]
fn parse_url(text: &str) -> (parsed: Result<url::Url, url::ParseError>)
    ensures
        parsed is Ok <==> url_parses(text@),
        parsed matches Ok(u) ==> u == parsed_url(text@),
{
    url::Url::parse(text)
}

/// The address of the gateway that subscriber `i` connects to: the four
/// loopback addresses `127.0.0.1` to `127.0.0.4` in turn, port 8082.
pub open spec fn gateway_url_text(i: nat) -> Seq<char> {
    if i % 4 == 0 {
        "ws://127.0.0.1:8082"@
    } else if i % 4 == 1 {
        "ws://127.0.0.2:8082"@
    } else if i % 4 == 2 {
        "ws://127.0.0.3:8082"@
    } else {
        "ws://127.0.0.4:8082"@
    }
}

/// Law: subscriber `i` connects to `ws://127.0.0.<k>:8082` where `k` is
/// `i % 4 + 1`.
pub proof fn law_gateway_address(i: nat)
    ensures
        gateway_url_text(i) == "ws://127.0.0."@ + ascii_text(decimal(i % 4 + 1)) + ":8082"@,
{
    reveal_strlit("ws://127.0.0.");
    reveal_strlit(":8082");
    reveal_strlit("ws://127.0.0.1:8082");
    reveal_strlit("ws://127.0.0.2:8082");
    reveal_strlit("ws://127.0.0.3:8082");
    reveal_strlit("ws://127.0.0.4:8082");
    let k = i % 4 + 1;
    assert(decimal(k) =~= seq![(48 + k) as u8]);
    assert("ws://127.0.0."@ + ascii_text(decimal(k)) + ":8082"@ =~= gateway_url_text(i));
}

/// Law: the subscribers are spread over the four gateways in turn: subscriber
/// `i + 4` uses the same gateway as subscriber `i`, and four consecutive
/// subscribers use four different ones.
pub proof fn law_gateways_rotate(i: nat)
    ensures
        gateway_url_text(i + 4) == gateway_url_text(i),
        forall|a: nat, b: nat| #![trigger gateway_url_text(i + a), gateway_url_text(i + b)]
            a < 4 && b < 4 && a != b ==> gateway_url_text(i + a) != gateway_url_text(i + b),
{
    reveal_strlit("ws://127.0.0.1:8082");
    reveal_strlit("ws://127.0.0.2:8082");
    reveal_strlit("ws://127.0.0.3:8082");
    reveal_strlit("ws://127.0.0.4:8082");
    assert forall|a: nat, b: nat| #![trigger gateway_url_text(i + a), gateway_url_text(i + b)]
        a < 4 && b < 4 && a != b implies gateway_url_text(i + a) != gateway_url_text(i + b) by {
        assert((i + a) % 4 != (i + b) % 4);
        assert(gateway_url_text(i + a)[13] != gateway_url_text(i + b)[13]);
    }
}

/// The gateway address of subscriber `i`.
pub fn gateway_url(i: usize) -> (url: String)
    ensures
        url@ == gateway_url_text(i as nat),
{
    let r = i % 4;
    if r == 0 {
        "ws://127.0.0.1:8082".to_owned()
    } else if r == 1 {
        "ws://127.0.0.2:8082".to_owned()
    } else if r == 2 {
        "ws://127.0.0.3:8082".to_owned()
    } else {
        "ws://127.0.0.4:8082".to_owned()
    }
}

/// Why a subscriber cannot connect.
#[derive(Clone, Copy, Debug, PartialEq, Eq, Structural)]
pub enum GatewayError {
    /// The gateway address is not a URL.
    BadUrl,
}

/// The parsed gateway address of subscriber `i`: the parse of `gateway_url_text(i)`.
pub fn gateway_endpoint(i: usize) -> (endpoint: Result<url::Url, GatewayError>)
    ensures
        endpoint is Ok <==> url_parses(gateway_url_text(i as nat)),
        endpoint matches Ok(u) ==> u == parsed_url(gateway_url_text(i as nat)),
{
    let text = gateway_url(i);
    match parse_url(text.as_str()) {
        Ok(u) => Ok(u),
        Err(_) => Err(GatewayError::BadUrl),
    }
}

/// The subscription a subscriber sends: `{"action": "subscribe", "key": "<topic>"}`,
/// the topic written as it is.
pub fn subscribe_message(topic: &str) -> (msg: String)
    ensures
        msg@ == "{\"action\": \"subscribe\", \"key\": \""@ + topic@ + "\"}"@,
{
    let mut msg = "{\"action\": \"subscribe\", \"key\": \"".to_owned();
    msg.append(topic);
    msg.append("\"}");
    msg
}

/// The publisher's command: SET `topic` to `value`.
pub fn publish_command(topic: &str, value: &str) -> (cmd: Vec<u8>)
    ensures
        cmd@ == command(seq![set_word(), topic.spec_bytes(), value.spec_bytes()]),
{
    let mut args: Vec<Vec<u8>> = Vec::new();
    args.push(vec![83u8, 69u8, 84u8]);
    args.push(vstd::slice::slice_to_vec(topic.as_bytes()));
    args.push(vstd::slice::slice_to_vec(value.as_bytes()));
    let cmd = encode_command(&args);
    proof {
        let dv = args.deep_view();
        assert(args@[0]@ =~= set_word());
        assert(dv[0] == args@[0]@);
        assert(dv[1] == args@[1]@);
        assert(dv[2] == args@[2]@);
        assert(dv =~= seq![set_word(), topic.spec_bytes(), value.spec_bytes()]);
    }
    cmd
}

/// Whether the connection phase is over: all but 300 of the `expected`
/// subscribers are connected.
pub fn connections_settled(connected: usize, expected: usize) -> (settled: bool)
    requires
        expected >= 300,
    ensures
        settled == (connected >= expected - 300),
{
    connected >= expected - 300
}

/// Whether progress is reported after starting subscriber `i`: every hundredth one.
pub fn reports_progress(i: usize) -> (report: bool)
    ensures
        report == (i % 100 == 0),
{
    i % 100 == 0
}

/// The messages received during one measuring window, from the counter's
/// values before and after it.
pub fn messages_in_window(before: usize, after: usize) -> (received: usize)
    requires
        before <= after,
    ensures
        received == after - before,
{
    after - before
}

} // verus!
