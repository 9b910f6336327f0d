//! The text that is pushed to clients.
//!
//! A record travels as one JSON object with the members `name`,
//! `timestamp`, `content`, `time` and `status`, in this order and without
//! white space. Numbers are written in decimal; strings are quoted and
//! escaped by `serde_json`.

use vstd::prelude::*;
use vstd::string::StringExecFns;

verus! {

/// The JSON string literal for `s`: `s` between double quotes, with the
/// characters that JSON does not allow inside a string escaped.
pub uninterp spec fn json_string(s: Seq<char>) -> Seq<char>;

/// Quotes and escapes a string as JSON.
///
/// Trusted: the body calls `serde_json::to_string` on a string slice. The
/// contract claims only that the text returned is a function of the
/// characters passed in, which it names `json_string`. The call writes into
/// a buffer in memory and a string slice can always be serialised, so that
/// it does not fail.
#[verifier::external_body]
fn quote(s: &str) -> (out: String)
    ensures
        out@ == json_string(s@),
{
    serde_json::to_string(s).expect("json to string error")
}

/// The numeral of one decimal digit.
pub open spec fn digit(d: nat) -> Seq<char> {
    if d == 0 {
        "0"@
    } else if d == 1 {
        "1"@
    } else if d == 2 {
        "2"@
    } else if d == 3 {
        "3"@
    } else if d == 4 {
        "4"@
    } else if d == 5 {
        "5"@
    } else if d == 6 {
        "6"@
    } else if d == 7 {
        "7"@
    } else if d == 8 {
        "8"@
    } else {
        "9"@
    }
}

/// The decimal numeral of `n`, without leading zeros.
pub open spec fn decimal(n: nat) -> Seq<char>
    decreases n,
{
    if n < 10 {
        digit(n)
    } else {
        decimal(n / 10) + digit(n % 10)
    }
}

/// The decimal numeral of an integer, with a minus sign before a negative
/// one.
pub open spec fn signed_decimal(n: int) -> Seq<char> {
    if n < 0 {
        "-"@ + decimal((-n) as nat)
    } else {
        decimal(n as nat)
    }
}

/// The JSON object made of the five members of a record, where the three
/// strings have been quoted already.
pub open spec fn frame(
    name: Seq<char>,
    timestamp: usize,
    content: Seq<char>,
    time: Seq<char>,
    status: i8,
) -> Seq<char> {
    "{\"name\":"@ + name + ",\"timestamp\":"@ + decimal(timestamp as nat) + ",\"content\":"@
        + content + ",\"time\":"@ + time + ",\"status\":"@ + signed_decimal(status as int) + "}"@
}

/// The text of the notice that session `id` has left a room.
pub open spec fn left_text(id: usize) -> Seq<char> {
    "id: "@ + decimal(id as nat) + " disconnected"@
}

/// The text of the notice that session `id` has entered a room.
pub open spec fn joined_text(id: usize) -> Seq<char> {
    "id: "@ + decimal(id as nat) + " connected"@
}

fn digit_str(d: usize) -> (s: &'static str)
    requires
        d < 10,
    ensures
        s@ == digit(d as nat),
{
    if d == 0 {
        "0"
    } else if d == 1 {
        "1"
    } else if d == 2 {
        "2"
    } else if d == 3 {
        "3"
    } else if d == 4 {
        "4"
    } else if d == 5 {
        "5"
    } else if d == 6 {
        "6"
    } else if d == 7 {
        "7"
    } else if d == 8 {
        "8"
    } else {
        "9"
    }
}

/// Writes `n` in decimal.
pub fn decimal_string(n: usize) -> (out: String)
    ensures
        out@ == decimal(n as nat),
    decreases n,
{
    if n < 10 {
        String::from_str(digit_str(n))
    } else {
        let mut out = decimal_string(n / 10);
        out.append(digit_str(n % 10));
        out
    }
}

/// Writes a small signed integer in decimal.
pub fn signed_decimal_string(n: i8) -> (out: String)
    ensures
        out@ == signed_decimal(n as int),
{
    if n < 0 {
        let wide: i16 = n as i16;
        let magnitude: usize = (-wide) as usize;
        let mut out = String::from_str("-");
        out.append(decimal_string(magnitude).as_str());
        out
    } else {
        decimal_string(n as usize)
    }
}

/// Puts the five members of a record, the strings quoted already, into one
/// JSON object.
pub fn frame_record(name: &str, timestamp: usize, content: &str, time: &str, status: i8) -> (out:
    String)
    ensures
        out@ == frame(name@, timestamp, content@, time@, status),
{
    let mut out = String::from_str("{\"name\":");
    out.append(name);
    out.append(",\"timestamp\":");
    out.append(decimal_string(timestamp).as_str());
    out.append(",\"content\":");
    out.append(content);
    out.append(",\"time\":");
    out.append(time);
    out.append(",\"status\":");
    out.append(signed_decimal_string(status).as_str());
    out.append("}");
    out
}

/// Encodes a record for the wire: the strings are quoted and escaped, then
/// framed with the two numbers.
pub fn encode_record(name: &str, timestamp: usize, content: &str, time: &str, status: i8) -> (out:
    String)
    ensures
        out@ == frame(json_string(name@), timestamp, json_string(content@), json_string(time@), status),
{
    let name_json = quote(name);
    let content_json = quote(content);
    let time_json = quote(time);
    frame_record(name_json.as_str(), timestamp, content_json.as_str(), time_json.as_str(), status)
}

/// Builds the text of the notice that session `id` has left a room.
pub fn left_notice(id: usize) -> (out: String)
    ensures
        out@ == left_text(id),
{
    let mut out = String::from_str("id: ");
    out.append(decimal_string(id).as_str());
    out.append(" disconnected");
    out
}

/// Builds the text of the notice that session `id` has entered a room.
pub fn joined_notice(id: usize) -> (out: String)
    ensures
        out@ == joined_text(id),
{
    let mut out = String::from_str("id: ");
    out.append(decimal_string(id).as_str());
    out.append(" connected");
    out
}

} // verus!
