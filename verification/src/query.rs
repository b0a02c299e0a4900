//! The query façade: the fixed texts of one oracle round trip, and the
//! mapping of its outcome to positions — empty on any failure, never an
//! error.

use vstd::prelude::*;

use crate::reply::{has_split_digits, parse_reply, parse_reply_chars, reply_text, strip_ws_spec};

verus! {

/// What one transport round trip produced: the reply text of a completed
/// exchange, or a failure to reach the oracle or to complete the exchange.
pub enum ReplyOutcome {
    /// The oracle answered with this text.
    Reply(String),
    /// The transport failed; no reply text exists.
    TransportFailure,
}

/// The positions an outcome carries: what the reply grammar yields for a
/// completed exchange once insignificant whitespace is removed, and none at
/// all for anything else.
pub open spec fn spec_positions(outcome: ReplyOutcome) -> Seq<u64> {
    match outcome {
        ReplyOutcome::Reply(s) => if has_split_digits(s@) {
            Seq::<u64>::empty()
        } else {
            match parse_reply_chars(strip_ws_spec(s@)) {
                Some(v) => v,
                None => Seq::<u64>::empty(),
            }
        },
        ReplyOutcome::TransportFailure => Seq::<u64>::empty(),
    }
}

/// Turns one outcome into the positions it names. A transport failure or a
/// reply outside the grammar gives the empty list; the caller cannot tell
/// "nothing matched" from "the oracle failed", by design.
pub fn positions_from_reply(outcome: &ReplyOutcome) -> (r: Vec<u64>)
    ensures
        r@ == spec_positions(*outcome),
        outcome is TransportFailure ==> r@ == Seq::<u64>::empty(),
        outcome matches ReplyOutcome::Reply(s) && parse_reply_chars(strip_ws_spec(s@)) is None
            ==> r@ == Seq::<u64>::empty(),
        outcome matches ReplyOutcome::Reply(s) && has_split_digits(s@) ==> r@ == Seq::<
            u64,
        >::empty(),
        outcome matches ReplyOutcome::Reply(s) ==> forall|vals: Seq<u64>|
            strip_ws_spec(s@) == reply_text(vals) && !has_split_digits(s@) ==> r@ == vals,
        r@.len() > 0 ==> (outcome matches ReplyOutcome::Reply(s) && strip_ws_spec(s@)
            == reply_text(r@) && !has_split_digits(s@)),
{
    match outcome {
        ReplyOutcome::Reply(s) => match parse_reply(s.as_str()) {
            Some(v) => {
                proof {
                    assert forall|vals: Seq<u64>| strip_ws_spec(s@) == reply_text(vals) implies v@
                        == vals by {
                        crate::reply::lemma_reply_round_trip(vals);
                    }
                }
                v
            },
            None => Vec::new(),
        },
        ReplyOutcome::TransportFailure => Vec::new(),
    }
}

/// The fixed instruction that describes the line protocol to the oracle.
pub open spec fn system_prompt_text() -> Seq<char> {
    "You are a array search tool. Find the index of given element, in given array. Data given in format: \n{elements_separator}<newline>\nfind {searching_element}<newline>\n{element_separator}<newline>{index},{element}<newline>..."@
}

/// The system message sent with every query.
pub fn system_prompt() -> (r: &'static str)
    ensures
        r@ == system_prompt_text(),
{
    "You are a array search tool. Find the index of given element, in given array. Data given in format: \n{elements_separator}<newline>\nfind {searching_element}<newline>\n{element_separator}<newline>{index},{element}<newline>..."
}

/// The JSON schema that constrains the oracle's reply to an object holding
/// one array of non-negative integers named `result`.
pub open spec fn response_schema_text() -> Seq<char> {
    "{\"type\":\"object\",\"properties\":{\"result\":{\"type\":\"array\",\"items\":{\"type\":\"integer\",\"minimum\":0}}},\"required\":[\"result\"],\"additionalProperties\":false}"@
}

/// The reply schema sent with every query.
pub fn response_schema() -> (r: &'static str)
    ensures
        r@ == response_schema_text(),
{
    "{\"type\":\"object\",\"properties\":{\"result\":{\"type\":\"array\",\"items\":{\"type\":\"integer\",\"minimum\":0}}},\"required\":[\"result\"],\"additionalProperties\":false}"
}

} // verus!
