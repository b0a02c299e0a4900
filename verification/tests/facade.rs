use vibesearch::batch::BatchRun;
use vibesearch::digest::{deserialize_base64, serialize_base64, sha256_base64};
use vibesearch::error::Error;
use vibesearch::frame::random_base36;
use vibesearch::protocol::{encode, stable_hash_u64, Strategy};
use vibesearch::query::{positions_from_reply, response_schema, system_prompt, ReplyOutcome};
use vibesearch::reply::parse_reply;
use vibesearch::text::u64_to_decimal;

#[test]
fn parse_reply_accepts_positions() {
    assert_eq!(parse_reply("{\"result\":[2,4]}"), Some(vec![2, 4]));
    assert_eq!(parse_reply("{\"result\":[0]}"), Some(vec![0]));
    assert_eq!(
        parse_reply("{\"result\":[18446744073709551615]}"),
        Some(vec![u64::MAX])
    );
}

#[test]
fn parse_reply_accepts_empty_list() {
    assert_eq!(parse_reply("{\"result\":[]}"), Some(vec![]));
    assert_eq!(parse_reply("{ \"result\" : [ ] }"), Some(vec![]));
}

#[test]
fn parse_reply_accepts_whitespace_between_tokens() {
    assert_eq!(parse_reply("{\"result\": [1, 2]}"), Some(vec![1, 2]));
    assert_eq!(parse_reply("{\"result\":[2] }"), Some(vec![2]));
    assert_eq!(parse_reply("{\"result\":[2,4]} "), Some(vec![2, 4]));
    assert_eq!(parse_reply("\n{\"result\":\t[7]}\r\n"), Some(vec![7]));
}

#[test]
fn parse_reply_rejects_malformed_text() {
    assert_eq!(parse_reply(""), None);
    assert_eq!(parse_reply("nonsense"), None);
    assert_eq!(parse_reply("{\"result\":[2,]}"), None);
    assert_eq!(parse_reply("{\"result\":[-1]}"), None);
    assert_eq!(parse_reply("{\"result\":[01]}"), None);
    assert_eq!(parse_reply("{\"result\":[00]}"), None);
    assert_eq!(parse_reply("{\"results\":[2]}"), None);
    // Whitespace inside a number splits it: no conforming reply does that.
    assert_eq!(parse_reply("{\"result\":[1 2]}"), None);
    assert_eq!(parse_reply("{\"result\":[1\t2]}"), None);
    // One digit more than the largest 64-bit value can carry.
    assert_eq!(parse_reply("{\"result\":[184467440737095516150]}"), None);
}

#[test]
fn query_facade_swallows_failures() {
    let transport_failed = ReplyOutcome::TransportFailure;
    assert_eq!(positions_from_reply(&transport_failed), Vec::<u64>::new());

    let bad_schema = ReplyOutcome::Reply("{\"positions\":[1]}".to_string());
    assert_eq!(positions_from_reply(&bad_schema), Vec::<u64>::new());

    let good = ReplyOutcome::Reply("{\"result\":[1,3]}".to_string());
    assert_eq!(positions_from_reply(&good), vec![1, 3]);

    let spaced = ReplyOutcome::Reply("{\"result\": [1]}".to_string());
    assert_eq!(positions_from_reply(&spaced), vec![1]);

    let split = ReplyOutcome::Reply("{\"result\":[1 2]}".to_string());
    assert_eq!(positions_from_reply(&split), Vec::<u64>::new());
}

#[test]
fn batch_collects_results_in_target_order() {
    let elements: Vec<String> = vec!["a".to_string(), "b".to_string(), "a".to_string()];
    let targets: Vec<String> = vec!["a".to_string(), "b".to_string()];
    let mut run = BatchRun::new(elements, targets);

    assert!(!run.finished());
    let first = run.next_frame().unwrap();
    let first_lines: Vec<_> = first.split("\n").collect();
    assert_eq!(first_lines[1], "find a");
    run.record(&ReplyOutcome::Reply("{\"result\":[0,2]}".to_string()));

    assert!(!run.finished());
    let second = run.next_frame().unwrap();
    let second_lines: Vec<_> = second.split("\n").collect();
    assert_eq!(second_lines[1], "find b");
    run.record(&ReplyOutcome::TransportFailure);

    assert!(run.finished());
    assert!(run.next_frame().is_none());
    assert_eq!(run.into_results(), vec![vec![0, 2], Vec::<u64>::new()]);
}

#[test]
fn serialization_gives_known_text() {
    // The single-byte binary form of 2 is the byte 2, whose base64 is known.
    assert_eq!(serialize_base64(2).unwrap(), "Ag==");
}

#[test]
fn serialization_round_trip_reproduces_value() {
    for x in [0u64, 1, 2, 250, 251, 123456, u64::MAX] {
        let encoded = serialize_base64(x).unwrap();
        assert_eq!(deserialize_base64(encoded.as_str()), Some(x));
    }
}

#[test]
fn sha256_base64_gives_known_digest() {
    // The SHA-256 digest of the empty byte string, rendered in base64.
    assert_eq!(
        sha256_base64(&[]),
        "47DEQpj8HBSa+/TImW+5JCeuQeRkm5NMpJWZG3hSuFU="
    );
    // Equal content gives byte-identical digests across calls.
    assert_eq!(sha256_base64(&[1, 2, 3]), sha256_base64(&[1, 2, 3]));
    assert_ne!(sha256_base64(&[1]), sha256_base64(&[2]));
}

#[test]
fn stable_hash_is_deterministic() {
    assert_eq!(stable_hash_u64(7), stable_hash_u64(7));
    assert_eq!(stable_hash_u64(u64::MAX), stable_hash_u64(u64::MAX));
}

#[test]
fn decimal_rendering_is_canonical() {
    assert_eq!(u64_to_decimal(0), "0");
    assert_eq!(u64_to_decimal(9), "9");
    assert_eq!(u64_to_decimal(10), "10");
    assert_eq!(u64_to_decimal(1234), "1234");
    assert_eq!(u64_to_decimal(u64::MAX), "18446744073709551615");
}

#[test]
fn minted_delimiters_are_base36() {
    for _ in 0..8 {
        let d = random_base36(12);
        assert_eq!(d.len(), 12);
        assert!(d
            .chars()
            .all(|c| c.is_ascii_digit() || c.is_ascii_lowercase()));
    }
    assert_eq!(random_base36(0), "");
}

#[test]
fn frames_are_self_consistent() {
    // Two consecutive calls mint delimiters independently; each frame must
    // be self-consistent in itself.
    for _ in 0..2 {
        let elements: Vec<String> = vec!["x".to_string(), "y".to_string(), "z".to_string()];
        let frame = match encode(&Strategy::Literal(elements, "y".to_string())) {
            Ok(f) => f,
            Err(_) => panic!("the literal strategy cannot fail"),
        };
        let lines: Vec<_> = frame.split("\n").collect();
        let separator = lines[0];
        assert_eq!(lines[1], "find y");
        assert_eq!(lines[2], separator);
        assert_eq!(lines[4], separator);
        assert_eq!(lines[6], separator);
        // The trailing newline leaves one empty piece at the end.
        assert_eq!(lines[8], "");
    }
}

#[test]
fn empty_collection_frames_only_the_target() {
    let elements: Vec<String> = Vec::new();
    let frame = vibesearch::protocol::literal_prompt(&elements, &"q".to_string());
    let lines: Vec<_> = frame.split("\n").collect();
    assert_eq!(lines.len(), 3);
    assert_eq!(lines[0].len(), 12);
    assert_eq!(lines[1], "find q");
    assert_eq!(lines[2], "");
}

#[test]
fn batch_with_no_targets_finishes_at_once() {
    let elements: Vec<String> = vec!["a".to_string()];
    let run = BatchRun::new(elements, Vec::new());
    assert!(run.finished());
    assert!(run.next_frame().is_none());
    assert_eq!(run.into_results(), Vec::<Vec<u64>>::new());
}

#[test]
fn encode_dispatches_every_strategy() {
    assert!(encode(&Strategy::StableHash(vec![1, 2], 2)).is_ok());
    assert!(encode(&Strategy::CryptoHash(vec![vec![1]], vec![1])).is_ok());
    assert!(encode(&Strategy::StructuredSerialization(vec![1, 2], 2)).is_ok());
}

#[test]
fn error_carries_its_message() {
    let e = Error::Encode("element refused".to_string());
    assert_eq!(e.message(), "element refused");
}

#[test]
fn fixed_query_texts() {
    assert!(system_prompt().starts_with("You are a array search tool."));
    let schema: serde_json::Value = serde_json::from_str(response_schema()).unwrap();
    assert_eq!(schema["type"], "object");
    assert_eq!(schema["required"][0], "result");
    assert_eq!(schema["additionalProperties"], serde_json::Value::Bool(false));
}
