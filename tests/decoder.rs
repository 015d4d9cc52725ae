use genstream::decoder::{decode_chunks, DecodeError, DecodeEvent, StreamDecoder};
use genstream::json::FrontParse;

fn chunks(parts: &[&[u8]]) -> Vec<Vec<u8>> {
    parts.iter().map(|p| p.to_vec()).collect()
}

fn text_of(events: &[DecodeEvent]) -> String {
    let mut out = String::new();
    for e in events {
        if let DecodeEvent::Record(r) = e {
            if let Some(t) = &r.text_fragment {
                out.push_str(t);
            }
        }
    }
    out
}

/// (text, is_final, has_context) of each record, and the bytes of each malformed run.
fn shape(events: &[DecodeEvent]) -> Vec<(Option<String>, bool, bool, Option<Vec<u8>>)> {
    events
        .iter()
        .map(|e| match e {
            DecodeEvent::Record(r) => (r.text_fragment.clone(), r.is_final, r.context.is_some(), None),
            DecodeEvent::Malformed(b) => (None, false, false, Some(b.clone())),
        })
        .collect()
}

fn final_context(events: &[DecodeEvent]) -> Option<serde_json::Value> {
    events.iter().find_map(|e| match e {
        DecodeEvent::Record(r) if r.is_final => r.context.clone(),
        _ => None,
    })
}

const STREAM: &str = "{\"response\":\"caf\u{e9}\",\"done\":false}\n{\"response\":\" \u{4e16}\",\"done\":false}\n{\"response\":\"!\",\"done\":true,\"context\":[7,8]}";

#[test]
fn split_record_then_terminal_with_context() {
    let input = chunks(&[
        b"{\"resp",
        b"onse\":\"Hi\",\"done\":false}",
        b"{\"response\":\" there\",\"done\":true,\"context\":[1,2,3]}",
    ]);
    let (events, status) = decode_chunks(&input);
    assert_eq!(text_of(&events), "Hi there");
    assert_eq!(status, Ok(()));
    let expected: serde_json::Value = serde_json::from_str("[1,2,3]").unwrap();
    assert_eq!(final_context(&events), Some(expected));
    assert_eq!(events.len(), 2);
}

#[test]
fn stream_closed_before_terminal() {
    let input = chunks(&[b"{\"response\":\"partial\",\"done\":false}"]);
    let (events, status) = decode_chunks(&input);
    assert_eq!(text_of(&events), "partial");
    assert_eq!(status, Err(DecodeError::IncompleteStream));
    assert_eq!(final_context(&events), None);
}

#[test]
fn empty_stream_is_incomplete() {
    let (events, status) = decode_chunks(&Vec::new());
    assert!(events.is_empty());
    assert_eq!(status, Err(DecodeError::IncompleteStream));
    assert_eq!(StreamDecoder::new().finish(), Err(DecodeError::IncompleteStream));
}

#[test]
fn malformed_bytes_are_reported_once_and_decoding_goes_on() {
    let input = chunks(&[
        b"{\"response\": \"x\", \"done\":",
        b" @@garbage",
        b"{\"response\":\"ok\",\"done\":true}",
    ]);
    let (events, status) = decode_chunks(&input);
    let got = shape(&events);
    assert_eq!(got.len(), 2);
    assert_eq!(got[0].3, Some(b"{\"response\": \"x\", \"done\": @@garbage".to_vec()));
    assert_eq!(got[1], (Some("ok".to_string()), true, false, None));
    assert_eq!(status, Ok(()));
}

#[test]
fn every_two_way_split_gives_the_same_records() {
    let bytes = STREAM.as_bytes();
    let (whole, _) = decode_chunks(&vec![bytes.to_vec()]);
    assert_eq!(text_of(&whole), "caf\u{e9} \u{4e16}!");
    assert_eq!(whole.len(), 3);
    for at in 0..=bytes.len() {
        let (events, status) = decode_chunks(&vec![bytes[..at].to_vec(), bytes[at..].to_vec()]);
        assert_eq!(shape(&events), shape(&whole), "split at {}", at);
        assert_eq!(status, Ok(()));
    }
}

#[test]
fn byte_at_a_time_gives_the_same_records() {
    let bytes = STREAM.as_bytes();
    let one_each: Vec<Vec<u8>> = bytes.iter().map(|b| vec![*b]).collect();
    let (events, status) = decode_chunks(&one_each);
    assert_eq!(text_of(&events), "caf\u{e9} \u{4e16}!");
    assert_eq!(events.len(), 3);
    assert_eq!(status, Ok(()));
    let expected: serde_json::Value = serde_json::from_str("[7,8]").unwrap();
    assert_eq!(final_context(&events), Some(expected));
}

#[test]
fn splitting_a_chunk_again_changes_nothing() {
    let bytes = STREAM.as_bytes();
    let base = vec![bytes[..20].to_vec(), bytes[20..50].to_vec(), bytes[50..].to_vec()];
    let (before, _) = decode_chunks(&base);
    let finer = vec![
        bytes[..20].to_vec(),
        bytes[20..33].to_vec(),
        bytes[33..50].to_vec(),
        bytes[50..].to_vec(),
    ];
    let (after, _) = decode_chunks(&finer);
    assert_eq!(shape(&before), shape(&after));
}

#[test]
fn context_on_a_non_terminal_record_is_ignored() {
    let input = chunks(&[
        b"{\"response\":\"a\",\"done\":false,\"context\":[9]}",
        b"{\"response\":\"b\",\"done\":true}",
    ]);
    let (events, status) = decode_chunks(&input);
    let got = shape(&events);
    assert_eq!(got[0], (Some("a".to_string()), false, false, None));
    assert_eq!(got[1], (Some("b".to_string()), true, false, None));
    assert_eq!(final_context(&events), None);
    assert_eq!(status, Ok(()));
}

#[test]
fn nothing_is_read_after_the_terminal_record() {
    let mut d = StreamDecoder::new();
    let first = d.feed(b"{\"response\":\"end\",\"done\":true,\"context\":{\"k\":1}}{\"response\":\"late\"}");
    assert_eq!(first.len(), 1);
    assert!(d.is_terminal());
    assert!(d.pending().is_empty());
    let later = d.feed(b"{\"response\":\"more\",\"done\":false}");
    assert!(later.is_empty());
    assert_eq!(d.finish(), Ok(()));
}

#[test]
fn several_records_in_one_chunk() {
    let mut d = StreamDecoder::new();
    let events = d.feed(b"{\"response\":\"a\"}{\"response\":\"b\",\"done\":false}{\"resp");
    assert_eq!(text_of(&events), "ab");
    assert_eq!(d.pending(), b"{\"resp");
    assert!(!d.is_terminal());
}

#[test]
fn absent_fields_give_no_text_and_no_end() {
    let mut d = StreamDecoder::new();
    let events = d.feed(b"{\"other\":1}{\"response\":5,\"done\":\"yes\"}");
    assert_eq!(shape(&events), vec![(None, false, false, None), (None, false, false, None)]);
    assert_eq!(d.finish(), Err(DecodeError::IncompleteStream));
}

#[test]
fn non_object_value_is_malformed() {
    let mut d = StreamDecoder::new();
    let events = d.feed(b"[1,2]");
    assert_eq!(shape(&events), vec![(None, false, false, Some(b"[1,2]".to_vec()))]);
    assert!(d.pending().is_empty());
}

#[test]
fn invalid_utf8_in_a_complete_record_is_malformed() {
    let mut d = StreamDecoder::new();
    let events = d.feed(b"{\"response\":\"\xff\",\"done\":false}");
    assert_eq!(events.len(), 1);
    assert!(matches!(events[0], DecodeEvent::Malformed(_)));
    let more = d.feed(b"{\"response\":\"fine\",\"done\":true}");
    assert_eq!(text_of(&more), "fine");
}

#[test]
fn truncated_character_waits_for_more_bytes() {
    let mut d = StreamDecoder::new();
    let events = d.feed(b"{\"response\":\"\xc3");
    assert!(events.is_empty());
    let events = d.feed(b"\xa9\",\"done\":true}");
    assert_eq!(text_of(&events), "\u{e9}");
}

#[test]
fn absorb_steps_on_a_given_outcome() {
    let mut d = StreamDecoder::new();
    assert!(d.feed(b"{\"response\":\"ab").is_empty());
    assert!(d.absorb(FrontParse::Truncated).is_none());
    assert_eq!(d.pending(), b"{\"response\":\"ab");
    match d.absorb(FrontParse::Invalid) {
        Some(DecodeEvent::Malformed(b)) => assert_eq!(b, b"{\"response\":\"ab".to_vec()),
        _ => panic!("expected a malformed event"),
    }
    assert!(d.pending().is_empty());

    assert!(d.feed(b"{\"x\":").is_empty());
    let mut m = serde_json::Map::new();
    m.insert("response".to_string(), serde_json::Value::String("hi".to_string()));
    m.insert("done".to_string(), serde_json::Value::Bool(false));
    m.insert("context".to_string(), serde_json::Value::Bool(true));
    match d.absorb(FrontParse::Record(m, 2)) {
        Some(DecodeEvent::Record(r)) => {
            assert_eq!(r.text_fragment, Some("hi".to_string()));
            assert!(!r.is_final);
            assert!(r.context.is_none());
        }
        _ => panic!("expected a record"),
    }
    assert_eq!(d.pending(), b"x\":");

    let mut m = serde_json::Map::new();
    m.insert("done".to_string(), serde_json::Value::Bool(true));
    m.insert("context".to_string(), serde_json::Value::Bool(true));
    match d.absorb(FrontParse::Record(m, 1)) {
        Some(DecodeEvent::Record(r)) => {
            assert_eq!(r.text_fragment, None);
            assert!(r.is_final);
            assert_eq!(r.context, Some(serde_json::Value::Bool(true)));
        }
        _ => panic!("expected a record"),
    }
    assert!(d.is_terminal());
    assert!(d.pending().is_empty());
}
