use sweet::error::{DecodeError, ProviderError};
use sweet::event_reader::{EventReader, Pick, ReadStep};
use sweet::sse::{data_lines, drain_event, find_event_end};

#[test]
fn returns_none_when_no_boundary() {
    assert_eq!(find_event_end(b""), None);
    assert_eq!(find_event_end(b"data: partial"), None);
}

#[test]
fn finds_lf_lf_boundary() {
    assert_eq!(find_event_end(b"data: x\n\nrest"), Some(9));
}

#[test]
fn finds_crlf_crlf_boundary() {
    assert_eq!(find_event_end(b"data: x\r\n\r\nrest"), Some(11));
}

#[test]
fn picks_earliest_when_both_present() {
    let buf = b"data: x\n\ndata: y\r\n\r\n";
    assert_eq!(find_event_end(buf), Some(9));
}

#[test]
fn drain_event_returns_none_when_incomplete() {
    let mut buf = b"data: partial".to_vec();
    assert!(drain_event(&mut buf).is_none());
}

#[test]
fn drain_event_extracts_text() {
    let mut buf = b"data: hello\n\n".to_vec();
    let result = drain_event(&mut buf).unwrap().unwrap();
    assert_eq!(result, "data: hello");
    assert!(buf.is_empty());
}

#[test]
fn data_lines_extracts_payload() {
    let event = "data: {\"foo\":1}\n\n";
    assert_eq!(data_lines(event), vec![r#"{"foo":1}"#]);
}

#[test]
fn data_lines_skips_empty() {
    let event = "data: \ndata: hello\n";
    assert_eq!(data_lines(event), vec!["hello"]);
}

#[test]
fn data_lines_handles_no_prefix() {
    let event = ": comment\nevent: ping\n";
    assert!(data_lines(event).is_empty());
}

#[test]
fn boundary_at_the_very_start() {
    assert_eq!(find_event_end(b"\n\n"), Some(2));
    assert_eq!(find_event_end(b"\n"), None);
    assert_eq!(find_event_end(b"a\r\n\r\nb\n\n"), Some(5));
    assert_eq!(find_event_end(b"\r\n\n"), Some(3));
}

#[test]
fn drain_event_keeps_what_follows() {
    let mut buf = b"data: a\r\n\r\ndata: b".to_vec();
    assert_eq!(drain_event(&mut buf).unwrap().unwrap(), "data: a");
    assert_eq!(buf, b"data: b".to_vec());
    assert!(drain_event(&mut buf).is_none());
    assert_eq!(buf, b"data: b".to_vec());
}

#[test]
fn drain_event_reports_bytes_that_are_no_text() {
    let mut buf = vec![b'd', 0xFF, b'\n', b'\n', b'x'];
    match drain_event(&mut buf) {
        Some(Err(ProviderError::Decode(DecodeError::Message(m)))) => {
            assert_eq!(
                m,
                "non-utf8 SSE event: invalid utf-8 sequence of 1 bytes from index 1"
            );
        }
        other => panic!("unexpected {other:?}"),
    }
    assert_eq!(buf, vec![b'x']);
}

#[test]
fn data_lines_are_trimmed() {
    assert_eq!(data_lines("data:  x \r\ndata:y"), vec!["x", "y"]);
    assert_eq!(data_lines("data: hello \n"), vec!["hello"]);
    assert_eq!(data_lines("data:\t a  b\t"), vec!["a  b"]);
    assert_eq!(data_lines("data:\ndata:\u{3000}z"), vec!["z"]);
    assert!(data_lines("datax").is_empty());
}

fn read_all(reader: &mut EventReader) -> Vec<String> {
    let mut out = Vec::new();
    loop {
        match reader.next_payload() {
            ReadStep::Payload(p) => out.push(p),
            ReadStep::NeedMore => return out,
            ReadStep::Failed(e) => panic!("{e:?}"),
        }
    }
}

#[test]
fn payloads_do_not_depend_on_how_bytes_arrive() {
    let bytes = "data: one\ndata: two\n\n: ping\r\n\r\ndata: grüße\n\ndata: rest".as_bytes();
    let mut whole = EventReader::new(Pick::Every);
    whole.push_bytes(bytes);
    let expected = read_all(&mut whole);
    assert_eq!(expected, vec!["one", "two", "grüße"]);
    for cut in 0..bytes.len() {
        let mut split = EventReader::new(Pick::Every);
        split.push_bytes(&bytes[..cut]);
        let mut got = read_all(&mut split);
        split.push_bytes(&bytes[cut..]);
        got.extend(read_all(&mut split));
        assert_eq!(got, expected);
        assert_eq!(split.buffer, b"data: rest".to_vec());
    }
}

#[test]
fn readers_pick_the_lines_that_count() {
    let bytes = b"data: a\ndata: b\ndata: c\n\ndata: d\n\n";
    let mut first = EventReader::new(Pick::First);
    first.push_bytes(bytes);
    assert_eq!(read_all(&mut first), vec!["a", "d"]);
    let mut last = EventReader::new(Pick::Last);
    last.push_bytes(bytes);
    assert_eq!(read_all(&mut last), vec!["c", "d"]);
}

#[test]
fn reader_passes_a_fault_on() {
    let mut reader = EventReader::new(Pick::Every);
    reader.push_bytes(b"data: ok\n\n\xFF\n\ndata: later\n\n");
    assert!(matches!(reader.next_payload(), ReadStep::Payload(p) if p == "ok"));
    assert!(matches!(reader.next_payload(), ReadStep::Failed(_)));
    assert!(matches!(reader.next_payload(), ReadStep::Payload(p) if p == "later"));
    assert!(matches!(reader.next_payload(), ReadStep::NeedMore));
}
