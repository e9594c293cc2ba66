use sweet::message::{Message, Role};
use sweet::session::{
    checked_estimate, last_context_size, InMemorySession, MemoryItem, Session, SessionError,
    SessionId, SharedSession,
};
use sweet::sqlite_session::{
    is_message_kind, resolve_id, FullRow, LiveRow, SessionRow, SqliteSession,
};

#[test]
fn in_memory_session_push_and_messages() {
    let mut session = InMemorySession::new();
    session
        .push(MemoryItem::Message(Message::user("hello")))
        .unwrap();
    session
        .push(MemoryItem::Message(Message::assistant("hi")))
        .unwrap();

    assert_eq!(session.messages().len(), 2);
    assert_eq!(session.messages()[0].role, Role::User);
    assert_eq!(session.messages()[1].role, Role::Assistant);
}

#[test]
fn in_memory_session_clear() {
    let mut session = InMemorySession::new();
    session
        .push(MemoryItem::Message(Message::user("hello")))
        .unwrap();
    session.clear().unwrap();
    assert!(session.messages().is_empty());
    assert!(session.items().is_empty());
}

#[test]
fn in_memory_session_token_count() {
    let mut session = InMemorySession::new();
    session
        .push(MemoryItem::Message(Message::user(&"abcd".repeat(4))))
        .unwrap();
    // 16 chars / 4 = 4 tokens
    assert_eq!(session.token_count(), 4);
}

#[test]
fn estimates_count_each_message_by_itself() {
    let items = vec![
        MemoryItem::Message(Message::user("abcdefg")),
        MemoryItem::Message(Message::user("éééé")),
        MemoryItem::Message(Message::user("abc")),
    ];
    assert_eq!(checked_estimate(&items), Some(2));
    assert_eq!(checked_estimate(&[]), Some(0));
}

#[test]
fn in_memory_session_replace_range() {
    let mut session = InMemorySession::new();
    session
        .push(MemoryItem::Message(Message::user("a")))
        .unwrap();
    session
        .push(MemoryItem::Message(Message::user("b")))
        .unwrap();
    session
        .push(MemoryItem::Message(Message::user("c")))
        .unwrap();

    let mut compacted = Message::user("summary");
    compacted.compacted = true;
    session
        .replace_range(0..2, vec![MemoryItem::Message(compacted)])
        .unwrap();

    assert_eq!(session.items().len(), 2);
    assert_eq!(session.messages().len(), 2);
    assert_eq!(session.messages()[0].role, Role::User);
    assert_eq!(session.messages()[0].text_content(), "summary");
    assert!(session.messages()[0].compacted);
    assert_eq!(session.messages()[1].role, Role::User);
    assert_eq!(session.messages()[1].text_content(), "c");
}

#[test]
fn session_id_is_v7() {
    let id = SessionId::new();
    let uuid = id.to_string();
    let parts: Vec<&str> = uuid.split('-').collect();
    assert_eq!(parts.len(), 5);
    assert!(parts[2].starts_with('7'));
}

#[test]
fn shared_session_mirrors_pushes_into_handle() {
    let mut shared = SharedSession::new(InMemorySession::new());
    assert!(shared.handle().snapshot_messages().is_empty());

    shared
        .push(MemoryItem::Message(Message::user("first")))
        .unwrap();
    shared
        .push(MemoryItem::Message(Message::assistant("ok")))
        .unwrap();

    let snap = shared.handle().snapshot_messages();
    assert_eq!(snap.len(), 2);
    assert_eq!(snap[0].text_content(), "first");
    assert_eq!(snap[1].text_content(), "ok");
}

#[test]
fn shared_session_clear_propagates() {
    let mut shared = SharedSession::new(InMemorySession::new());
    shared
        .push(MemoryItem::Message(Message::user("hi")))
        .unwrap();
    assert_eq!(shared.handle().snapshot_messages().len(), 1);

    shared.clear().unwrap();
    assert!(shared.handle().snapshot_messages().is_empty());
}

#[test]
fn shared_session_replace_range_propagates() {
    let mut shared = SharedSession::new(InMemorySession::new());
    shared
        .push(MemoryItem::Message(Message::user("a")))
        .unwrap();
    shared
        .push(MemoryItem::Message(Message::user("b")))
        .unwrap();
    shared
        .push(MemoryItem::Message(Message::user("c")))
        .unwrap();

    shared
        .replace_range(0..2, vec![MemoryItem::Message(Message::user("summary"))])
        .unwrap();

    let snap = shared.handle().snapshot_messages();
    assert_eq!(snap.len(), 2);
    assert_eq!(snap[0].text_content(), "summary");
    assert_eq!(snap[1].text_content(), "c");
}

#[test]
fn shared_session_handle_initialises_from_existing_state() {
    let mut existing = InMemorySession::new();
    existing
        .push(MemoryItem::Message(Message::user("prior")))
        .unwrap();
    let shared = SharedSession::new(existing);
    let snap = shared.handle().snapshot_messages();
    assert_eq!(snap.len(), 1);
    assert_eq!(snap[0].text_content(), "prior");
}

fn reported(text: &str, context: Option<usize>) -> MemoryItem {
    let mut m = Message::assistant(text);
    m.context_tokens = context;
    MemoryItem::Message(m)
}

#[test]
fn context_size_is_the_newest_reported() {
    let items = vec![
        reported("a", Some(10)),
        reported("b", Some(20)),
        reported("c", None),
    ];
    assert_eq!(last_context_size(&items), Some(20));
    assert_eq!(last_context_size(&[]), None);

    let mut session = InMemorySession::new();
    session.push(reported("abcdefgh", None)).unwrap();
    assert_eq!(session.context_size(), 2);
    assert_eq!(session.total_tokens(), 2);
    session.push(reported("x", Some(77))).unwrap();
    let shared = SharedSession::new(session);
    assert_eq!(shared.context_size(), 77);
    assert_eq!(shared.token_count(), 2);
    assert_eq!(shared.items().len(), 2);
    assert_eq!(shared.id(), &shared.inner.id);
}

#[test]
fn token_estimate_counts_characters_not_bytes() {
    let mut session = InMemorySession::new();
    session
        .push(MemoryItem::Message(Message::user("äöüß")))
        .unwrap();
    session
        .push(MemoryItem::Message(Message::user("abc")))
        .unwrap();
    assert_eq!(session.token_count(), 1);
}

#[test]
fn session_ids_read_back() {
    let id = SessionId::new();
    assert_eq!(SessionId::from_str(&id.to_string()).unwrap(), id);
    assert_eq!(
        SessionId::from_str("00112233-4455-7677-8899-aabbccddeeff")
            .unwrap()
            .bytes,
        [
            0x00, 0x11, 0x22, 0x33, 0x44, 0x55, 0x76, 0x77, 0x88, 0x99, 0xaa, 0xbb, 0xcc, 0xdd,
            0xee, 0xff
        ]
    );
    assert!(SessionId::from_str("nonsense").is_err());
    assert_ne!(SessionId::default(), SessionId::new());
}

#[test]
fn storage_errors_say_what_failed() {
    let e = SessionError::storage("disk full");
    assert_eq!(e.to_text(), "session storage error: disk full");
}

#[test]
fn an_existing_session_row_wins() {
    let id = SessionId::new();
    assert!(matches!(resolve_id(None, id), Ok(SessionRow::Insert(i)) if i == id));
    let other = SessionId::new();
    assert!(
        matches!(resolve_id(Some(other.to_string()), id), Ok(SessionRow::Found(i)) if i == other)
    );
    assert!(resolve_id(Some("broken".to_string()), id).is_err());
}

fn row(kind: &str, text: &str, position: f64) -> LiveRow {
    LiveRow {
        kind: kind.to_string(),
        data: Ok(Message::user(text)),
        position: position.to_bits(),
    }
}

fn texts(s: &SqliteSession) -> Vec<String> {
    s.messages().iter().map(|m| m.text_content()).collect()
}

#[test]
fn loading_keeps_messages_only() {
    let rows = vec![
        row("message", "a", 1.0),
        row("note", "skipped", 1.5),
        row("message", "b", 2.0),
    ];
    let s = SqliteSession::load(SessionId::new(), rows, vec![], 3.0f64.to_bits()).unwrap();
    assert_eq!(texts(&s), vec!["a", "b"]);
    assert_eq!(s.positions, vec![1.0f64.to_bits(), 2.0f64.to_bits()]);
    assert_eq!(s.others, vec![1.5f64.to_bits()]);
    assert_eq!(s.max_position, 3.0f64.to_bits());
    assert_eq!(s.items().len(), 2);
    assert!(is_message_kind("message"));
    assert!(!is_message_kind("Message"));

    let mut rows = vec![row("message", "a", 1.0), row("note", "n", 2.0)];
    rows[1].data = Err("not decoded".to_string());
    assert!(SqliteSession::load(SessionId::new(), rows, vec![], 0).is_ok());
    let mut rows = vec![row("message", "a", 1.0), row("message", "n", 2.0)];
    rows[1].data = Err("bad row".to_string());
    match SqliteSession::load(SessionId::new(), rows, vec![], 0) {
        Err(SessionError::Storage(m)) => assert_eq!(m, "bad row"),
        _ => panic!(),
    }
}

#[test]
fn compaction_archives_and_inserts_behind_the_span() {
    let rows = vec![
        row("message", "a", 1.0),
        row("message", "b", 2.0),
        row("message", "c", 3.0),
    ];
    let mut s = SqliteSession::load(SessionId::new(), rows, vec![], 3.0f64.to_bits()).unwrap();
    let plan = s.plan_replace(0..2);
    assert_eq!(plan.archive, vec![1.0f64.to_bits(), 2.0f64.to_bits()]);
    assert_eq!(f64::from_bits(plan.lower), 2.0);
    assert_eq!(plan.upper.map(f64::from_bits), Some(3.0));
    s.record_replace(
        0..2,
        vec![MemoryItem::Message(Message::user("summary"))],
        vec![2.5f64.to_bits()],
    );
    assert_eq!(texts(&s), vec!["summary", "c"]);
    assert_eq!(s.max_position, 3.0f64.to_bits());

    let tail = s.plan_replace(1..2);
    assert_eq!(f64::from_bits(tail.lower), 3.0);
    assert_eq!(tail.upper, None);
    s.record_replace(
        1..2,
        vec![MemoryItem::Message(Message::user("t"))],
        vec![4.0f64.to_bits()],
    );
    assert_eq!(s.max_position, 4.0f64.to_bits());
    assert_eq!(texts(&s), vec!["summary", "t"]);

    let front = s.plan_replace(0..0);
    assert!(front.archive.is_empty());
    assert_eq!(f64::from_bits(front.lower), 0.0);
    assert_eq!(front.upper.map(f64::from_bits), Some(1.0));
    let middle = s.plan_replace(1..1);
    assert_eq!(f64::from_bits(middle.lower), 2.5);
    assert_eq!(middle.upper.map(f64::from_bits), Some(3.0));
}

#[test]
fn replacements_follow_their_span_among_archived_rows() {
    let mut s = SqliteSession::load(SessionId::new(), vec![], vec![], 0).unwrap();
    // The table: text and position of every row, live and archived.
    let mut table: Vec<(String, f64)> = Vec::new();
    for (i, text) in ["a", "b", "c", "d"].iter().enumerate() {
        let position = (i + 1) as f64;
        s.record_push(MemoryItem::Message(Message::user(text)), position.to_bits());
        table.push((text.to_string(), position));
    }
    for (range, text) in [(1..3, "S"), (0..1, "T")] {
        let plan = s.plan_replace(range.clone());
        let lower = f64::from_bits(plan.lower);
        let position = match plan.upper.map(f64::from_bits) {
            Some(upper) => lower + (upper - lower) / 2.0,
            None => lower + 1.0,
        };
        table.push((text.to_string(), position));
        s.record_replace(
            range,
            vec![MemoryItem::Message(Message::user(text))],
            vec![position.to_bits()],
        );
    }
    assert_eq!(texts(&s), vec!["T", "S", "d"]);
    table.sort_by(|x, y| x.1.total_cmp(&y.1));
    let order: Vec<&str> = table.iter().map(|row| row.0.as_str()).collect();
    assert_eq!(order, vec!["a", "T", "b", "c", "S", "d"]);
}

#[test]
fn archived_rows_behind_the_last_live_one_bound_replacements() {
    let archived = vec![5.0f64.to_bits(), 3.0f64.to_bits()];
    let rows = vec![row("message", "a", 1.0), row("message", "b", 2.0)];
    let s = SqliteSession::load(SessionId::new(), rows, archived, 5.0f64.to_bits()).unwrap();
    let plan = s.plan_replace(1..2);
    assert_eq!(f64::from_bits(plan.lower), 2.0);
    assert_eq!(plan.upper.map(f64::from_bits), Some(3.0));
}

#[test]
fn positions_order_as_their_bits() {
    let list = [0.0f64, 0.5, 1.0, 1.25, 2.0, 1e9, 1e300];
    for w in list.windows(2) {
        assert!(w[0].to_bits() < w[1].to_bits());
    }
}

#[test]
fn sqlite_session_push_and_clear() {
    let mut s = SqliteSession::load(SessionId::new(), vec![], vec![], 0).unwrap();
    s.record_push(MemoryItem::Message(Message::user("abcdefgh")), 1.0f64.to_bits());
    assert_eq!(s.max_position, 1.0f64.to_bits());
    assert_eq!(s.token_count(), 2);
    assert_eq!(s.context_size(), 2);
    let id = *s.id();
    s.record_clear();
    assert!(s.items().is_empty());
    assert_eq!(s.max_position, 0);
    assert_eq!(*s.id(), id);
}

#[test]
fn full_transcript_shows_archived_rows() {
    let full = |kind: &str, text: &str, archived: bool| FullRow {
        kind: kind.to_string(),
        data: Ok(Message::user(text)),
        archived,
    };
    let rows = || {
        vec![
            full("message", "a", true),
            full("other", "x", false),
            full("message", "s", false),
        ]
    };
    let items = SqliteSession::full_items(rows()).unwrap();
    assert_eq!(items.len(), 2);
    assert!(items[0].1);
    assert!(!items[1].1);
    let messages = SqliteSession::full_messages(rows()).unwrap();
    assert_eq!(messages[0].text_content(), "a");
    assert_eq!(messages[1].text_content(), "s");
    let mut broken = rows();
    broken[2].data = Err("bad".to_string());
    assert_eq!(
        SqliteSession::full_messages(broken),
        Err(SessionError::Storage("bad".to_string()))
    );
}
