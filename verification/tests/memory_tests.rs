//! The memory stream: the ledger round trip, reload resumption, retrieval
//! ordering, the reflection trigger, and the scoring pieces.

use anemone::ledger;
use anemone::memory::{Memory, MemoryStream};
use anemone::score;

fn sample_memory() -> Memory {
    Memory {
        id: 7,
        timestamp: String::from("2024-05-04T12:30:00+00:00"),
        kind: String::from("thought"),
        content: String::from("a \"quoted\" line\nwith a break and a \\ slash"),
        importance: 6,
        depth: 0,
        references: vec![1, 2],
        embedding: vec![1000000, -250000, 0],
    }
}

fn fresh_stream() -> MemoryStream {
    MemoryStream::new(score::DEFAULT_RETENTION, 50, 3)
}

#[test]
fn ledger_line_round_trips_field_for_field() {
    let m = sample_memory();
    let line = ledger::encode_memory(&m);
    let back = ledger::parse_memory(&line).expect("the encoded line must parse");
    assert_eq!(back.id, m.id);
    assert_eq!(back.timestamp, m.timestamp);
    assert_eq!(back.kind, m.kind);
    assert_eq!(back.content, m.content);
    assert_eq!(back.importance, m.importance);
    assert_eq!(back.depth, m.depth);
    assert_eq!(back.references, m.references);
    assert_eq!(back.embedding, m.embedding);
}

#[test]
fn corrupt_ledger_lines_are_skipped() {
    let mut data = ledger::encode_memory(&sample_memory());
    data.push(b'\n');
    data.extend_from_slice(b"this is not a record\n");
    data.extend_from_slice(b"\n");
    let mut s = fresh_stream();
    s.load_ledger(&data);
    assert_eq!(s.memories.len(), 1);
    assert_eq!(s.memories[0].id, 7);
}

#[test]
fn reload_resumes_above_all_prior_ids() {
    let mut s = fresh_stream();
    let mut data: Vec<u8> = Vec::new();
    let mut prior_ids: Vec<u32> = Vec::new();
    for i in 0..4 {
        let m = s.add(
            "noted something",
            "thought",
            0,
            Vec::new(),
            Some("6"),
            None,
            format!("2024-05-04T12:0{}:00+00:00", i),
        );
        prior_ids.push(m.id);
        data.extend_from_slice(&ledger::encode_memory(&m));
        data.push(b'\n');
    }
    let mut reopened = fresh_stream();
    reopened.load_ledger(&data);
    assert_eq!(reopened.memories.len(), 4);
    let fresh = reopened.add(
        "one more",
        "thought",
        0,
        Vec::new(),
        Some("6"),
        None,
        String::from("2024-05-04T13:00:00+00:00"),
    );
    for id in &prior_ids {
        assert!(fresh.id > *id);
    }
}

#[test]
fn retrieval_prefers_the_more_recent_of_equals() {
    let mut s = fresh_stream();
    let emb = vec![500000i64, 500000, 0];
    s.add(
        "older note",
        "thought",
        0,
        Vec::new(),
        Some("6"),
        Some(emb.clone()),
        String::from("2024-05-04T10:00:00+00:00"),
    );
    s.add(
        "newer note",
        "thought",
        0,
        Vec::new(),
        Some("6"),
        Some(emb.clone()),
        String::from("2024-05-04T11:30:00+00:00"),
    );
    let now = 1714824600i64;
    let query = vec![400000i64, 600000, 0];
    let top = s.retrieve(Some(&query), now, Some(2));
    assert_eq!(top.len(), 2);
    assert_eq!(top[0].content, "newer note");
    assert_eq!(top[1].content, "older note");
    let sync = s.retrieve_sync("anything", now, Some(1));
    assert_eq!(sync.len(), 1);
    assert_eq!(sync[0].content, "newer note");
}

#[test]
fn failed_query_embedding_falls_back_to_recent() {
    let mut s = fresh_stream();
    for i in 0..5 {
        s.add(
            &format!("note {}", i),
            "thought",
            0,
            Vec::new(),
            Some("5"),
            None,
            format!("2024-05-04T0{}:00:00+00:00", i),
        );
    }
    let r = s.retrieve(None, 1714822200, Some(2));
    assert_eq!(r.len(), 2);
    assert_eq!(r[0].content, "note 3");
    assert_eq!(r[1].content, "note 4");
}

#[test]
fn empty_stream_retrieves_empty_without_embedding() {
    let s = fresh_stream();
    assert!(!s.needs_query_embedding());
    let r = s.retrieve(None, 1714822200, Some(3));
    assert!(r.is_empty());
    let q = vec![1000000i64];
    let r = s.retrieve(Some(&q), 1714822200, Some(3));
    assert!(r.is_empty());
}

#[test]
fn reflection_triggers_at_the_threshold_and_resets() {
    let mut s = MemoryStream::new(score::DEFAULT_RETENTION, 50, 3);
    for i in 0..4 {
        s.add(
            "big moment",
            "thought",
            0,
            Vec::new(),
            Some("10"),
            None,
            format!("2024-05-04T10:0{}:00+00:00", i),
        );
        assert!(!s.should_reflect());
    }
    s.add(
        "the last straw",
        "thought",
        0,
        Vec::new(),
        Some("10"),
        None,
        String::from("2024-05-04T10:04:00+00:00"),
    );
    assert!(s.should_reflect());
    s.reset_importance_sum();
    assert!(!s.should_reflect());
}

#[test]
fn importance_parsing_clamps_and_defaults() {
    let mut s = fresh_stream();
    let cases: Vec<(Option<&str>, i32)> = vec![
        (Some("7"), 7),
        (Some("I'd say 8."), 8),
        (Some("0"), 1),
        (Some("55"), 10),
        (Some("no digits here"), 5),
        (Some(""), 5),
        (Some("99999999999999999999"), 5),
        (None, 5),
    ];
    for (k, (reply, expected)) in cases.into_iter().enumerate() {
        let m = s.add(
            "x",
            "thought",
            0,
            Vec::new(),
            reply,
            None,
            format!("2024-05-04T10:00:0{}+00:00", k),
        );
        assert_eq!(m.importance, expected);
    }
}

#[test]
fn get_recent_filters_by_kind() {
    let mut s = fresh_stream();
    s.add("a", "thought", 0, Vec::new(), Some("5"), None, String::from("t1"));
    s.add("b", "reflection", 1, Vec::new(), Some("5"), None, String::from("t2"));
    s.add("c", "thought", 0, Vec::new(), Some("5"), None, String::from("t3"));
    let all = s.get_recent(10, None);
    assert_eq!(all.len(), 3);
    let thoughts = s.get_recent(10, Some("thought"));
    assert_eq!(thoughts.len(), 2);
    for m in &thoughts {
        assert_eq!(m.kind, "thought");
    }
    let one = s.get_recent(1, Some("thought"));
    assert_eq!(one.len(), 1);
    assert_eq!(one[0].content, "c");
}

#[test]
fn test_cosine_sim_identical() {
    let a = vec![1000000i64, 2000000, 3000000];
    let b = vec![1000000i64, 2000000, 3000000];
    let r = score::cosine_fixed(&a, &b);
    assert!((score::SCORE_SCALE - r).abs() < 1000);
}

#[test]
fn test_cosine_sim_orthogonal() {
    let a = vec![1000000i64, 0];
    let b = vec![0i64, 1000000];
    assert_eq!(score::cosine_fixed(&a, &b), 0);
}

#[test]
fn test_cosine_sim_empty() {
    let a: Vec<i64> = Vec::new();
    let b: Vec<i64> = Vec::new();
    assert_eq!(score::cosine_fixed(&a, &b), 0);
}

#[test]
fn recency_decays_from_one_full_point() {
    assert_eq!(score::recency_score(score::DEFAULT_RETENTION, 0), score::SCORE_SCALE as u64);
    let hour = score::recency_score(score::DEFAULT_RETENTION, 3600);
    let day = score::recency_score(score::DEFAULT_RETENTION, 86400);
    assert!(hour < score::SCORE_SCALE as u64);
    assert!(day < hour);
    // a retention of one never decays
    assert_eq!(
        score::recency_score(score::SCORE_SCALE as u64, 86400),
        score::SCORE_SCALE as u64,
    );
}

#[test]
fn hex_round_trips() {
    let bytes: Vec<u8> = vec![0, 1, 171, 255, 16];
    let s = anemone::hex::encode(&bytes);
    assert_eq!(s, "0001abff10");
    assert_eq!(anemone::hex::decode(&s).unwrap(), bytes);
    assert_eq!(anemone::hex::decode("ABFF").unwrap(), vec![171u8, 255]);
    assert!(anemone::hex::decode("abc").is_err());
    assert!(anemone::hex::decode("zz").is_err());
}
