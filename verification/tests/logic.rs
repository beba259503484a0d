use mneme_core::access_control::AccessScope;
use mneme_core::backend::{AccessGrant, VectorIndex};
use mneme_core::consolidation::{find_duplicates, pairwise_overlap};
use mneme_core::embedder::HashEmbedder;
use mneme_core::float_bits::FloatBits;
use mneme_core::operations::{
    consolidation_record, forget_all_event, forget_all_ids, grant_event, recall_event,
    remember_event, revoke_event, export_event, import_event, forget_event,
};
use mneme_core::ordering::{sort_largest_first, sort_newest_first};
use mneme_core::portability::{diff_ids, MnemeArchive};
use mneme_core::retrieval::{
    is_accessible, pick_within_budget, rank_candidates, recall_candidates, recency_order,
    RecallOptions, SortOrder,
};
use mneme_core::store::{MemoryRecord, MemoryType};
use mneme_core::text::{count_words, word_overlap};
use mneme_core::time::Timestamp;
use mneme_core::audit::{events_since, events_since_text, AuditAction, AuditEvent};
use mneme_core::rows::{
    event_from_row, event_to_row, grant_from_row, grant_to_row, record_from_row, record_to_row,
    StoredEvent, StoredGrant, StoredRecord,
};

fn fb(x: f32) -> FloatBits {
    FloatBits::from_bits(x.to_bits())
}

fn record(agent: &str, user: &str, t: MemoryType, content: &str, confidence: f32) -> MemoryRecord {
    MemoryRecord::new(
        agent,
        user,
        "s",
        t,
        content,
        "test",
        fb(confidence),
        None,
        vec![],
        AccessScope::default(),
        fb(1.0),
    )
}

fn at(mut r: MemoryRecord, secs: i64) -> MemoryRecord {
    r.timestamp = Timestamp::new(secs, 0);
    r.last_accessed = r.timestamp;
    r
}

fn is_v4_text(s: &str) -> bool {
    let c: Vec<char> = s.chars().collect();
    c.len() == 36
        && c.iter().enumerate().all(|(k, ch)| {
            if [8, 13, 18, 23].contains(&k) {
                *ch == '-'
            } else {
                ch.is_ascii_digit() || ('a'..='f').contains(ch)
            }
        })
        && c[14] == '4'
        && "89ab".contains(c[19])
}

#[test]
fn fresh_ids_are_v4_uuids() {
    let r = record("a", "u", MemoryType::Semantic, "x", 1.0);
    assert!(is_v4_text(&r.id));
    assert!(uuid::Uuid::parse_str(&r.id).unwrap().get_version_num() == 4);
    let e = mneme_core::AuditEvent::new(mneme_core::AuditAction::Read, "a", "", "", None, "d");
    assert!(is_v4_text(&e.id));
    let g = grant("a", "b", &[]);
    assert!(is_v4_text(&g.id));
    assert_ne!(r.id, e.id);
}

#[test]
fn new_record_fields() {
    let r = MemoryRecord::new(
        "a",
        "u",
        "s",
        MemoryType::Semantic,
        "User prefers dark mode",
        "src",
        fb(0.9),
        Some(60),
        vec!["preference".to_string()],
        AccessScope::default(),
        fb(1.0),
    );
    assert_eq!(r.id.len(), 36);
    assert_eq!(r.agent_id, "a");
    assert_eq!(r.user_id, "u");
    assert_eq!(r.session_id, "s");
    assert_eq!(r.memory_type, MemoryType::Semantic);
    assert_eq!(r.content, "User prefers dark mode");
    assert!(r.embedding.is_none());
    assert_eq!(r.source, "src");
    assert_eq!(r.confidence.bits, 0.9f32.to_bits());
    assert_eq!(r.ttl, Some(60));
    assert_eq!(r.tags, vec!["preference".to_string()]);
    assert_eq!(r.last_accessed, r.timestamp);
    assert_eq!(r.access_count, 0);
    let mut t = r.clone();
    t.touch(Timestamp::new(7, 8));
    assert_eq!(t.access_count, 1);
    assert_eq!(t.last_accessed, Timestamp::new(7, 8));
    assert_eq!(t.timestamp, r.timestamp);
}

#[test]
fn word_counts() {
    assert_eq!(count_words(""), 0);
    assert_eq!(count_words("   "), 0);
    assert_eq!(count_words("User prefers dark mode"), 4);
    assert_eq!(count_words("  a\tb\n\nc  "), 3);
    assert_eq!(count_words("a\u{3000}b\u{a0}c\u{2009}d"), 4);
    assert_eq!(count_words("naïve café"), 2);
    for s in ["x y  z", "\u{85}q\u{2028}r", "one", " lead", "trail "] {
        assert_eq!(count_words(s), s.split_whitespace().count());
    }
}

#[test]
fn jaccard_counts() {
    assert_eq!(word_overlap("a b c", "b c d"), (2, 4));
    assert_eq!(word_overlap("a a a", "a"), (1, 1));
    assert_eq!(word_overlap("", ""), (0, 0));
    assert_eq!(word_overlap("x y", ""), (0, 2));
    assert_eq!(word_overlap("User prefers dark mode", "user prefers dark mode"), (3, 5));
}

#[test]
fn duplicates_keep_the_more_confident() {
    let recs = vec![
        record("a", "u", MemoryType::Semantic, "likes tea", 0.5),
        record("a", "u", MemoryType::Semantic, "likes tea", 0.9),
        record("a", "u", MemoryType::Semantic, "likes coffee", 0.9),
    ];
    let mut sim = vec![vec![false; 3]; 3];
    sim[0][1] = true;
    sim[1][0] = true;
    let out = find_duplicates(&recs, &sim);
    assert_eq!(out, vec![recs[0].id.clone()]);

    // equal confidence and equal timestamps: the first of the pair is kept
    let recs2 = vec![
        at(record("a", "u", MemoryType::Semantic, "x", 0.7), 100),
        at(record("a", "u", MemoryType::Semantic, "x", 0.7), 100),
    ];
    let sim2 = vec![vec![false, true], vec![true, false]];
    assert_eq!(find_duplicates(&recs2, &sim2), vec![recs2[1].id.clone()]);

    // nothing similar, nothing removed
    let none = vec![vec![false; 3]; 3];
    assert!(find_duplicates(&recs, &none).is_empty());
}

#[test]
fn duplicates_equal_confidence_keep_the_latest() {
    // 2024-01-01T00:00:00Z and 2025-01-01T00:00:00Z
    let mut a = at(record("a", "u", MemoryType::Semantic, "x y", 0.8), 1704067200);
    let mut b = at(record("a", "u", MemoryType::Semantic, "x y", 0.8), 1735689600);
    a.id = "a".to_string();
    b.id = "b".to_string();
    let sim = vec![vec![false, true], vec![true, false]];
    assert_eq!(find_duplicates(&vec![a.clone(), b.clone()], &sim), vec!["a".to_string()]);
    // the newer record listed first is kept as well
    assert_eq!(find_duplicates(&vec![b.clone(), a.clone()], &sim), vec!["a".to_string()]);
    // a higher confidence still wins over a later timestamp
    let mut old_sure = a.clone();
    old_sure.confidence = fb(0.9);
    assert_eq!(find_duplicates(&vec![old_sure, b.clone()], &sim), vec!["b".to_string()]);
    // +0.0 and -0.0 are equally confident: the later timestamp decides
    let mut z1 = a.clone();
    z1.confidence = fb(0.0);
    let mut z2 = b.clone();
    z2.confidence = fb(-0.0);
    assert_eq!(find_duplicates(&vec![z1, z2], &sim), vec!["a".to_string()]);
}

#[test]
fn second_deduplication_removes_nothing() {
    let recs = vec![
        at(record("a", "u", MemoryType::Semantic, "p", 0.5), 1),
        at(record("a", "u", MemoryType::Semantic, "p", 0.9), 2),
        at(record("a", "u", MemoryType::Semantic, "q", 0.4), 3),
        at(record("a", "u", MemoryType::Semantic, "p", 0.9), 4),
    ];
    let same = |x: &MemoryRecord, y: &MemoryRecord| x.content == y.content;
    let table = |rs: &Vec<MemoryRecord>| -> Vec<Vec<bool>> {
        rs.iter().map(|x| rs.iter().map(|y| same(x, y)).collect()).collect()
    };
    let removed = find_duplicates(&recs, &table(&recs));
    // record 0 loses twice (to 1 and to 3); record 1 loses to the later record 3
    assert_eq!(removed, vec![recs[0].id.clone(), recs[0].id.clone(), recs[1].id.clone()]);
    let rest: Vec<MemoryRecord> = recs.iter().filter(|r| !removed.contains(&r.id)).cloned().collect();
    assert_eq!(rest.len(), 2);
    assert!(find_duplicates(&rest, &table(&rest)).is_empty());
}

#[test]
fn duplicates_keep_comparing_a_removed_record() {
    // record 0 loses to record 1 but is still compared with record 2
    let recs = vec![
        record("a", "u", MemoryType::Semantic, "p", 0.5),
        record("a", "u", MemoryType::Semantic, "p", 0.9),
        record("a", "u", MemoryType::Semantic, "p", 0.1),
    ];
    let sim = vec![vec![true; 3]; 3];
    let out = find_duplicates(&recs, &sim);
    assert_eq!(out, vec![recs[0].id.clone(), recs[2].id.clone()]);
    // a NaN confidence never wins
    let recs = vec![
        record("a", "u", MemoryType::Semantic, "p", f32::NAN),
        record("a", "u", MemoryType::Semantic, "p", 0.1),
    ];
    let sim = vec![vec![true; 2]; 2];
    assert_eq!(find_duplicates(&recs, &sim), vec![recs[0].id.clone()]);
}

fn grant(owner: &str, to: &str, tags: &[&str]) -> AccessGrant {
    AccessGrant::new(owner, to, tags.iter().map(|s| s.to_string()).collect(), "ReadOnly")
}

#[test]
fn access_rules() {
    let mut r = record("owner", "u", MemoryType::Semantic, "c", 1.0);
    r.tags = vec!["work".to_string(), "home".to_string()];
    assert!(is_accessible(&r, &vec![], "owner"));
    assert!(!is_accessible(&r, &vec![], "other"));
    assert!(is_accessible(&r, &vec![grant("owner", "other", &[])], "other"));
    assert!(is_accessible(&r, &vec![grant("owner", "other", &["home"])], "other"));
    assert!(!is_accessible(&r, &vec![grant("owner", "other", &["gym"])], "other"));
    assert!(!is_accessible(&r, &vec![grant("someone", "other", &[])], "other"));
    assert!(!is_accessible(&r, &vec![grant("owner", "third", &[])], "other"));
    let g = grant("owner", "other", &["x"]);
    assert_eq!(g.id.len(), 36);
    assert_eq!(g.permission, "ReadOnly");
    assert_eq!(g.owner_agent, "owner");
}

#[test]
fn recall_filters() {
    let now = Timestamp::new(10_000, 0);
    let mut recs = vec![
        at(record("me", "u", MemoryType::Semantic, "a", 1.0), 9_000),
        at(record("me", "u", MemoryType::Episodic, "b", 0.2), 9_000),
        at(record("other", "u", MemoryType::Semantic, "c", 1.0), 9_000),
        at(record("me", "u", MemoryType::Semantic, "d", 1.0), 9_000),
        at(record("me", "u", MemoryType::Procedural, "e", 1.0), 9_000),
    ];
    recs[3].ttl = Some(500); // expired at 9_500
    let mut opts = RecallOptions::default();
    opts.min_confidence = fb(0.5);
    opts.memory_types = vec![MemoryType::Semantic, MemoryType::Episodic];
    assert_eq!(recall_candidates(&recs, &vec![], "me", &opts, &now), vec![0]);
    opts.include_expired = true;
    assert_eq!(recall_candidates(&recs, &vec![], "me", &opts, &now), vec![0, 3]);
    let grants = vec![grant("other", "me", &[])];
    assert_eq!(recall_candidates(&recs, &grants, "me", &opts, &now), vec![0, 2, 3]);
    opts.min_confidence = fb(0.0);
    opts.memory_types = vec![MemoryType::Episodic, MemoryType::Semantic, MemoryType::Procedural];
    assert_eq!(recall_candidates(&recs, &grants, "me", &opts, &now), vec![0, 1, 2, 3, 4]);
    recs[3].ttl = Some(2_000);
    opts.include_expired = false;
    assert_eq!(recall_candidates(&recs, &vec![], "me", &opts, &now), vec![0, 1, 3, 4]);
}

#[test]
fn budget_and_limit() {
    let recs = vec![
        record("me", "u", MemoryType::Semantic, "one two three", 1.0),
        record("me", "u", MemoryType::Semantic, "four five", 1.0),
        record("me", "u", MemoryType::Semantic, "six", 1.0),
        record("me", "u", MemoryType::Semantic, "", 1.0),
    ];
    let order = vec![0, 1, 2, 3];
    assert_eq!(pick_within_budget(&recs, &order, 4, 10), vec![0, 2, 3]);
    assert_eq!(pick_within_budget(&recs, &order, 500, 2), vec![0, 1]);
    assert!(pick_within_budget(&recs, &order, 500, 0).is_empty());
    assert_eq!(pick_within_budget(&recs, &order, 0, 5), vec![3]);
    assert_eq!(pick_within_budget(&recs, &vec![2, 1, 0], 2, 5), vec![2]);
    // picks follow the ranking's order
    assert_eq!(pick_within_budget(&recs, &vec![2, 0, 1, 3], 4, 10), vec![2, 0, 3]);
    // when everything fits, the whole ranking comes back
    assert_eq!(pick_within_budget(&recs, &vec![3, 1, 2, 0], 6, 4), vec![3, 1, 2, 0]);
}

#[test]
fn newest_first_is_stable() {
    let stamps = vec![
        Timestamp::new(5, 0),
        Timestamp::new(9, 0),
        Timestamp::new(5, 0),
        Timestamp::new(9, 1),
        Timestamp::new(1, 0),
    ];
    assert_eq!(sort_newest_first(&stamps), vec![3, 1, 0, 2, 4]);
    assert!(sort_newest_first(&vec![]).is_empty());
    let recs = vec![
        at(record("me", "u", MemoryType::Semantic, "old", 1.0), 1),
        at(record("me", "u", MemoryType::Semantic, "new", 1.0), 3),
        at(record("me", "u", MemoryType::Semantic, "mid", 1.0), 2),
    ];
    assert_eq!(recency_order(&recs, &vec![0, 1, 2]), vec![1, 2, 0]);
    assert_eq!(recency_order(&recs, &vec![0, 2]), vec![2, 0]);
}

#[test]
fn consolidation_summarises_recent_episodes() {
    let recs = vec![
        at(record("me", "u1", MemoryType::Episodic, "clicked settings", 1.0), 10),
        at(record("me", "u1", MemoryType::Semantic, "likes tea", 1.0), 20),
        at(record("me", "u2", MemoryType::Episodic, "other user", 1.0), 30),
        at(record("me", "u1", MemoryType::Episodic, "opened help", 1.0), 40),
    ];
    let r = consolidation_record("me", &recs, "u1").unwrap();
    assert_eq!(r.content, "opened help; clicked settings");
    assert_eq!(r.memory_type, MemoryType::Semantic);
    assert_eq!(r.user_id, "u1");
    assert_eq!(r.agent_id, "me");
    assert_eq!(r.session_id, "");
    assert_eq!(r.source, "consolidation");
    assert_eq!(r.confidence.bits, 0.7f32.to_bits());
    assert_eq!(r.decay_factor.bits, 1.0f32.to_bits());
    assert_eq!(r.tags, vec!["summary".to_string()]);
    assert!(r.ttl.is_none());
    assert!(consolidation_record("me", &recs, "nobody").is_none());
}

#[test]
fn consolidation_takes_at_most_one_hundred() {
    let recs: Vec<MemoryRecord> = (0..150)
        .map(|i| at(record("me", "u", MemoryType::Episodic, &format!("e{i}"), 1.0), i))
        .collect();
    let r = consolidation_record("me", &recs, "u").unwrap();
    let parts: Vec<&str> = r.content.split("; ").collect();
    assert_eq!(parts.len(), 100);
    assert_eq!(parts[0], "e149");
    assert_eq!(parts[99], "e50");
}

#[test]
fn forget_all_lists_the_users_memories() {
    let recs = vec![
        record("me", "u1", MemoryType::Episodic, "a", 1.0),
        record("me", "u2", MemoryType::Episodic, "b", 1.0),
        record("me", "u1", MemoryType::Semantic, "c", 1.0),
    ];
    assert_eq!(forget_all_ids(&recs, "u1"), vec![recs[0].id.clone(), recs[2].id.clone()]);
    assert!(forget_all_ids(&recs, "u3").is_empty());
    let e = forget_all_event("me", "u1");
    assert_eq!(e.action, AuditAction::ForgetAll);
    assert_eq!(e.details, "forget_all user_id=u1");
    assert_eq!(e.user_id, "u1");
}

#[test]
fn audit_details() {
    assert_eq!(recall_event("me", "dark mode").details, "recall query: dark mode");
    assert_eq!(recall_event("me", "q").action, AuditAction::Read);
    let f = forget_event("me", "m1");
    assert_eq!((f.action, f.details.as_str(), f.memory_id.as_deref()), (AuditAction::Forget, "forget", Some("m1")));
    let g = grant("me", "other", &["a", "b\"c"]);
    assert_eq!(
        grant_event("me", &g).details,
        format!("grant_access to other with tags {:?}", g.tags)
    );
    assert_eq!(grant_event("me", &g).details, "grant_access to other with tags [\"a\", \"b\\\"c\"]");
    assert_eq!(revoke_event("me", "g1").details, "revoke_access grant_id=g1");
    assert_eq!(export_event("me", "x.mneme").details, "export to x.mneme");
    assert_eq!(export_event("me", "x.mneme").action, AuditAction::Export);
    assert_eq!(import_event("me", "x.mneme").details, "import from x.mneme");
    let r = record("me", "u", MemoryType::Semantic, "c", 1.0);
    let e = remember_event("me", &r);
    assert_eq!(e.action, AuditAction::Write);
    assert_eq!(e.memory_id.as_deref(), Some(r.id.as_str()));
    assert_eq!(e.details, "remember");
    assert_eq!(e.session_id, "s");
}

fn reference_counts(text: &str, dim: usize) -> Vec<u32> {
    let mut v = vec![0u32; dim];
    let b = text.as_bytes();
    for i in 0..b.len().saturating_sub(2) {
        let h = (b[i] as usize * 31 + b[i + 1] as usize * 7 + b[i + 2] as usize) % dim;
        v[h] += 1;
    }
    v
}

#[test]
fn trigram_counts() {
    let e = HashEmbedder::new(384);
    assert_eq!(e.dim, 384);
    for text in ["", "ab", "abc", "User prefers dark mode", "héllo wörld"] {
        assert_eq!(e.trigram_counts(text), reference_counts(text, 384));
    }
    let small = HashEmbedder::new(3);
    assert_eq!(small.trigram_counts("aaaa"), reference_counts("aaaa", 3));
    assert_eq!(HashEmbedder::new(0).trigram_counts("ab"), Vec::<u32>::new());
    let total: u32 = e.trigram_counts("dark mode").iter().sum();
    assert_eq!(total, 7);
}

#[test]
fn vector_index_upsert_and_remove() {
    let mut idx: VectorIndex<Vec<f32>> = VectorIndex::new();
    idx.upsert("a".to_string(), vec![1.0]);
    idx.upsert("b".to_string(), vec![2.0]);
    idx.upsert("a".to_string(), vec![3.0]);
    assert_eq!(idx.len(), 2);
    idx.remove("a");
    assert_eq!(idx.len(), 1);
    idx.remove("zzz");
    assert_eq!(idx.len(), 1);
    idx.remove("b");
    assert_eq!(idx.len(), 0);
}

#[test]
fn archive_and_diff() {
    let recs = vec![record("me", "u", MemoryType::Semantic, "c", 1.0)];
    let a = MnemeArchive::new(recs, vec![]);
    assert_eq!(a.version, "1.0");
    assert_eq!(a.records.len(), 1);
    let l = vec!["a".to_string(), "b".to_string(), "b".to_string(), "c".to_string()];
    let r = vec!["c".to_string(), "d".to_string()];
    assert_eq!(diff_ids(&l, &r), (2, 1));
    assert_eq!(diff_ids(&vec![], &r), (0, 2));
}

#[test]
fn audit_since() {
    let t = Timestamp::new(1_767_225_600, 0);
    let mut e1 = AuditEvent::new(AuditAction::Read, "me", "", "", None, "x");
    let mut e2 = e1.clone();
    let mut e3 = e1.clone();
    e1.timestamp = Timestamp::new(1_767_225_599, 999_999_999);
    e2.timestamp = t;
    e3.timestamp = Timestamp::new(1_767_225_700, 0);
    let log = vec![e1, e2, e3];
    assert_eq!(events_since(&log, &t), vec![1, 2]);
    assert_eq!(events_since_text(&log, "2026-01-01T00:00:00Z"), Some(vec![1, 2]));
    assert_eq!(events_since_text(&log, "2026-01-01T01:00:00+01:00"), Some(vec![1, 2]));
    assert_eq!(events_since_text(&log, "2025-12-31T23:59:59.999999999Z"), Some(vec![0, 1, 2]));
    assert_eq!(events_since_text(&log, "2026-01-01T00:00:00.000000001Z"), Some(vec![2]));
    assert_eq!(events_since_text(&log, "1970-01-01T00:00:00Z"), Some(vec![0, 1, 2]));
    assert_eq!(events_since_text(&log, "yesterday"), None);
}

#[test]
fn pairwise_word_overlap() {
    let recs = vec![
        record("me", "u", MemoryType::Semantic, "a b c", 1.0),
        record("me", "u", MemoryType::Semantic, "b c d", 1.0),
        record("me", "u", MemoryType::Semantic, "", 1.0),
    ];
    let m = pairwise_overlap(&recs);
    assert_eq!(m.len(), 3);
    assert_eq!(m[0], vec![(3, 3), (2, 4), (0, 3)]);
    assert_eq!(m[1][0], (2, 4));
    assert_eq!(m[2][2], (0, 0));
}

#[test]
fn largest_first_is_stable() {
    let v: Vec<FloatBits> = [0.5f32, 1.0, -0.0, 0.5, 0.0, f32::NEG_INFINITY, 3.0]
        .iter()
        .map(|x| fb(*x))
        .collect();
    assert_eq!(sort_largest_first(&v), vec![6, 1, 0, 3, 2, 4, 5]);
    assert_eq!(sort_largest_first(&vec![fb(f32::NAN)]), vec![0]);
}

#[test]
fn ranking_follows_the_sort_order() {
    let recs = vec![
        at(record("me", "u", MemoryType::Semantic, "a", 0.2), 30),
        at(record("me", "u", MemoryType::Semantic, "b", 0.9), 10),
        at(record("me", "u", MemoryType::Semantic, "c", 0.5), 20),
    ];
    let cands = vec![0, 1, 2];
    let scores = vec![fb(0.1), fb(0.3), fb(0.2)];
    assert_eq!(rank_candidates(&recs, &cands, &scores, SortOrder::Recency), vec![0, 2, 1]);
    assert_eq!(rank_candidates(&recs, &cands, &scores, SortOrder::Importance), vec![1, 2, 0]);
    assert_eq!(rank_candidates(&recs, &cands, &scores, SortOrder::Relevance), vec![1, 2, 0]);
    assert_eq!(rank_candidates(&recs, &cands, &scores, SortOrder::Hybrid), vec![1, 2, 0]);
    let two = vec![2, 0];
    let s2 = vec![fb(0.7), fb(0.7)];
    assert_eq!(rank_candidates(&recs, &two, &s2, SortOrder::Hybrid), vec![2, 0]);
    assert_eq!(rank_candidates(&recs, &two, &s2, SortOrder::Importance), vec![2, 0]);
}

fn row_record(stamp: &str, accessed: &str, kind: &str, tags: &str) -> Option<MemoryRecord> {
    mneme_core::rows::record_from_row(StoredRecord {
        id: "id-1".to_string(),
        agent_id: "agent".to_string(),
        user_id: "user".to_string(),
        session_id: "sess".to_string(),
        memory_type: kind.to_string(),
        content: "User prefers dark mode".to_string(),
        embedding: Some(vec![fb(0.5), fb(-1.0)]),
        timestamp: stamp.to_string(),
        source: "chat".to_string(),
        confidence: fb(0.9),
        ttl: Some(3600),
        tags: tags.to_string(),
        scope: AccessScope::default(),
        decay_factor: fb(0.5),
        last_accessed: accessed.to_string(),
        access_count: 7,
    })
}

#[test]
fn rows_decode_records() {
    let r = row_record("2024-01-01T00:00:00Z", "2024-01-02T03:04:05.25+02:00", "Semantic", r#"["a","b \"q\""]"#)
        .unwrap();
    assert_eq!(r.id, "id-1");
    assert_eq!(r.agent_id, "agent");
    assert_eq!(r.user_id, "user");
    assert_eq!(r.session_id, "sess");
    assert_eq!(r.memory_type, MemoryType::Semantic);
    assert_eq!(r.content, "User prefers dark mode");
    assert_eq!(r.embedding, Some(vec![fb(0.5), fb(-1.0)]));
    assert_eq!(r.timestamp, Timestamp::new(1704067200, 0));
    assert_eq!(r.source, "chat");
    assert_eq!(r.confidence, fb(0.9));
    assert_eq!(r.ttl, Some(3600));
    assert_eq!(r.tags, vec!["a".to_string(), "b \"q\"".to_string()]);
    assert_eq!(r.decay_factor, fb(0.5));
    // 03:04:05.25 at +02:00 is 01:04:05.25 UTC
    assert_eq!(r.last_accessed, Timestamp::new(1704157445, 250_000_000));
    assert_eq!(r.access_count, 7);
    // unknown type names read as episodic; text that is no JSON list reads as no tags
    let r = row_record("2024-01-01T00:00:00Z", "2024-01-01T00:00:00Z", "semantic", "not json").unwrap();
    assert_eq!(r.memory_type, MemoryType::Episodic);
    assert!(r.tags.is_empty());
    assert!(row_record("2024-01-01T00:00:00Z", "2024-01-01T00:00:00Z", "Episodic", "[1, 2]").unwrap().tags.is_empty());
    // a leap second is read as nanoseconds past the end of the second
    let r = row_record("2016-12-31T23:59:60Z", "2016-12-31T23:59:60Z", "Procedural", "[]").unwrap();
    assert_eq!(r.timestamp, Timestamp::new(1483228799, 1_000_000_000));
    assert_eq!(r.memory_type, MemoryType::Procedural);
    // either time stamp unreadable: no record
    assert!(row_record("yesterday", "2024-01-01T00:00:00Z", "Semantic", "[]").is_none());
    assert!(row_record("2024-01-01T00:00:00Z", "2024-01-01 00:00:00", "Semantic", "[]").is_none());
}

fn stored_event(id: &str, stamp: &str, action: &str, memory: Option<&str>) -> StoredEvent {
    StoredEvent {
        id: id.to_string(),
        timestamp: stamp.to_string(),
        action: action.to_string(),
        agent_id: "agent".to_string(),
        user_id: "user".to_string(),
        session_id: "".to_string(),
        memory_id: memory.map(|m| m.to_string()),
        details: "forget all for user".to_string(),
    }
}

fn stored_grant(tags: &str, created: &str) -> StoredGrant {
    StoredGrant {
        id: "g1".to_string(),
        owner_agent: "owner".to_string(),
        granted_agent: "reader".to_string(),
        tags: tags.to_string(),
        permission: "ReadOnly".to_string(),
        created_at: created.to_string(),
    }
}

#[test]
fn rows_decode_audit_events_and_grants() {
    let e = event_from_row(stored_event("e1", "2024-05-06T07:08:09Z", "ForgetAll", Some("m1"))).unwrap();
    assert_eq!(e.id, "e1");
    assert_eq!(e.timestamp, Timestamp::new(1714979289, 0));
    assert_eq!(e.action, AuditAction::ForgetAll);
    assert_eq!(e.agent_id, "agent");
    assert_eq!(e.user_id, "user");
    assert_eq!(e.session_id, "");
    assert_eq!(e.memory_id, Some("m1".to_string()));
    assert_eq!(e.details, "forget all for user");
    let e = event_from_row(stored_event("e2", "2024-05-06T07:08:09Z", "Delete", None)).unwrap();
    assert_eq!(e.action, AuditAction::Write);
    assert!(event_from_row(stored_event("e3", "", "Read", None)).is_none());

    let g = grant_from_row(stored_grant(r#"["work"]"#, "1970-01-01T00:00:01.5Z")).unwrap();
    assert_eq!(g.id, "g1");
    assert_eq!(g.owner_agent, "owner");
    assert_eq!(g.granted_agent, "reader");
    assert_eq!(g.tags, vec!["work".to_string()]);
    assert_eq!(g.permission, "ReadOnly");
    assert_eq!(g.created_at, Timestamp::new(1, 500_000_000));
    assert!(grant_from_row(stored_grant("[]", "1970-13-01T00:00:00Z")).is_none());
    assert_eq!(mneme_core::rows::tags_from_json(r#"["x", "y"]"#), vec!["x".to_string(), "y".to_string()]);
    assert!(mneme_core::rows::tags_from_json("").is_empty());
}

#[test]
fn stored_tags_read_back() {
    for tags in [
        vec![],
        vec!["work".to_string()],
        vec!["a\"b".to_string(), "back\\slash".to_string(), "new\nline".to_string(), "ünï".to_string()],
    ] {
        let text = mneme_core::rows::tags_to_json(&tags);
        assert_eq!(mneme_core::rows::tags_from_json(&text), tags);
        assert_eq!(serde_json::from_str::<Vec<String>>(&text).unwrap(), tags);
    }
    assert_eq!(mneme_core::rows::tags_to_json(&vec!["x".to_string()]), r#"["x"]"#);
}

#[test]
fn stored_rows_read_back() {
    let mut rec = record("agent", "user", MemoryType::Procedural, "always greet", 0.75);
    rec.tags = vec!["a".to_string(), "q\"uote".to_string()];
    rec.embedding = Some(vec![fb(0.25), fb(-0.5)]);
    rec.ttl = Some(-5);
    rec.access_count = 3;
    rec.timestamp = Timestamp::new(1483228799, 1_250_000_000); // inside a leap second
    rec.last_accessed = Timestamp::new(-62167219200, 123_456_789); // 0000-01-01
    let row = record_to_row(rec.clone());
    assert_eq!(row.memory_type, "Procedural");
    assert_eq!(row.timestamp, "2016-12-31T23:59:60.250+00:00");
    assert_eq!(row.last_accessed, "0000-01-01T00:00:00.123456789+00:00");
    assert_eq!(row.tags, r#"["a","q\"uote"]"#);
    let back = record_from_row(row).unwrap();
    assert_eq!(back.id, rec.id);
    assert_eq!(back.agent_id, rec.agent_id);
    assert_eq!(back.memory_type, rec.memory_type);
    assert_eq!(back.content, rec.content);
    assert_eq!(back.embedding, rec.embedding);
    assert_eq!(back.timestamp, rec.timestamp);
    assert_eq!(back.confidence, rec.confidence);
    assert_eq!(back.ttl, rec.ttl);
    assert_eq!(back.tags, rec.tags);
    assert_eq!(back.last_accessed, rec.last_accessed);
    assert_eq!(back.access_count, rec.access_count);
    // a five-digit year is written with a sign, which the reader refuses
    let mut far = record("agent", "user", MemoryType::Semantic, "x", 1.0);
    far.timestamp = Timestamp::new(253402300800, 0);
    let row = record_to_row(far);
    assert_eq!(row.timestamp, "+10000-01-01T00:00:00+00:00");
    assert!(record_from_row(row).is_none());

    let e = AuditEvent::new(AuditAction::Export, "agent", "u", "s", Some("m"), "export");
    let row = event_to_row(e.clone());
    assert_eq!(row.action, "Export");
    let back = event_from_row(row).unwrap();
    assert_eq!(back.timestamp, e.timestamp);
    assert_eq!(back.action, e.action);
    assert_eq!(back.memory_id, e.memory_id);

    let g = grant("owner", "reader", &["work", "home"]);
    let row = grant_to_row(g.clone());
    assert_eq!(row.tags, r#"["work","home"]"#);
    let back = grant_from_row(row).unwrap();
    assert_eq!(back.tags, g.tags);
    assert_eq!(back.created_at, g.created_at);
}
