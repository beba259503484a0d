use mneme_core::access_control::{AccessScope, Permission};
use mneme_core::audit::{AuditAction, AuditEvent};
use mneme_core::float_bits::FloatBits;
use mneme_core::retrieval::{RecallOptions, SortOrder};
use mneme_core::store::MemoryType;
use mneme_core::time::{still_live, Timestamp, MAX_SECS, MAX_SPAN_SECS, MIN_SECS};

#[test]
fn memory_type_names_round_trip() {
    for t in [MemoryType::Episodic, MemoryType::Semantic, MemoryType::Procedural] {
        assert_eq!(MemoryType::from_name(t.to_string().as_str()), t);
    }
    assert_eq!(MemoryType::Semantic.to_string(), "Semantic");
    assert_eq!(MemoryType::Procedural.to_string(), "Procedural");
    assert_eq!(MemoryType::Episodic.to_string(), "Episodic");
}

#[test]
fn unknown_memory_type_reads_as_episodic() {
    assert_eq!(MemoryType::from_name("semantic"), MemoryType::Episodic);
    assert_eq!(MemoryType::from_name(""), MemoryType::Episodic);
    assert_eq!(MemoryType::from(String::from("Procedural")), MemoryType::Procedural);
    assert_eq!(MemoryType::from(String::from("whatever")), MemoryType::Episodic);
}

#[test]
fn request_type_names() {
    assert_eq!(MemoryType::from_request("semantic"), MemoryType::Semantic);
    assert_eq!(MemoryType::from_request("episodic"), MemoryType::Episodic);
    assert_eq!(MemoryType::from_request("procedural"), MemoryType::Episodic);
    assert_eq!(MemoryType::from_lower_name("procedural"), Some(MemoryType::Procedural));
    assert_eq!(MemoryType::from_lower_name("semantic"), Some(MemoryType::Semantic));
    assert_eq!(MemoryType::from_lower_name("episodic"), Some(MemoryType::Episodic));
    assert_eq!(MemoryType::from_lower_name("Semantic"), None);
}

#[test]
fn audit_action_names_round_trip() {
    for a in [
        AuditAction::Write,
        AuditAction::Read,
        AuditAction::Forget,
        AuditAction::ForgetAll,
        AuditAction::Export,
        AuditAction::Import,
    ] {
        assert_eq!(AuditAction::from_name(a.to_string().as_str()), a);
    }
    assert_eq!(AuditAction::ForgetAll.to_string(), "ForgetAll");
    assert_eq!(AuditAction::from_name("nonsense"), AuditAction::Write);
    assert_eq!(AuditAction::from(String::from("Export")), AuditAction::Export);
}

#[test]
fn audit_event_carries_its_fields() {
    let e = AuditEvent::new(AuditAction::Forget, "agent", "user", "sess", Some("m1"), "forget");
    assert_eq!(e.id.len(), 36);
    assert_eq!(e.id.chars().filter(|c| *c == '-').count(), 4);
    assert!(e.timestamp.nanos < 1_000_000_000);
    assert!(e.timestamp.secs > 1_600_000_000);
    assert_eq!(e.action, AuditAction::Forget);
    assert_eq!(e.agent_id, "agent");
    assert_eq!(e.user_id, "user");
    assert_eq!(e.session_id, "sess");
    assert_eq!(e.memory_id.as_deref(), Some("m1"));
    assert_eq!(e.details, "forget");
    let e2 = AuditEvent::new(AuditAction::Read, "agent", "", "", None, "x");
    assert!(e2.memory_id.is_none());
    assert_ne!(e.id, e2.id);
}

#[test]
fn defaults() {
    assert_eq!(Permission::default(), Permission::ReadWrite);
    let s = AccessScope::default();
    assert_eq!(s.agent_id, "");
    assert_eq!(s.user_id, "");
    assert_eq!(s.session_id, "");
    assert_eq!(s.permission, Permission::ReadWrite);
    let o = RecallOptions::default();
    assert_eq!(o.limit, 5);
    assert_eq!(o.token_budget, 500);
    assert_eq!(o.min_confidence.bits, 0.0f32.to_bits());
    assert_eq!(
        o.memory_types,
        vec![MemoryType::Episodic, MemoryType::Semantic, MemoryType::Procedural]
    );
    assert!(!o.include_expired);
    assert_eq!(o.sort_by, SortOrder::Hybrid);
    assert_eq!(o.recency_weight.bits, 0.2f32.to_bits());
    assert_eq!(o.similarity_weight.bits, 0.6f32.to_bits());
    assert_eq!(o.importance_weight.bits, 0.2f32.to_bits());
}

fn fb(x: f32) -> FloatBits {
    FloatBits::from_bits(x.to_bits())
}

#[test]
fn float_comparison_matches_hardware() {
    let values = [
        0.0f32,
        -0.0,
        1.0,
        -1.0,
        0.5,
        0.7,
        f32::INFINITY,
        f32::NEG_INFINITY,
        f32::NAN,
        f32::MIN_POSITIVE,
        -f32::MIN_POSITIVE,
        1e-45,
        f32::MAX,
        f32::MIN,
    ];
    for a in values {
        for b in values {
            assert_eq!(fb(a).ge(&fb(b)), a >= b, "{a} >= {b}");
        }
        assert_eq!(fb(a).is_nan(), a.is_nan());
    }
}

#[test]
fn ttl_expiry() {
    let stamped = Timestamp::new(1_000, 500);
    assert!(still_live(&stamped, 10, &Timestamp::new(1_009, 999_999_999)));
    assert!(still_live(&stamped, 10, &Timestamp::new(1_010, 499)));
    assert!(!still_live(&stamped, 10, &Timestamp::new(1_010, 500)));
    assert!(!still_live(&stamped, 0, &Timestamp::new(1_000, 500)));
    assert!(still_live(&stamped, -1, &Timestamp::new(998, 0)));
    assert!(Timestamp::new(5, 1).after(&Timestamp::new(5, 0)));
    assert!(!Timestamp::new(5, 0).after(&Timestamp::new(5, 0)));
}

#[test]
fn calendar_limits_match_chrono() {
    assert_eq!(chrono::DateTime::<chrono::Utc>::MAX_UTC.timestamp(), MAX_SECS);
    assert_eq!(chrono::DateTime::<chrono::Utc>::MIN_UTC.timestamp(), MIN_SECS);
    assert!(chrono::TimeDelta::try_seconds(MAX_SPAN_SECS).is_some());
    assert!(chrono::TimeDelta::try_seconds(MAX_SPAN_SECS + 1).is_none());
    assert!(chrono::TimeDelta::try_seconds(-MAX_SPAN_SECS).is_some());
    assert!(chrono::TimeDelta::try_seconds(-MAX_SPAN_SECS - 1).is_none());
    let last = chrono::DateTime::from_timestamp(MAX_SECS, 999_999_999).unwrap();
    assert!(last.checked_add_signed(chrono::TimeDelta::seconds(1)).is_none());
    let first = chrono::DateTime::from_timestamp(MIN_SECS, 0).unwrap();
    assert!(first.checked_add_signed(chrono::TimeDelta::seconds(-1)).is_none());
}

#[test]
fn leap_second_expiry_matches_chrono() {
    let leap = chrono::DateTime::parse_from_rfc3339("2016-12-31T23:59:60.5Z").unwrap().with_timezone(&chrono::Utc);
    let stamped = Timestamp::new(leap.timestamp(), leap.timestamp_subsec_nanos());
    assert_eq!(stamped.nanos, 1_500_000_000);
    let base = leap.timestamp();
    for ttl in [-3i64, -1, 0, 1, 2] {
        let end = leap + chrono::Duration::seconds(ttl);
        for ds in -4i64..=4 {
            for nanos in [0u32, 400_000_000, 500_000_000, 600_000_000, 999_999_999, 1_500_000_000, 1_700_000_000] {
                let Some(now) = chrono::DateTime::from_timestamp(base + ds, nanos) else { continue };
                let stamp_now = Timestamp::new(now.timestamp(), now.timestamp_subsec_nanos());
                assert_eq!(still_live(&stamped, ttl, &stamp_now), end > now, "ttl {} now {}", ttl, now);
            }
        }
    }
    // one second on from the leap second lands half a second into the next day
    assert!(still_live(&stamped, 1, &Timestamp::new(base + 1, 499_999_999)));
    assert!(!still_live(&stamped, 1, &Timestamp::new(base + 1, 500_000_000)));
}
