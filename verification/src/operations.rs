use vstd::prelude::*;

use crate::access_control::AccessScope;
use crate::audit::{AuditAction, AuditEvent};
use crate::backend::AccessGrant;
use crate::consolidation::{episodic_summary, episodes, stamps_at, summary_text};
use crate::float_bits::FloatBits;
use crate::ordering::{is_permutation, newest_first};
use crate::store::{MemoryRecord, MemoryType};
use crate::text::{concat, lemma_empty_literal, str_eq, string_of, string_views};
use crate::ids::is_uuid_v4_text;

verus! {

broadcast use vstd::string::group_string_axioms;

/// `e` is an audit event with these contents (and some fresh id and a valid
/// time stamp).
pub open spec fn event_is(
    e: AuditEvent,
    action: AuditAction,
    agent: Seq<char>,
    user: Seq<char>,
    session: Seq<char>,
    memory_id: Option<Seq<char>>,
    details: Seq<char>,
) -> bool {
    &&& is_uuid_v4_text(e.id@)
    &&& e.timestamp.wf()
    &&& e.action == action
    &&& e.agent_id@ == agent
    &&& e.user_id@ == user
    &&& e.session_id@ == session
    &&& e.memory_id.is_some() == memory_id.is_some()
    &&& (memory_id.is_some() ==> e.memory_id.unwrap()@ == memory_id.unwrap())
    &&& e.details@ == details
}

/// The audit event of storing `record` for `agent`.
pub fn remember_event(agent: &str, record: &MemoryRecord) -> (e: AuditEvent)
    ensures
        event_is(
            e,
            AuditAction::Write,
            agent@,
            record.user_id@,
            record.session_id@,
            Some(record.id@),
            "remember"@,
        ),
{
    AuditEvent::new(
        AuditAction::Write,
        agent,
        record.user_id.as_str(),
        record.session_id.as_str(),
        Some(record.id.as_str()),
        "remember",
    )
}

/// The audit event of a recall by `agent` for `query`.
pub fn recall_event(agent: &str, query: &str) -> (e: AuditEvent)
    ensures
        event_is(e, AuditAction::Read, agent@, Seq::empty(), Seq::empty(), None, "recall query: "@ + query@),
{
    let details = concat("recall query: ", query);
    proof {
        lemma_empty_literal();
    }
    AuditEvent::new(AuditAction::Read, agent, "", "", None, details.as_str())
}

/// The audit event of `agent` forgetting the memory `memory_id`.
pub fn forget_event(agent: &str, memory_id: &str) -> (e: AuditEvent)
    ensures
        event_is(e, AuditAction::Forget, agent@, Seq::empty(), Seq::empty(), Some(memory_id@), "forget"@),
{
    proof {
        lemma_empty_literal();
    }
    AuditEvent::new(AuditAction::Forget, agent, "", "", Some(memory_id), "forget")
}

/// The ids of the memories of `user`, in order.
pub open spec fn ids_of_user_upto(recs: Seq<MemoryRecord>, user: Seq<char>, k: int) -> Seq<Seq<char>>
    decreases k,
{
    if k <= 0 {
        Seq::empty()
    } else {
        let prev = ids_of_user_upto(recs, user, k - 1);
        if recs[k - 1].user_id@ == user {
            prev.push(recs[k - 1].id@)
        } else {
            prev
        }
    }
}

/// The ids of all memories of `user`, in order.
pub open spec fn ids_of_user(recs: Seq<MemoryRecord>, user: Seq<char>) -> Seq<Seq<char>> {
    ids_of_user_upto(recs, user, recs.len() as int)
}

/// The ids of the memories that forgetting everything about `user` deletes:
/// those of every record whose user is `user`, in order. Their number is what
/// the operation reports.
pub fn forget_all_ids(records: &Vec<MemoryRecord>, user_id: &str) -> (r: Vec<String>)
    ensures
        string_views(r@) == ids_of_user(records@, user_id@),
{
    let n = records.len();
    let mut out: Vec<String> = Vec::new();
    for i in 0..n
        invariant
            n == records.len(),
            string_views(out@) == ids_of_user_upto(records@, user_id@, i as int),
    {
        if str_eq(records[i].user_id.as_str(), user_id) {
            let ghost before = out@;
            out.push(records[i].id.clone());
            assert(string_views(out@) =~= string_views(before).push(records@[i as int].id@));
        }
    }
    out
}

/// The audit event of `agent` forgetting everything about `user`.
pub fn forget_all_event(agent: &str, user_id: &str) -> (e: AuditEvent)
    ensures
        event_is(
            e,
            AuditAction::ForgetAll,
            agent@,
            user_id@,
            Seq::empty(),
            None,
            "forget_all user_id="@ + user_id@,
        ),
{
    let details = concat("forget_all user_id=", user_id);
    proof {
        lemma_empty_literal();
    }
    AuditEvent::new(AuditAction::ForgetAll, agent, user_id, "", None, details.as_str())
}

/// The `Debug` text of a list of strings, as `std` writes it (`["a", "b"]`, with
/// the strings escaped).
pub uninterp spec fn debug_text(items: Seq<Seq<char>>) -> Seq<char>;

/// Formats a list of strings with its `Debug` impl.
///
/// Calls `std`'s `Debug` formatting for `Vec<String>` through `format!`. Its
/// output depends only on the strings' contents; the escaping rules are not
/// written out here, so the result is named, not described.
#[verifier::external_body]
fn debug_strings(items: &Vec<String>) -> (s: String)
    ensures
        s@ == debug_text(string_views(items@)),
{
    format!("{:?}", items)
}

/// The audit event of `agent` granting `grant`.
pub fn grant_event(agent: &str, grant: &AccessGrant) -> (e: AuditEvent)
    ensures
        event_is(
            e,
            AuditAction::Write,
            agent@,
            Seq::empty(),
            Seq::empty(),
            None,
            "grant_access to "@ + grant.granted_agent@ + " with tags "@ + debug_text(
                string_views(grant.tags@),
            ),
        ),
{
    let head = concat("grant_access to ", grant.granted_agent.as_str());
    let head = concat(head.as_str(), " with tags ");
    let tags = debug_strings(&grant.tags);
    let details = concat(head.as_str(), tags.as_str());
    proof {
        lemma_empty_literal();
    }
    AuditEvent::new(AuditAction::Write, agent, "", "", None, details.as_str())
}

/// The audit event of `agent` revoking the grant `grant_id`.
pub fn revoke_event(agent: &str, grant_id: &str) -> (e: AuditEvent)
    ensures
        event_is(
            e,
            AuditAction::Write,
            agent@,
            Seq::empty(),
            Seq::empty(),
            None,
            "revoke_access grant_id="@ + grant_id@,
        ),
{
    let details = concat("revoke_access grant_id=", grant_id);
    proof {
        lemma_empty_literal();
    }
    AuditEvent::new(AuditAction::Write, agent, "", "", None, details.as_str())
}

/// The audit event of `agent` exporting to `path`.
pub fn export_event(agent: &str, path: &str) -> (e: AuditEvent)
    ensures
        event_is(e, AuditAction::Export, agent@, Seq::empty(), Seq::empty(), None, "export to "@ + path@),
{
    let details = concat("export to ", path);
    proof {
        lemma_empty_literal();
    }
    AuditEvent::new(AuditAction::Export, agent, "", "", None, details.as_str())
}

/// The audit event of `agent` importing from `path`.
pub fn import_event(agent: &str, path: &str) -> (e: AuditEvent)
    ensures
        event_is(e, AuditAction::Import, agent@, Seq::empty(), Seq::empty(), None, "import from "@ + path@),
{
    let details = concat("import from ", path);
    proof {
        lemma_empty_literal();
    }
    AuditEvent::new(AuditAction::Import, agent, "", "", None, details.as_str())
}

/// Bit pattern of `0.7f32`, the confidence of a summary.
pub const SUMMARY_CONFIDENCE_BITS: u32 = 0x3f33_3333u32;

/// Bit pattern of `1.0f32`.
pub const ONE_BITS: u32 = 0x3f80_0000u32;

/// The semantic memory that consolidating `user`'s episodic memories adds for
/// `agent`: their summary, from source `"consolidation"`, with confidence 0.7,
/// no time-to-live, the single tag `"summary"`, the default scope and decay
/// 1.0. `None` when `user` has no episodic memory.
pub fn consolidation_record(agent: &str, records: &Vec<MemoryRecord>, user_id: &str) -> (r: Option<
    MemoryRecord,
>)
    ensures
        r.is_none() <==> episodes(records@, user_id@).len() == 0,
        r.is_some() ==> {
            let rec = r.unwrap();
            &&& exists|p: Seq<usize>|
                {
                    &&& is_permutation(p, episodes(records@, user_id@).len() as int)
                    &&& newest_first(stamps_at(records@, episodes(records@, user_id@)), p)
                    &&& rec.content@ == summary_text(records@, episodes(records@, user_id@), p)
                }
            &&& is_uuid_v4_text(rec.id@)
            &&& rec.agent_id@ == agent@
            &&& rec.user_id@ == user_id@
            &&& rec.session_id@ == Seq::<char>::empty()
            &&& rec.memory_type == MemoryType::Semantic
            &&& rec.embedding.is_none()
            &&& rec.timestamp.wf()
            &&& rec.source@ == "consolidation"@
            &&& rec.confidence.bits == SUMMARY_CONFIDENCE_BITS
            &&& rec.ttl.is_none()
            &&& rec.tags@.len() == 1
            &&& rec.tags@[0]@ == "summary"@
            &&& rec.scope.is_default()
            &&& rec.decay_factor.bits == ONE_BITS
            &&& rec.last_accessed == rec.timestamp
            &&& rec.access_count == 0
        },
{
    proof {
        lemma_empty_literal();
    }
    match episodic_summary(records, user_id) {
        None => None,
        Some(summary) => {
            let mut tags: Vec<String> = Vec::new();
            tags.push(string_of("summary"));
            Some(
                MemoryRecord::new(
                    agent,
                    user_id,
                    "",
                    MemoryType::Semantic,
                    summary.as_str(),
                    "consolidation",
                    FloatBits::from_bits(SUMMARY_CONFIDENCE_BITS),
                    None,
                    tags,
                    AccessScope::default(),
                    FloatBits::from_bits(ONE_BITS),
                ),
            )
        },
    }
}

} // verus!

verus! {

/// `x` is the id of one of the first `k` records, and that record is `user`'s.
pub open spec fn user_record_id(recs: Seq<MemoryRecord>, user: Seq<char>, k: int, x: Seq<char>) -> bool {
    exists|i: int| 0 <= i < k && recs[i].user_id@ == user && #[trigger] recs[i].id@ == x
}

proof fn lemma_ids_of_user_upto(recs: Seq<MemoryRecord>, user: Seq<char>, k: int)
    requires
        0 <= k <= recs.len(),
    ensures
        forall|i: int|
            0 <= i < k && recs[i].user_id@ == user ==> ids_of_user_upto(recs, user, k).contains(
                #[trigger] recs[i].id@,
            ),
        forall|a: int|
            0 <= a < ids_of_user_upto(recs, user, k).len() ==> user_record_id(
                recs,
                user,
                k,
                #[trigger] ids_of_user_upto(recs, user, k)[a],
            ),
    decreases k,
{
    if k > 0 {
        lemma_ids_of_user_upto(recs, user, k - 1);
        let prev = ids_of_user_upto(recs, user, k - 1);
        let cur = ids_of_user_upto(recs, user, k);
        assert forall|i: int| 0 <= i < k && recs[i].user_id@ == user implies cur.contains(
            #[trigger] recs[i].id@,
        ) by {
            if i < k - 1 {
                let a = choose|a: int| 0 <= a < prev.len() && prev[a] == recs[i].id@;
                assert(cur[a] == prev[a]);
            } else {
                assert(cur[cur.len() - 1] == recs[i].id@);
            }
        }
        assert forall|a: int| 0 <= a < cur.len() implies user_record_id(recs, user, k, #[trigger] cur[a]) by {
            if a < prev.len() {
                assert(cur[a] == prev[a]);
                assert(user_record_id(recs, user, k - 1, prev[a]));
                let i = choose|i: int| 0 <= i < k - 1 && recs[i].user_id@ == user && #[trigger] recs[i].id@ == prev[a];
                assert(recs[i].id@ == cur[a]);
            } else {
                assert(cur[a] == recs[k - 1].id@);
            }
        }
    }
}

/// Forgetting everything about a user is complete and precise: the ids it
/// deletes include the id of every memory of that user, and each of them is
/// the id of a memory of that user.
pub proof fn lemma_forget_all_complete(recs: Seq<MemoryRecord>, user: Seq<char>)
    ensures
        forall|i: int|
            0 <= i < recs.len() && recs[i].user_id@ == user ==> ids_of_user(recs, user).contains(
                #[trigger] recs[i].id@,
            ),
        forall|a: int|
            0 <= a < ids_of_user(recs, user).len() ==> user_record_id(
                recs,
                user,
                recs.len() as int,
                #[trigger] ids_of_user(recs, user)[a],
            ),
{
    lemma_ids_of_user_upto(recs, user, recs.len() as int);
}

} // verus!
