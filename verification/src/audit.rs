use vstd::prelude::*;

use crate::ids::{is_uuid_v4_text, new_id};
use crate::text::{str_eq, string_of};
use crate::time::{now, parse_rfc3339, rfc3339_instant, Timestamp};

verus! {

broadcast use vstd::string::group_string_axioms;

/// The kind of operation an audit event records.
#[derive(Clone, Copy, Debug, PartialEq, Eq, Structural)]
pub enum AuditAction {
    Write,
    Read,
    Forget,
    ForgetAll,
    Export,
    Import,
}

/// The stored name of each action.
pub open spec fn action_name(a: AuditAction) -> Seq<char> {
    match a {
        AuditAction::Write => "Write"@,
        AuditAction::Read => "Read"@,
        AuditAction::Forget => "Forget"@,
        AuditAction::ForgetAll => "ForgetAll"@,
        AuditAction::Export => "Export"@,
        AuditAction::Import => "Import"@,
    }
}

/// The action a stored name stands for; an unknown name reads as `Write`.
pub open spec fn action_from_name(s: Seq<char>) -> AuditAction {
    if s == "Read"@ {
        AuditAction::Read
    } else if s == "Forget"@ {
        AuditAction::Forget
    } else if s == "ForgetAll"@ {
        AuditAction::ForgetAll
    } else if s == "Export"@ {
        AuditAction::Export
    } else if s == "Import"@ {
        AuditAction::Import
    } else {
        AuditAction::Write
    }
}

impl AuditAction {
    /// The name under which the action is stored.
    pub fn to_string(&self) -> (s: String)
        ensures
            s@ == action_name(*self),
    {
        match self {
            AuditAction::Write => string_of("Write"),
            AuditAction::Read => string_of("Read"),
            AuditAction::Forget => string_of("Forget"),
            AuditAction::ForgetAll => string_of("ForgetAll"),
            AuditAction::Export => string_of("Export"),
            AuditAction::Import => string_of("Import"),
        }
    }

    /// Reads a stored name back; names that are not known read as `Write`.
    pub fn from_name(s: &str) -> (a: AuditAction)
        ensures
            a == action_from_name(s@),
    {
        proof {
            lemma_names_read_back();
        }
        if str_eq(s, "Write") {
            AuditAction::Write
        } else if str_eq(s, "Read") {
            AuditAction::Read
        } else if str_eq(s, "Forget") {
            AuditAction::Forget
        } else if str_eq(s, "ForgetAll") {
            AuditAction::ForgetAll
        } else if str_eq(s, "Export") {
            AuditAction::Export
        } else if str_eq(s, "Import") {
            AuditAction::Import
        } else {
            AuditAction::Write
        }
    }
}

impl From<String> for AuditAction {
    fn from(s: String) -> (a: AuditAction) {
        AuditAction::from_name(s.as_str())
    }
}

impl vstd::std_specs::convert::FromSpecImpl<String> for AuditAction {
    open spec fn obeys_from_spec() -> bool {
        true
    }

    open spec fn from_spec(s: String) -> AuditAction {
        action_from_name(s@)
    }
}

/// Each stored name reads back as the action it names.
proof fn lemma_names_read_back()
    ensures
        action_from_name("Write"@) == AuditAction::Write,
        action_from_name("Read"@) == AuditAction::Read,
        action_from_name("Forget"@) == AuditAction::Forget,
        action_from_name("ForgetAll"@) == AuditAction::ForgetAll,
        action_from_name("Export"@) == AuditAction::Export,
        action_from_name("Import"@) == AuditAction::Import,
{
    reveal_strlit("Write");
    reveal_strlit("Read");
    reveal_strlit("Forget");
    reveal_strlit("ForgetAll");
    reveal_strlit("Export");
    reveal_strlit("Import");
    assert("Write"@.len() == 5 && "Read"@.len() == 4 && "Forget"@.len() == 6);
    assert("ForgetAll"@.len() == 9 && "Export"@.len() == 6 && "Import"@.len() == 6);
    assert("Forget"@[0] == 'F' && "Export"@[0] == 'E' && "Import"@[0] == 'I');
}

/// Reading back the stored name of an action gives the same action.
pub proof fn lemma_action_name_roundtrip(a: AuditAction)
    ensures
        action_from_name(action_name(a)) == a,
{
    lemma_names_read_back();
}

/// One entry of the audit trail.
#[derive(Clone, Debug)]
pub struct AuditEvent {
    pub id: String,
    pub timestamp: Timestamp,
    pub action: AuditAction,
    pub agent_id: String,
    pub user_id: String,
    pub session_id: String,
    pub memory_id: Option<String>,
    pub details: String,
}

impl AuditEvent {
    /// An event with a fresh id, stamped with the current time.
    pub fn new(
        action: AuditAction,
        agent_id: &str,
        user_id: &str,
        session_id: &str,
        memory_id: Option<&str>,
        details: &str,
    ) -> (e: AuditEvent)
        ensures
            is_uuid_v4_text(e.id@),
            e.timestamp.wf(),
            e.action == action,
            e.agent_id@ == agent_id@,
            e.user_id@ == user_id@,
            e.session_id@ == session_id@,
            e.memory_id.is_some() == memory_id.is_some(),
            memory_id.is_some() ==> e.memory_id.unwrap()@ == memory_id.unwrap()@,
            e.details@ == details@,
    {
        let mid = match memory_id {
            Some(m) => Some(string_of(m)),
            None => None,
        };
        AuditEvent {
            id: new_id(),
            timestamp: now(),
            action,
            agent_id: string_of(agent_id),
            user_id: string_of(user_id),
            session_id: string_of(session_id),
            memory_id: mid,
            details: string_of(details),
        }
    }
}

} // verus!

verus! {

/// `a` is not earlier than `b`.
pub open spec fn at_or_after(a: Timestamp, b: Timestamp) -> bool {
    !b.spec_after(a)
}

/// The positions among events `0 .. k` stamped at or after `since`.
pub open spec fn since_upto(log: Seq<AuditEvent>, since: Timestamp, k: int) -> Seq<usize>
    decreases k,
{
    if k <= 0 {
        Seq::empty()
    } else {
        let prev = since_upto(log, since, k - 1);
        if at_or_after(log[k - 1].timestamp, since) {
            prev.push((k - 1) as usize)
        } else {
            prev
        }
    }
}

/// The positions, in order, of the events of `log` stamped at or after `since`.
pub fn events_since(log: &Vec<AuditEvent>, since: &Timestamp) -> (r: Vec<usize>)
    ensures
        r@ == since_upto(log@, *since, log.len() as int),
{
    let n = log.len();
    let mut out: Vec<usize> = Vec::new();
    for i in 0..n
        invariant
            n == log.len(),
            out@ == since_upto(log@, *since, i as int),
    {
        if !since.after(&log[i].timestamp) {
            out.push(i);
        }
    }
    out
}

/// The positions, in order, of the events of `log` stamped at or after the
/// RFC 3339 date-time `since`; `None` when `since` is not one.
pub fn events_since_text(log: &Vec<AuditEvent>, since: &str) -> (r: Option<Vec<usize>>)
    ensures
        r.is_some() == rfc3339_instant(since@).is_some(),
        r.is_some() ==> r.unwrap()@ == since_upto(
            log@,
            rfc3339_instant(since@).unwrap(),
            log.len() as int,
        ),
{
    match parse_rfc3339(since) {
        Some(t) => Some(events_since(log, &t)),
        None => None,
    }
}

} // verus!
