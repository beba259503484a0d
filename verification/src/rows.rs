//! The rows a storage backend keeps, and how values are written to them and
//! read back: time stamps as RFC 3339 text, tag lists as JSON arrays of
//! strings, and type and action names as text.

use vstd::prelude::*;

use crate::access_control::AccessScope;
use crate::audit::{action_from_name, action_name, lemma_action_name_roundtrip, AuditAction, AuditEvent};
use crate::backend::AccessGrant;
use crate::float_bits::FloatBits;
use crate::store::{
    lemma_type_name_roundtrip, memory_type_name, type_from_name, MemoryRecord, MemoryType,
};
use crate::text::string_views;
use crate::time::{parse_rfc3339, rfc3339_instant, rfc3339_text, write_rfc3339, Timestamp};

verus! {

/// The strings a JSON text holds, if it is a JSON array of strings.
pub uninterp spec fn json_string_list(text: Seq<char>) -> Option<Seq<Seq<char>>>;

/// The JSON text that `serde_json` writes for a list of strings.
pub uninterp spec fn json_list_text(items: Seq<Seq<char>>) -> Seq<char>;

/// Parses a JSON array of strings.
///
/// Calls `serde_json::from_str::<Vec<String>>`. Which texts it accepts, and
/// what strings it reads out of their escapes, takes the JSON grammar to say, so
/// the result is named rather than described.
#[verifier::external_body]
fn parse_string_list(text: &str) -> (r: Option<Vec<String>>)
    ensures
        r.is_some() == json_string_list(text@).is_some(),
        r matches Some(v) ==> string_views(v@) == json_string_list(text@).unwrap(),
{
    match serde_json::from_str::<Vec<String>>(text) {
        Ok(v) => Some(v),
        Err(_) => None,
    }
}

/// Writes a list of strings as a JSON array of strings.
///
/// Calls `serde_json::to_string` on the list; the compact text it writes is
/// named. Serialising a `Vec<String>` does not fail, and `serde_json` reads the
/// array it writes back as the same strings.
#[verifier::external_body]
fn write_string_list(items: &Vec<String>) -> (r: String)
    ensures
        r@ == json_list_text(string_views(items@)),
        json_string_list(r@) == Some(string_views(items@)),
{
    serde_json::to_string(items).unwrap_or_default()
}

/// The tags a stored JSON text holds: its strings when it is a JSON array of
/// strings, and no tags otherwise.
pub open spec fn stored_tags(text: Seq<char>) -> Seq<Seq<char>> {
    match json_string_list(text) {
        Some(tags) => tags,
        None => Seq::empty(),
    }
}

/// Reads a tag list stored as a JSON array of strings; a text that is not one
/// reads as no tags.
pub fn tags_from_json(text: &str) -> (r: Vec<String>)
    ensures
        string_views(r@) == stored_tags(text@),
{
    match parse_string_list(text) {
        Some(tags) => tags,
        None => Vec::new(),
    }
}

/// Writes a tag list as a JSON array of strings, the form in which rows keep
/// it: reading the text back gives the same tags.
pub fn tags_to_json(tags: &Vec<String>) -> (r: String)
    ensures
        r@ == json_list_text(string_views(tags@)),
        stored_tags(r@) == string_views(tags@),
{
    write_string_list(tags)
}

/// The stored form of a memory: one column per field, with the memory type as
/// its name, the time stamps as RFC 3339 text and the tags as a JSON array.
#[derive(Clone, Debug)]
pub struct StoredRecord {
    pub id: String,
    pub agent_id: String,
    pub user_id: String,
    pub session_id: String,
    pub memory_type: String,
    pub content: String,
    pub embedding: Option<Vec<FloatBits>>,
    pub timestamp: String,
    pub source: String,
    pub confidence: FloatBits,
    pub ttl: Option<i64>,
    pub tags: String,
    pub scope: AccessScope,
    pub decay_factor: FloatBits,
    pub last_accessed: String,
    pub access_count: u32,
}

/// The stored form of an audit event, with its time stamp as RFC 3339 text and
/// its action as a name.
#[derive(Clone, Debug)]
pub struct StoredEvent {
    pub id: String,
    pub timestamp: String,
    pub action: String,
    pub agent_id: String,
    pub user_id: String,
    pub session_id: String,
    pub memory_id: Option<String>,
    pub details: String,
}

/// The stored form of an access grant, with its tags as a JSON array and its
/// creation time as RFC 3339 text.
#[derive(Clone, Debug)]
pub struct StoredGrant {
    pub id: String,
    pub owner_agent: String,
    pub granted_agent: String,
    pub tags: String,
    pub permission: String,
    pub created_at: String,
}

/// The columns of `row` that are not encoded hold the fields of `rec` as they are.
pub open spec fn same_plain_columns(row: StoredRecord, rec: MemoryRecord) -> bool {
    &&& row.id == rec.id
    &&& row.agent_id == rec.agent_id
    &&& row.user_id == rec.user_id
    &&& row.session_id == rec.session_id
    &&& row.content == rec.content
    &&& row.embedding == rec.embedding
    &&& row.source == rec.source
    &&& row.confidence == rec.confidence
    &&& row.ttl == rec.ttl
    &&& row.scope == rec.scope
    &&& row.decay_factor == rec.decay_factor
    &&& row.access_count == rec.access_count
}

/// What reading `row` back gives: `None` when a time stamp is not an RFC 3339
/// date-time, and otherwise the memory with the named type, the parsed instants,
/// the stored tags (no tags when the text is not a JSON array of strings) and the
/// other columns as they are.
pub open spec fn decodes_record(row: StoredRecord, r: Option<MemoryRecord>) -> bool {
    &&& r.is_some() <==> rfc3339_instant(row.timestamp@).is_some() && rfc3339_instant(
        row.last_accessed@,
    ).is_some()
    &&& r matches Some(rec) ==> {
        &&& same_plain_columns(row, rec)
        &&& rec.memory_type == type_from_name(row.memory_type@)
        &&& rec.timestamp == rfc3339_instant(row.timestamp@).unwrap()
        &&& rec.last_accessed == rfc3339_instant(row.last_accessed@).unwrap()
        &&& string_views(rec.tags@) == stored_tags(row.tags@)
        &&& rec.timestamp.is_instant()
        &&& rec.last_accessed.is_instant()
    }
}

/// Every column of `row` reads back as the matching field of `rec`.
pub open spec fn reads_back_as(row: StoredRecord, rec: MemoryRecord) -> bool {
    &&& same_plain_columns(row, rec)
    &&& type_from_name(row.memory_type@) == rec.memory_type
    &&& rfc3339_instant(row.timestamp@) == Some(rec.timestamp)
    &&& rfc3339_instant(row.last_accessed@) == Some(rec.last_accessed)
    &&& stored_tags(row.tags@) == string_views(rec.tags@)
}

/// Two memories agree on every field (the tags compared by their text).
pub open spec fn same_memory(a: MemoryRecord, b: MemoryRecord) -> bool {
    &&& a.id == b.id
    &&& a.agent_id == b.agent_id
    &&& a.user_id == b.user_id
    &&& a.session_id == b.session_id
    &&& a.memory_type == b.memory_type
    &&& a.content == b.content
    &&& a.embedding == b.embedding
    &&& a.timestamp == b.timestamp
    &&& a.source == b.source
    &&& a.confidence == b.confidence
    &&& a.ttl == b.ttl
    &&& string_views(a.tags@) == string_views(b.tags@)
    &&& a.scope == b.scope
    &&& a.decay_factor == b.decay_factor
    &&& a.last_accessed == b.last_accessed
    &&& a.access_count == b.access_count
}

/// Writes a memory as its stored row. Each column that reads back does so as the
/// field it came from; the time stamps do when their years have four digits.
pub fn record_to_row(rec: MemoryRecord) -> (row: StoredRecord)
    requires
        rec.timestamp.is_instant(),
        rec.last_accessed.is_instant(),
    ensures
        same_plain_columns(row, rec),
        row.memory_type@ == memory_type_name(rec.memory_type),
        row.timestamp@ == rfc3339_text(rec.timestamp),
        row.tags@ == json_list_text(string_views(rec.tags@)),
        row.last_accessed@ == rfc3339_text(rec.last_accessed),
        rec.timestamp.four_digit_year() && rec.last_accessed.four_digit_year() ==> reads_back_as(
            row,
            rec,
        ),
{
    proof {
        lemma_type_name_roundtrip(rec.memory_type);
    }
    let memory_type = rec.memory_type.to_string();
    let timestamp = write_rfc3339(&rec.timestamp);
    let tags = tags_to_json(&rec.tags);
    let last_accessed = write_rfc3339(&rec.last_accessed);
    StoredRecord {
        id: rec.id,
        agent_id: rec.agent_id,
        user_id: rec.user_id,
        session_id: rec.session_id,
        memory_type,
        content: rec.content,
        embedding: rec.embedding,
        timestamp,
        source: rec.source,
        confidence: rec.confidence,
        ttl: rec.ttl,
        tags,
        scope: rec.scope,
        decay_factor: rec.decay_factor,
        last_accessed,
        access_count: rec.access_count,
    }
}

/// Rebuilds a memory from its stored row; `None` when either time stamp is not
/// an RFC 3339 date-time.
pub fn record_from_row(row: StoredRecord) -> (r: Option<MemoryRecord>)
    ensures
        decodes_record(row, r),
{
    let stamped = match parse_rfc3339(row.timestamp.as_str()) {
        Some(t) => t,
        None => return None,
    };
    let accessed = match parse_rfc3339(row.last_accessed.as_str()) {
        Some(t) => t,
        None => return None,
    };
    let memory_type = MemoryType::from_name(row.memory_type.as_str());
    let tags = tags_from_json(row.tags.as_str());
    Some(
        MemoryRecord {
            id: row.id,
            agent_id: row.agent_id,
            user_id: row.user_id,
            session_id: row.session_id,
            memory_type,
            content: row.content,
            embedding: row.embedding,
            timestamp: stamped,
            source: row.source,
            confidence: row.confidence,
            ttl: row.ttl,
            tags,
            scope: row.scope,
            decay_factor: row.decay_factor,
            last_accessed: accessed,
            access_count: row.access_count,
        },
    )
}

/// A memory written as a row and read back is the same memory: whatever
/// `record_from_row` gives for a row that reads back as `rec` is `rec`.
pub proof fn lemma_record_row_reads_back(rec: MemoryRecord, row: StoredRecord, back: Option<MemoryRecord>)
    requires
        reads_back_as(row, rec),
        decodes_record(row, back),
    ensures
        back matches Some(r) && same_memory(r, rec),
{
}

/// Writes an audit event as its stored row; the time stamp reads back as itself
/// when its year has four digits, and the action always does.
pub fn event_to_row(e: AuditEvent) -> (row: StoredEvent)
    requires
        e.timestamp.is_instant(),
    ensures
        row.id == e.id,
        row.timestamp@ == rfc3339_text(e.timestamp),
        row.action@ == action_name(e.action),
        action_from_name(row.action@) == e.action,
        e.timestamp.four_digit_year() ==> rfc3339_instant(row.timestamp@) == Some(e.timestamp),
        row.agent_id == e.agent_id,
        row.user_id == e.user_id,
        row.session_id == e.session_id,
        row.memory_id == e.memory_id,
        row.details == e.details,
{
    proof {
        lemma_action_name_roundtrip(e.action);
    }
    let timestamp = write_rfc3339(&e.timestamp);
    let action = e.action.to_string();
    StoredEvent {
        id: e.id,
        timestamp,
        action,
        agent_id: e.agent_id,
        user_id: e.user_id,
        session_id: e.session_id,
        memory_id: e.memory_id,
        details: e.details,
    }
}

/// Rebuilds an audit event from its stored row: the action is read from its
/// name. `None` when the time stamp is not an RFC 3339 date-time.
pub fn event_from_row(row: StoredEvent) -> (r: Option<AuditEvent>)
    ensures
        r.is_some() <==> rfc3339_instant(row.timestamp@).is_some(),
        r matches Some(e) ==> {
            &&& e.id == row.id
            &&& e.timestamp == rfc3339_instant(row.timestamp@).unwrap()
            &&& e.timestamp.is_instant()
            &&& e.action == action_from_name(row.action@)
            &&& e.agent_id == row.agent_id
            &&& e.user_id == row.user_id
            &&& e.session_id == row.session_id
            &&& e.memory_id == row.memory_id
            &&& e.details == row.details
        },
{
    match parse_rfc3339(row.timestamp.as_str()) {
        Some(t) => {
            let action = AuditAction::from_name(row.action.as_str());
            Some(
                AuditEvent {
                    id: row.id,
                    timestamp: t,
                    action,
                    agent_id: row.agent_id,
                    user_id: row.user_id,
                    session_id: row.session_id,
                    memory_id: row.memory_id,
                    details: row.details,
                },
            )
        },
        None => None,
    }
}

/// Writes an access grant as its stored row; the tags read back as themselves,
/// and so does the creation time when its year has four digits.
pub fn grant_to_row(g: AccessGrant) -> (row: StoredGrant)
    requires
        g.created_at.is_instant(),
    ensures
        row.id == g.id,
        row.owner_agent == g.owner_agent,
        row.granted_agent == g.granted_agent,
        row.tags@ == json_list_text(string_views(g.tags@)),
        stored_tags(row.tags@) == string_views(g.tags@),
        row.permission == g.permission,
        row.created_at@ == rfc3339_text(g.created_at),
        g.created_at.four_digit_year() ==> rfc3339_instant(row.created_at@) == Some(g.created_at),
{
    let tags = tags_to_json(&g.tags);
    let created_at = write_rfc3339(&g.created_at);
    StoredGrant {
        id: g.id,
        owner_agent: g.owner_agent,
        granted_agent: g.granted_agent,
        tags,
        permission: g.permission,
        created_at,
    }
}

/// Rebuilds an access grant from its stored row: the tags are read from their
/// JSON text (no tags when it is not a JSON array of strings). `None` when the
/// creation time is not an RFC 3339 date-time.
pub fn grant_from_row(row: StoredGrant) -> (r: Option<AccessGrant>)
    ensures
        r.is_some() <==> rfc3339_instant(row.created_at@).is_some(),
        r matches Some(g) ==> {
            &&& g.id == row.id
            &&& g.owner_agent == row.owner_agent
            &&& g.granted_agent == row.granted_agent
            &&& string_views(g.tags@) == stored_tags(row.tags@)
            &&& g.permission == row.permission
            &&& g.created_at == rfc3339_instant(row.created_at@).unwrap()
            &&& g.created_at.is_instant()
        },
{
    match parse_rfc3339(row.created_at.as_str()) {
        Some(t) => {
            let tags = tags_from_json(row.tags.as_str());
            Some(
                AccessGrant {
                    id: row.id,
                    owner_agent: row.owner_agent,
                    granted_agent: row.granted_agent,
                    tags,
                    permission: row.permission,
                    created_at: t,
                },
            )
        },
        None => None,
    }
}

} // verus!
