use vstd::prelude::*;

use crate::access_control::AccessScope;
use crate::float_bits::FloatBits;
use crate::ids::{is_uuid_v4_text, new_id};
use crate::text::{str_eq, string_of};
use crate::time::{now, Timestamp};

verus! {

broadcast use vstd::string::group_string_axioms;

/// The three kinds of memory.
#[derive(Clone, Copy, Debug, PartialEq, Eq, Structural)]
pub enum MemoryType {
    /// What happened.
    Episodic,
    /// Facts and preferences.
    Semantic,
    /// How to behave.
    Procedural,
}

/// The stored name of each memory type.
pub open spec fn memory_type_name(t: MemoryType) -> Seq<char> {
    match t {
        MemoryType::Episodic => "Episodic"@,
        MemoryType::Semantic => "Semantic"@,
        MemoryType::Procedural => "Procedural"@,
    }
}

/// The memory type a stored name stands for; an unknown name reads as `Episodic`.
pub open spec fn type_from_name(s: Seq<char>) -> MemoryType {
    if s == "Semantic"@ {
        MemoryType::Semantic
    } else if s == "Procedural"@ {
        MemoryType::Procedural
    } else {
        MemoryType::Episodic
    }
}

/// The memory type named in a request: `"semantic"` is semantic, anything else
/// episodic.
pub open spec fn request_type(s: Seq<char>) -> MemoryType {
    if s == "semantic"@ {
        MemoryType::Semantic
    } else {
        MemoryType::Episodic
    }
}

/// The memory type named by a lower-case name, if it names one.
pub open spec fn lower_type_name(s: Seq<char>) -> Option<MemoryType> {
    if s == "episodic"@ {
        Some(MemoryType::Episodic)
    } else if s == "semantic"@ {
        Some(MemoryType::Semantic)
    } else if s == "procedural"@ {
        Some(MemoryType::Procedural)
    } else {
        None
    }
}

proof fn lemma_type_names()
    ensures
        memory_type_name(MemoryType::Episodic) == "Episodic"@,
        memory_type_name(MemoryType::Semantic) == "Semantic"@,
        memory_type_name(MemoryType::Procedural) == "Procedural"@,
        "Episodic"@ != "Semantic"@,
        "Episodic"@ != "Procedural"@,
        "Semantic"@ != "Procedural"@,
{
    reveal_strlit("Episodic");
    reveal_strlit("Semantic");
    reveal_strlit("Procedural");
    assert("Episodic"@[0] == 'E' && "Semantic"@[0] == 'S' && "Procedural"@[0] == 'P');
}

/// Reading back the stored name of a memory type gives the same type.
pub proof fn lemma_type_name_roundtrip(t: MemoryType)
    ensures
        type_from_name(memory_type_name(t)) == t,
{
    lemma_type_names();
}

impl MemoryType {
    /// The name under which the type is stored.
    pub fn to_string(&self) -> (s: String)
        ensures
            s@ == memory_type_name(*self),
    {
        match self {
            MemoryType::Episodic => string_of("Episodic"),
            MemoryType::Semantic => string_of("Semantic"),
            MemoryType::Procedural => string_of("Procedural"),
        }
    }

    /// Reads a stored name back; names that are not known read as `Episodic`.
    pub fn from_name(s: &str) -> (t: MemoryType)
        ensures
            t == type_from_name(s@),
    {
        proof {
            lemma_type_names();
        }
        if str_eq(s, "Episodic") {
            MemoryType::Episodic
        } else if str_eq(s, "Semantic") {
            MemoryType::Semantic
        } else if str_eq(s, "Procedural") {
            MemoryType::Procedural
        } else {
            MemoryType::Episodic
        }
    }

    /// The type a request names: `"episodic"` or `"semantic"`; any other
    /// name falls back to episodic.
    pub fn from_request(s: &str) -> (t: MemoryType)
        ensures
            t == request_type(s@),
    {
        if str_eq(s, "semantic") {
            MemoryType::Semantic
        } else {
            MemoryType::Episodic
        }
    }

    /// The type named by `"episodic"`, `"semantic"` or `"procedural"`, and
    /// `None` for any other name.
    pub fn from_lower_name(s: &str) -> (t: Option<MemoryType>)
        ensures
            t == lower_type_name(s@),
    {
        if str_eq(s, "episodic") {
            Some(MemoryType::Episodic)
        } else if str_eq(s, "semantic") {
            Some(MemoryType::Semantic)
        } else if str_eq(s, "procedural") {
            Some(MemoryType::Procedural)
        } else {
            None
        }
    }
}

impl From<String> for MemoryType {
    fn from(s: String) -> (t: MemoryType) {
        MemoryType::from_name(s.as_str())
    }
}

impl vstd::std_specs::convert::FromSpecImpl<String> for MemoryType {
    open spec fn obeys_from_spec() -> bool {
        true
    }

    open spec fn from_spec(s: String) -> MemoryType {
        type_from_name(s@)
    }
}

/// One stored memory.
///
/// `confidence` and `decay_factor` hold single-precision numbers by their bit
/// patterns; `embedding` holds one such pattern per dimension.
#[derive(Clone, Debug)]
pub struct MemoryRecord {
    pub id: String,
    pub agent_id: String,
    pub user_id: String,
    pub session_id: String,
    pub memory_type: MemoryType,
    pub content: String,
    pub embedding: Option<Vec<FloatBits>>,
    pub timestamp: Timestamp,
    pub source: String,
    pub confidence: FloatBits,
    pub ttl: Option<i64>,
    pub tags: Vec<String>,
    pub scope: AccessScope,
    pub decay_factor: FloatBits,
    pub last_accessed: Timestamp,
    pub access_count: u32,
}

impl MemoryRecord {
    /// A fresh memory with a new id, stamped (and last accessed) now, without
    /// an embedding and never accessed.
    pub fn new(
        agent_id: &str,
        user_id: &str,
        session_id: &str,
        memory_type: MemoryType,
        content: &str,
        source: &str,
        confidence: FloatBits,
        ttl: Option<i64>,
        tags: Vec<String>,
        scope: AccessScope,
        decay_factor: FloatBits,
    ) -> (r: MemoryRecord)
        ensures
            is_uuid_v4_text(r.id@),
            r.agent_id@ == agent_id@,
            r.user_id@ == user_id@,
            r.session_id@ == session_id@,
            r.memory_type == memory_type,
            r.content@ == content@,
            r.embedding.is_none(),
            r.timestamp.wf(),
            r.source@ == source@,
            r.confidence == confidence,
            r.ttl == ttl,
            r.tags == tags,
            r.scope == scope,
            r.decay_factor == decay_factor,
            r.last_accessed == r.timestamp,
            r.access_count == 0,
    {
        let stamp = now();
        MemoryRecord {
            id: new_id(),
            agent_id: string_of(agent_id),
            user_id: string_of(user_id),
            session_id: string_of(session_id),
            memory_type,
            content: string_of(content),
            embedding: None,
            timestamp: stamp,
            source: string_of(source),
            confidence,
            ttl,
            tags,
            scope,
            decay_factor,
            last_accessed: stamp,
            access_count: 0,
        }
    }

    /// The record after one more read at `at`: last accessed at `at`, one
    /// access more, everything else unchanged.
    pub open spec fn spec_touched(self, at: Timestamp) -> MemoryRecord {
        MemoryRecord { last_accessed: at, access_count: (self.access_count + 1) as u32, ..self }
    }

    /// Records a read of this memory at `at`.
    pub fn touch(&mut self, at: Timestamp)
        requires
            old(self).access_count < u32::MAX,
        ensures
            *final(self) == old(self).spec_touched(at),
            final(self).access_count == old(self).access_count + 1,
            final(self).last_accessed == at,
            final(self).timestamp == old(self).timestamp,
    {
        self.last_accessed = at;
        self.access_count = self.access_count + 1;
    }
}

/// Recording a read at `at` counts one more access and sets the last access to
/// `at`; every other field stays as it was.
pub proof fn lemma_touch_counts_the_read(rec: MemoryRecord, at: Timestamp)
    requires
        rec.access_count < u32::MAX,
    ensures
        ({
            let t = rec.spec_touched(at);
            &&& t.access_count == rec.access_count + 1
            &&& t.last_accessed == at
            &&& t.id == rec.id
            &&& t.agent_id == rec.agent_id
            &&& t.user_id == rec.user_id
            &&& t.session_id == rec.session_id
            &&& t.memory_type == rec.memory_type
            &&& t.content == rec.content
            &&& t.embedding == rec.embedding
            &&& t.timestamp == rec.timestamp
            &&& t.source == rec.source
            &&& t.confidence == rec.confidence
            &&& t.ttl == rec.ttl
            &&& t.tags == rec.tags
            &&& t.scope == rec.scope
            &&& t.decay_factor == rec.decay_factor
        }),
{
}

} // verus!
