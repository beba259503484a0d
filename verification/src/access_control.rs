use vstd::prelude::*;

use crate::text::string_of;

verus! {

/// What a scope lets its holder do with memories.
#[derive(Clone, Copy, Debug, PartialEq, Eq, Structural)]
pub enum Permission {
    ReadWrite,
    ReadOnly,
    WriteOnly,
}

impl Default for Permission {
    /// Scopes read and write unless told otherwise.
    fn default() -> (p: Permission)
        ensures
            p == Permission::ReadWrite,
    {
        Permission::ReadWrite
    }
}

/// The agent, user and session a memory belongs to, and the permission granted.
#[derive(Clone, Debug)]
pub struct AccessScope {
    pub agent_id: String,
    pub user_id: String,
    pub session_id: String,
    pub permission: Permission,
}

impl AccessScope {
    /// The default scope: empty agent, user and session, read-write.
    pub open spec fn is_default(&self) -> bool {
        &&& self.agent_id@ == Seq::<char>::empty()
        &&& self.user_id@ == Seq::<char>::empty()
        &&& self.session_id@ == Seq::<char>::empty()
        &&& self.permission == Permission::ReadWrite
    }
}

impl Default for AccessScope {
    fn default() -> (s: AccessScope)
        ensures
            s.is_default(),
    {
        AccessScope {
            agent_id: String::new(),
            user_id: String::new(),
            session_id: String::new(),
            permission: Permission::default(),
        }
    }
}

impl AccessScope {
    /// A scope for the given agent, user and session.
    pub fn new(agent_id: &str, user_id: &str, session_id: &str, permission: Permission) -> (s: AccessScope)
        ensures
            s.agent_id@ == agent_id@,
            s.user_id@ == user_id@,
            s.session_id@ == session_id@,
            s.permission == permission,
    {
        AccessScope {
            agent_id: string_of(agent_id),
            user_id: string_of(user_id),
            session_id: string_of(session_id),
            permission,
        }
    }
}

} // verus!
