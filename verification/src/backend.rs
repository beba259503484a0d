use vstd::prelude::*;

use crate::ids::{is_uuid_v4_text, new_id};
use crate::text::string_of;
use crate::time::{now, Timestamp};

verus! {

/// Permission for one agent to read another agent's memories, optionally only
/// those carrying one of the listed tags.
#[derive(Clone, Debug)]
pub struct AccessGrant {
    pub id: String,
    pub owner_agent: String,
    pub granted_agent: String,
    pub tags: Vec<String>,
    /// `"ReadOnly"` or `"ReadWrite"`.
    pub permission: String,
    pub created_at: Timestamp,
}

impl AccessGrant {
    /// A new grant from `owner_agent` to `granted_agent`, with a fresh id,
    /// created now.
    pub fn new(owner_agent: &str, granted_agent: &str, tags: Vec<String>, permission: &str) -> (g: AccessGrant)
        ensures
            is_uuid_v4_text(g.id@),
            g.owner_agent@ == owner_agent@,
            g.granted_agent@ == granted_agent@,
            g.tags == tags,
            g.permission@ == permission@,
            g.created_at.wf(),
    {
        AccessGrant {
            id: new_id(),
            owner_agent: string_of(owner_agent),
            granted_agent: string_of(granted_agent),
            tags,
            permission: string_of(permission),
            created_at: now(),
        }
    }
}

} // verus!

verus! {

/// The entries of `s` whose id is not `id`, in order.
pub open spec fn without<E>(s: Seq<(Seq<char>, E)>, id: Seq<char>) -> Seq<(Seq<char>, E)>
    decreases s.len(),
{
    if s.len() == 0 {
        s
    } else {
        let prev = without(s.drop_last(), id);
        if s.last().0 == id {
            prev
        } else {
            prev.push(s.last())
        }
    }
}

/// The (id, embedding) pairs of a list of entries.
pub open spec fn entry_views<E>(v: Seq<(String, E)>) -> Seq<(Seq<char>, E)> {
    v.map_values(|e: (String, E)| (e.0@, e.1))
}

/// An in-memory list of embeddings by memory id, kept beside the database.
#[verifier::reject_recursive_types(E)]
pub struct VectorIndex<E> {
    entries: Vec<(String, E)>,
}

impl<E> VectorIndex<E> {
    /// The (id, embedding) pairs, in insertion order.
    pub closed spec fn view(&self) -> Seq<(Seq<char>, E)> {
        entry_views(self.entries@)
    }

    pub fn new() -> (v: VectorIndex<E>)
        ensures
            v.view() == Seq::<(Seq<char>, E)>::empty(),
    {
        let v = VectorIndex { entries: Vec::new() };
        assert(v.view() =~= Seq::<(Seq<char>, E)>::empty());
        v
    }

    /// The number of entries.
    pub fn len(&self) -> (n: usize)
        ensures
            n == self.view().len(),
    {
        self.entries.len()
    }

    /// Drops every entry for `id`, keeping the others in order.
    pub fn remove(&mut self, id: &str)
        ensures
            final(self).view() == without(old(self).view(), id@),
    {
        let mut rest: Vec<(String, E)> = Vec::new();
        std::mem::swap(&mut rest, &mut self.entries);
        let ghost orig = entry_views(rest@);
        let n0 = rest.len();
        let ghost total = n0 as nat;
        let mut taken: usize = 0;
        assert(entry_views(self.entries@) =~= without(orig.take(0), id@));
        while rest.len() > 0
            invariant
                total == taken + rest@.len(),
                total <= usize::MAX,
                orig.len() == total,
                entry_views(rest@) =~= orig.skip(taken as int),
                entry_views(self.entries@) == without(orig.take(taken as int), id@),
            decreases rest@.len(),
        {
            let ghost before = self.entries@;
            let ghost r0 = rest@;
            let e = rest.remove(0);
            assert(orig[taken as int] == (e.0@, e.1)) by {
                assert(entry_views(r0)[0] == (e.0@, e.1));
            }
            assert(orig.take(taken + 1).drop_last() == orig.take(taken as int));
            assert(orig.take(taken + 1).last() == orig[taken as int]);
            let keep = !crate::text::str_eq(e.0.as_str(), id);
            if keep {
                self.entries.push(e);
                assert(entry_views(self.entries@) =~= entry_views(before).push(orig[taken as int]));
            }
            assert forall|k: int| 0 <= k < rest@.len() implies #[trigger] entry_views(rest@)[k] == orig.skip(taken + 1)[k] by {
                assert(rest@[k] == r0[k + 1]);
                assert(entry_views(r0)[k + 1] == orig.skip(taken as int)[k + 1]);
            }
            taken = taken + 1;
            assert(entry_views(rest@) =~= orig.skip(taken as int));
        }
        assert(orig.take(total as int) == orig);
    }

    /// Stores `embedding` under `id`, replacing any entry for `id`; the new
    /// entry comes last.
    pub fn upsert(&mut self, id: String, embedding: E)
        ensures
            final(self).view() == without(old(self).view(), id@).push((id@, embedding)),
    {
        self.remove(id.as_str());
        let ghost before = self.entries@;
        let ghost idv = id@;
        self.entries.push((id, embedding));
        assert(self.view() =~= without(old(self).view(), idv).push((idv, embedding))) by {
            assert(self.entries@ == before.push((id, embedding)));
        }
    }
}

/// Nothing in what is left after dropping `id` has the id `id`, and every other
/// entry is still there.
pub proof fn lemma_without<E>(s: Seq<(Seq<char>, E)>, id: Seq<char>)
    ensures
        forall|a: int| 0 <= a < without(s, id).len() ==> (#[trigger] without(s, id)[a]).0 != id,
        forall|a: int| 0 <= a < s.len() && s[a].0 != id ==> without(s, id).contains(#[trigger] s[a]),
        forall|a: int| 0 <= a < without(s, id).len() ==> s.contains(#[trigger] without(s, id)[a]),
    decreases s.len(),
{
    if s.len() > 0 {
        lemma_without(s.drop_last(), id);
        let prev = without(s.drop_last(), id);
        let cur = without(s, id);
        assert forall|a: int| 0 <= a < s.len() && s[a].0 != id implies cur.contains(#[trigger] s[a]) by {
            if a < s.len() - 1 {
                assert(s.drop_last()[a] == s[a]);
                let b = choose|b: int| 0 <= b < prev.len() && prev[b] == s[a];
                assert(cur[b] == prev[b]);
            } else {
                assert(cur[cur.len() - 1] == s[a]);
            }
        }
        assert forall|a: int| 0 <= a < cur.len() implies s.contains(#[trigger] cur[a]) by {
            if a < prev.len() {
                assert(cur[a] == prev[a]);
                let b = choose|b: int| 0 <= b < s.drop_last().len() && s.drop_last()[b] == prev[a];
                assert(s[b] == prev[a]);
            } else {
                assert(cur[a] == s[s.len() - 1]);
            }
        }
        assert forall|a: int| 0 <= a < cur.len() implies (#[trigger] cur[a]).0 != id by {
            if a < prev.len() {
                assert(cur[a] == prev[a]);
            }
        }
    }
}

/// After storing an embedding under `id`, the index holds exactly one entry for
/// `id`, with that embedding, and still holds every entry for other ids.
pub proof fn lemma_upsert_then_lookup<E>(s: Seq<(Seq<char>, E)>, id: Seq<char>, embedding: E)
    ensures
        ({
            let t = without(s, id).push((id, embedding));
            &&& t.last() == (id, embedding)
            &&& forall|a: int| 0 <= a < t.len() - 1 ==> (#[trigger] t[a]).0 != id
            &&& forall|a: int| 0 <= a < s.len() && s[a].0 != id ==> t.contains(#[trigger] s[a])
        }),
{
    lemma_without(s, id);
    let w = without(s, id);
    let t = w.push((id, embedding));
    assert forall|a: int| 0 <= a < t.len() - 1 implies (#[trigger] t[a]).0 != id by {
        assert(t[a] == w[a]);
    }
    assert forall|a: int| 0 <= a < s.len() && s[a].0 != id implies t.contains(#[trigger] s[a]) by {
        let b = choose|b: int| 0 <= b < w.len() && w[b] == s[a];
        assert(t[b] == w[b]);
    }
}

} // verus!

verus! {

/// No id occurs twice among `s`.
pub open spec fn ids_unique<E>(s: Seq<(Seq<char>, E)>) -> bool {
    forall|a: int, b: int| 0 <= a < s.len() && 0 <= b < s.len() && a != b ==> #[trigger] s[a].0 != #[trigger] s[b].0
}

proof fn lemma_without_unique<E>(s: Seq<(Seq<char>, E)>, id: Seq<char>)
    requires
        ids_unique(s),
    ensures
        ids_unique(without(s, id)),
    decreases s.len(),
{
    if s.len() > 0 {
        let d = s.drop_last();
        assert(ids_unique(d)) by {
            assert forall|a: int, b: int| 0 <= a < d.len() && 0 <= b < d.len() && a != b implies #[trigger] d[a].0
                != #[trigger] d[b].0 by {
                assert(d[a] == s[a] && d[b] == s[b]);
            }
        }
        lemma_without_unique(d, id);
        lemma_without(d, id);
        let prev = without(d, id);
        if s.last().0 != id {
            let cur = prev.push(s.last());
            assert forall|a: int, b: int| 0 <= a < cur.len() && 0 <= b < cur.len() && a != b implies #[trigger] cur[a].0
                != #[trigger] cur[b].0 by {
                if a < prev.len() && b < prev.len() {
                    assert(cur[a] == prev[a] && cur[b] == prev[b]);
                } else {
                    let k = if a < prev.len() { a } else { b };
                    assert(cur[k] == prev[k]);
                    assert(d.contains(prev[k]));
                    let j = choose|j: int| 0 <= j < d.len() && d[j] == prev[k];
                    assert(s[j] == d[j]);
                    assert(s[s.len() - 1] == s.last());
                }
            }
        }
    }
}

/// Storing and dropping embeddings keeps the index free of repeated ids: if no
/// id occurs twice before, none occurs twice after dropping `id`, nor after
/// storing an embedding under `id`.
pub proof fn lemma_index_ids_stay_unique<E>(s: Seq<(Seq<char>, E)>, id: Seq<char>, embedding: E)
    requires
        ids_unique(s),
    ensures
        ids_unique(without(s, id)),
        ids_unique(without(s, id).push((id, embedding))),
{
    lemma_without_unique(s, id);
    lemma_without(s, id);
    let w = without(s, id);
    let t = w.push((id, embedding));
    assert forall|a: int, b: int| 0 <= a < t.len() && 0 <= b < t.len() && a != b implies #[trigger] t[a].0
        != #[trigger] t[b].0 by {
        if a < w.len() && b < w.len() {
            assert(t[a] == w[a] && t[b] == w[b]);
        } else if a < w.len() {
            assert(t[a] == w[a]);
        } else {
            assert(t[b] == w[b]);
        }
    }
}

} // verus!
