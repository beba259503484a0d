use vstd::prelude::*;

use crate::backend::AccessGrant;
use crate::consolidation::stamps_at;
use crate::ordering::{
    is_permutation, largest_first, newest_first, no_nan, sort_largest_first, sort_newest_first,
};
use crate::float_bits::{float_ge, FloatBits};
use crate::store::{MemoryRecord, MemoryType};
use crate::text::{contains_string, count_words, str_eq, string_views, words};
use crate::time::{spec_still_live, still_live, ttl_in_range, Timestamp};

verus! {

/// How recalled memories are ordered.
#[derive(Clone, Copy, Debug, PartialEq, Eq, Structural)]
pub enum SortOrder {
    Relevance,
    Recency,
    Importance,
    Hybrid,
}

/// What a recall returns and how it ranks it. The weights and the minimum
/// confidence are single-precision numbers held by their bit patterns.
#[derive(Clone, Debug)]
pub struct RecallOptions {
    pub limit: usize,
    pub token_budget: usize,
    pub min_confidence: FloatBits,
    pub memory_types: Vec<MemoryType>,
    pub include_expired: bool,
    pub sort_by: SortOrder,
    pub recency_weight: FloatBits,
    pub similarity_weight: FloatBits,
    pub importance_weight: FloatBits,
}

/// Bit pattern of `0.2f32`.
pub const POINT_TWO_BITS: u32 = 0x3e4c_cccdu32;

/// Bit pattern of `0.6f32`.
pub const POINT_SIX_BITS: u32 = 0x3f19_999au32;

impl RecallOptions {
    /// The defaults: five memories within 500 tokens, any confidence, all three
    /// memory types, no expired memories, hybrid ranking weighted 0.6 on
    /// similarity and 0.2 each on recency and importance.
    pub open spec fn is_default(&self) -> bool {
        &&& self.limit == 5
        &&& self.token_budget == 500
        &&& self.min_confidence.bits == 0
        &&& self.memory_types@ == seq![
            MemoryType::Episodic,
            MemoryType::Semantic,
            MemoryType::Procedural,
        ]
        &&& !self.include_expired
        &&& self.sort_by == SortOrder::Hybrid
        &&& self.recency_weight.bits == POINT_TWO_BITS
        &&& self.similarity_weight.bits == POINT_SIX_BITS
        &&& self.importance_weight.bits == POINT_TWO_BITS
    }
}

impl Default for RecallOptions {
    fn default() -> (o: RecallOptions)
        ensures
            o.is_default(),
    {
        let mut types: Vec<MemoryType> = Vec::new();
        types.push(MemoryType::Episodic);
        types.push(MemoryType::Semantic);
        types.push(MemoryType::Procedural);
        assert(types@ =~= seq![MemoryType::Episodic, MemoryType::Semantic, MemoryType::Procedural]);
        RecallOptions {
            limit: 5,
            token_budget: 500,
            min_confidence: FloatBits::zero(),
            memory_types: types,
            include_expired: false,
            sort_by: SortOrder::Hybrid,
            recency_weight: FloatBits::from_bits(POINT_TWO_BITS),
            similarity_weight: FloatBits::from_bits(POINT_SIX_BITS),
            importance_weight: FloatBits::from_bits(POINT_TWO_BITS),
        }
    }
}

/// A recalled memory with its score (a single-precision bit pattern) and a
/// text that explains the score.
#[derive(Clone, Debug)]
pub struct RetrievedMemory {
    pub record: MemoryRecord,
    pub score: FloatBits,
    pub explanation: String,
}

/// Whether `tags` holds a tag with the text `t`.
pub open spec fn has_tag(tags: Seq<String>, t: Seq<char>) -> bool {
    string_views(tags).contains(t)
}

/// Whether one of `tags` also occurs in `others`.
pub open spec fn shares_tag(tags: Seq<String>, others: Seq<String>) -> bool {
    exists|k: int| 0 <= k < tags.len() && has_tag(others, #[trigger] tags[k]@)
}

/// Whether `g` lets `agent` read `rec`: it comes from the record's owner, names
/// `agent`, and either lists no tags or lists one of the record's tags.
pub open spec fn grant_covers(g: AccessGrant, rec: MemoryRecord, agent: Seq<char>) -> bool {
    &&& g.owner_agent@ == rec.agent_id@
    &&& g.granted_agent@ == agent
    &&& (g.tags@.len() == 0 || shares_tag(rec.tags@, g.tags@))
}

/// Whether `agent` may read `rec`: it owns it, or some grant covers it.
pub open spec fn accessible(rec: MemoryRecord, grants: Seq<AccessGrant>, agent: Seq<char>) -> bool {
    ||| rec.agent_id@ == agent
    ||| exists|k: int| 0 <= k < grants.len() && grant_covers(#[trigger] grants[k], rec, agent)
}

/// Some tag of `tags` has the same text as some tag of `others`.
pub open spec fn some_common_tag(tags: Seq<String>, others: Seq<String>) -> bool {
    exists|k: int, j: int|
        0 <= k < tags.len() && 0 <= j < others.len() && #[trigger] tags[k]@ == #[trigger] others[j]@
}

proof fn lemma_shares_tag_exactly(tags: Seq<String>, others: Seq<String>)
    ensures
        shares_tag(tags, others) <==> some_common_tag(tags, others),
{
    if shares_tag(tags, others) {
        let k = choose|k: int| 0 <= k < tags.len() && has_tag(others, #[trigger] tags[k]@);
        let j = choose|j: int| 0 <= j < string_views(others).len() && string_views(others)[j] == tags[k]@;
        assert(others[j]@ == tags[k]@);
    }
    if some_common_tag(tags, others) {
        let (k, j) = choose|k: int, j: int|
            0 <= k < tags.len() && 0 <= j < others.len() && #[trigger] tags[k]@ == #[trigger] others[j]@;
        assert(string_views(others)[j] == tags[k]@);
        assert(has_tag(others, tags[k]@));
    }
}

/// A grant covers a record exactly when it comes from the record's owner,
/// names the agent, and either lists no tags or lists a tag that the record
/// carries: one shared tag is enough, the record need not carry them all.
pub proof fn lemma_grant_covers_exactly(g: AccessGrant, rec: MemoryRecord, agent: Seq<char>)
    ensures
        grant_covers(g, rec, agent) <==> {
            &&& g.owner_agent@ == rec.agent_id@
            &&& g.granted_agent@ == agent
            &&& (g.tags@.len() == 0 || exists|k: int, j: int|
                0 <= k < rec.tags@.len() && 0 <= j < g.tags@.len() && #[trigger] rec.tags@[k]@
                    == #[trigger] g.tags@[j]@)
        },
{
    lemma_shares_tag_exactly(rec.tags@, g.tags@);
}

/// Whether `g` comes from `owner`, names `agent`, and lists no tags or a tag
/// that `tags` holds.
pub open spec fn grant_opens(g: AccessGrant, owner: Seq<char>, tags: Seq<String>, agent: Seq<char>) -> bool {
    &&& g.owner_agent@ == owner
    &&& g.granted_agent@ == agent
    &&& (g.tags@.len() == 0 || exists|k: int, j: int|
        0 <= k < tags.len() && 0 <= j < g.tags@.len() && #[trigger] tags[k]@ == #[trigger] g.tags@[j]@)
}

/// An agent may read a record exactly when it owns the record, or some grant
/// from the record's owner to the agent lists no tags or a tag that the record
/// carries.
pub proof fn lemma_accessible_exactly(rec: MemoryRecord, grants: Seq<AccessGrant>, agent: Seq<char>)
    ensures
        accessible(rec, grants, agent) <==> (rec.agent_id@ == agent || exists|x: int|
            0 <= x < grants.len() && grant_opens(#[trigger] grants[x], rec.agent_id@, rec.tags@, agent)),
{
    assert forall|x: int| 0 <= x < grants.len() implies grant_covers(#[trigger] grants[x], rec, agent)
        == grant_opens(grants[x], rec.agent_id@, rec.tags@, agent) by {
        lemma_grant_covers_exactly(grants[x], rec, agent);
    }
}

/// Whether one of `tags` also occurs in `others`.
pub fn tags_overlap(tags: &Vec<String>, others: &Vec<String>) -> (r: bool)
    ensures
        r == shares_tag(tags@, others@),
        r == some_common_tag(tags@, others@),
{
    proof {
        lemma_shares_tag_exactly(tags@, others@);
    }
    let n = tags.len();
    for k in 0..n
        invariant
            n == tags.len(),
            forall|j: int| 0 <= j < k ==> !has_tag(others@, #[trigger] tags@[j]@),
    {
        if contains_string(others, &tags[k]) {
            return true;
        }
    }
    false
}

/// Whether `g` lets `agent` read `rec`.
pub fn covers(g: &AccessGrant, rec: &MemoryRecord, agent: &str) -> (r: bool)
    ensures
        r == grant_covers(*g, *rec, agent@),
{
    str_eq(g.owner_agent.as_str(), rec.agent_id.as_str()) && str_eq(g.granted_agent.as_str(), agent)
        && (g.tags.len() == 0 || tags_overlap(&rec.tags, &g.tags))
}

/// Whether `agent` may read `rec`, given the grants in force.
pub fn is_accessible(rec: &MemoryRecord, grants: &Vec<AccessGrant>, agent: &str) -> (r: bool)
    ensures
        r == accessible(*rec, grants@, agent@),
{
    if str_eq(rec.agent_id.as_str(), agent) {
        return true;
    }
    let n = grants.len();
    for k in 0..n
        invariant
            n == grants.len(),
            forall|j: int| 0 <= j < k ==> !grant_covers(#[trigger] grants@[j], *rec, agent@),
    {
        if covers(&grants[k], rec, agent) {
            return true;
        }
    }
    false
}

/// Whether a recall with `opts` at time `now` keeps `rec` (apart from access):
/// its type is asked for, its confidence reaches the minimum, and unless
/// expired memories are wanted, its time-to-live has not run out.
pub open spec fn passes_filters(rec: MemoryRecord, opts: RecallOptions, now: Timestamp) -> bool {
    &&& opts.memory_types@.contains(rec.memory_type)
    &&& float_ge(rec.confidence.bits, opts.min_confidence.bits)
    &&& (opts.include_expired || match rec.ttl {
        None => true,
        Some(ttl) => spec_still_live(rec.timestamp, ttl, now),
    })
}

/// Whether record `i` is a candidate of the recall.
pub open spec fn is_candidate(
    recs: Seq<MemoryRecord>,
    grants: Seq<AccessGrant>,
    agent: Seq<char>,
    opts: RecallOptions,
    now: Timestamp,
    i: int,
) -> bool {
    accessible(recs[i], grants, agent) && passes_filters(recs[i], opts, now)
}

/// The time-to-live of every record that reaches the expiry check can be
/// added to its timestamp.
pub open spec fn expiry_defined(
    recs: Seq<MemoryRecord>,
    grants: Seq<AccessGrant>,
    agent: Seq<char>,
    opts: RecallOptions,
) -> bool {
    forall|i: int|
        #![trigger recs[i]]
        0 <= i < recs.len() && !opts.include_expired && accessible(recs[i], grants, agent)
            && opts.memory_types@.contains(recs[i].memory_type) && float_ge(
            recs[i].confidence.bits,
            opts.min_confidence.bits,
        ) && recs[i].ttl.is_some() ==> recs[i].timestamp.in_range() && ttl_in_range(
            recs[i].timestamp,
            recs[i].ttl.unwrap(),
        )
}

/// The candidates among records `0 .. k`, in order.
pub open spec fn candidates_upto(
    recs: Seq<MemoryRecord>,
    grants: Seq<AccessGrant>,
    agent: Seq<char>,
    opts: RecallOptions,
    now: Timestamp,
    k: int,
) -> Seq<usize>
    decreases k,
{
    if k <= 0 {
        Seq::empty()
    } else {
        let prev = candidates_upto(recs, grants, agent, opts, now, k - 1);
        if is_candidate(recs, grants, agent, opts, now, k - 1) {
            prev.push((k - 1) as usize)
        } else {
            prev
        }
    }
}

/// Whether `t` is one of the memory types asked for.
fn type_wanted(types: &Vec<MemoryType>, t: MemoryType) -> (r: bool)
    ensures
        r == types@.contains(t),
{
    let n = types.len();
    for k in 0..n
        invariant
            n == types.len(),
            forall|j: int| 0 <= j < k ==> types@[j] != t,
    {
        if types[k] == t {
            return true;
        }
    }
    false
}

/// The positions, in order, of the records that `agent` may read and that the
/// recall's filters keep at time `now`.
pub fn recall_candidates(
    records: &Vec<MemoryRecord>,
    grants: &Vec<AccessGrant>,
    agent: &str,
    opts: &RecallOptions,
    now: &Timestamp,
) -> (r: Vec<usize>)
    requires
        expiry_defined(records@, grants@, agent@, *opts),
    ensures
        r@ == candidates_upto(records@, grants@, agent@, *opts, *now, records.len() as int),
{
    let n = records.len();
    let mut out: Vec<usize> = Vec::new();
    for i in 0..n
        invariant
            n == records.len(),
            expiry_defined(records@, grants@, agent@, *opts),
            out@ == candidates_upto(records@, grants@, agent@, *opts, *now, i as int),
    {
        let rec = &records[i];
        let keep = if !is_accessible(rec, grants, agent) {
            false
        } else if !type_wanted(&opts.memory_types, rec.memory_type) {
            false
        } else if !rec.confidence.ge(&opts.min_confidence) {
            false
        } else if opts.include_expired {
            true
        } else {
            match rec.ttl {
                None => true,
                Some(ttl) => still_live(&rec.timestamp, ttl, now),
            }
        };
        if keep {
            out.push(i);
        }
    }
    out
}

/// The number of tokens a memory is counted as: the words of its content.
pub open spec fn token_count(rec: MemoryRecord) -> int {
    words(rec.content@).len() as int
}

/// The tokens used and the memories picked after going through the first `i`
/// entries of `order`: an entry is picked when it still fits in the budget, and
/// going through stops once `limit` memories are picked.
pub open spec fn pick_upto(
    recs: Seq<MemoryRecord>,
    order: Seq<usize>,
    budget: usize,
    limit: usize,
    i: int,
) -> (int, Seq<usize>)
    decreases i,
{
    if i <= 0 {
        (0, Seq::empty())
    } else {
        let (used, picked) = pick_upto(recs, order, budget, limit, i - 1);
        let cost = token_count(recs[order[i - 1] as int]);
        if picked.len() >= limit || used + cost > budget {
            (used, picked)
        } else {
            (used + cost, picked.push(order[i - 1]))
        }
    }
}

proof fn lemma_pick_stopped(
    recs: Seq<MemoryRecord>,
    order: Seq<usize>,
    budget: usize,
    limit: usize,
    i: int,
    j: int,
)
    requires
        0 <= i <= j,
        pick_upto(recs, order, budget, limit, i).1.len() >= limit,
    ensures
        pick_upto(recs, order, budget, limit, j) == pick_upto(recs, order, budget, limit, i),
    decreases j - i,
{
    if j > i {
        lemma_pick_stopped(recs, order, budget, limit, i, j - 1);
    }
}

proof fn lemma_pick_used_bounded(
    recs: Seq<MemoryRecord>,
    order: Seq<usize>,
    budget: usize,
    limit: usize,
    i: int,
)
    ensures
        0 <= pick_upto(recs, order, budget, limit, i).0 <= budget,
        pick_upto(recs, order, budget, limit, i).1.len() <= limit,
    decreases i,
{
    if i > 0 {
        lemma_pick_used_bounded(recs, order, budget, limit, i - 1);
    }
}

/// Goes through `order` (positions of `records`) and picks, in that order, each
/// memory whose words still fit in `budget`, stopping once `limit` memories are
/// picked.
pub fn pick_within_budget(records: &Vec<MemoryRecord>, order: &Vec<usize>, budget: usize, limit: usize) -> (r:
    Vec<usize>)
    requires
        forall|i: int| 0 <= i < order.len() ==> #[trigger] order@[i] < records.len(),
    ensures
        r@ == pick_upto(records@, order@, budget, limit, order.len() as int).1,
{
    let m = order.len();
    let mut used: usize = 0;
    let mut picked: Vec<usize> = Vec::new();
    let mut i: usize = 0;
    while i < m && picked.len() < limit
        invariant
            m == order.len(),
            forall|i: int| 0 <= i < order.len() ==> #[trigger] order@[i] < records.len(),
            i <= m,
            (used as int, picked@) == pick_upto(records@, order@, budget, limit, i as int),
        decreases m - i,
    {
        proof {
            lemma_pick_used_bounded(records@, order@, budget, limit, i as int);
        }
        let idx = order[i];
        let cost = count_words(records[idx].content.as_str());
        if cost <= budget - used {
            used = used + cost;
            picked.push(idx);
        }
        i = i + 1;
    }
    proof {
        if i < m {
            lemma_pick_stopped(records@, order@, budget, limit, i as int, m as int);
        }
    }
    picked
}

/// The words of the picked memories add up to the sum of their token counts.
pub open spec fn tokens_of(recs: Seq<MemoryRecord>, picked: Seq<usize>) -> int
    decreases picked.len(),
{
    if picked.len() == 0 {
        0
    } else {
        tokens_of(recs, picked.drop_last()) + token_count(recs[picked.last() as int])
    }
}

proof fn lemma_pick_tokens(
    recs: Seq<MemoryRecord>,
    order: Seq<usize>,
    budget: usize,
    limit: usize,
    i: int,
)
    ensures
        pick_upto(recs, order, budget, limit, i).0 == tokens_of(
            recs,
            pick_upto(recs, order, budget, limit, i).1,
        ),
    decreases i,
{
    if i > 0 {
        lemma_pick_tokens(recs, order, budget, limit, i - 1);
        let (used, picked) = pick_upto(recs, order, budget, limit, i - 1);
        assert(picked.push(order[i - 1]).drop_last() == picked);
    }
}

/// What a recall returns stays within its token budget and within its limit.
pub proof fn lemma_recall_within_budget(
    recs: Seq<MemoryRecord>,
    order: Seq<usize>,
    budget: usize,
    limit: usize,
)
    ensures
        tokens_of(recs, pick_upto(recs, order, budget, limit, order.len() as int).1) <= budget,
        pick_upto(recs, order, budget, limit, order.len() as int).1.len() <= limit,
{
    lemma_pick_used_bounded(recs, order, budget, limit, order.len() as int);
    lemma_pick_tokens(recs, order, budget, limit, order.len() as int);
}

} // verus!

verus! {

proof fn lemma_candidates_upto_exact(
    recs: Seq<MemoryRecord>,
    grants: Seq<AccessGrant>,
    agent: Seq<char>,
    opts: RecallOptions,
    now: Timestamp,
    k: int,
)
    requires
        0 <= k <= recs.len(),
        recs.len() <= usize::MAX,
    ensures
        forall|a: int|
            0 <= a < candidates_upto(recs, grants, agent, opts, now, k).len() ==> {
                let i = #[trigger] candidates_upto(recs, grants, agent, opts, now, k)[a] as int;
                0 <= i < k && is_candidate(recs, grants, agent, opts, now, i)
            },
        forall|i: int|
            0 <= i < k && is_candidate(recs, grants, agent, opts, now, i) ==> candidates_upto(
                recs,
                grants,
                agent,
                opts,
                now,
                k,
            ).contains(i as usize),
        forall|a: int, b: int|
            0 <= a < b < candidates_upto(recs, grants, agent, opts, now, k).len() ==> #[trigger] candidates_upto(
                recs,
                grants,
                agent,
                opts,
                now,
                k,
            )[a] < #[trigger] candidates_upto(recs, grants, agent, opts, now, k)[b],
    decreases k,
{
    if k > 0 {
        lemma_candidates_upto_exact(recs, grants, agent, opts, now, k - 1);
        let prev = candidates_upto(recs, grants, agent, opts, now, k - 1);
        let cur = candidates_upto(recs, grants, agent, opts, now, k);
        assert forall|a: int| 0 <= a < cur.len() implies {
            let i = #[trigger] cur[a] as int;
            0 <= i < k && is_candidate(recs, grants, agent, opts, now, i)
        } by {
            if a < prev.len() {
                assert(cur[a] == prev[a]);
            } else {
                assert(cur[a] == (k - 1) as usize);
            }
        }
        assert forall|a: int, b: int| 0 <= a < b < cur.len() implies #[trigger] cur[a] < #[trigger] cur[b] by {
            if b < prev.len() {
                assert(cur[a] == prev[a] && cur[b] == prev[b]);
            } else {
                assert(cur[a] == prev[a]);
                assert(prev[a] < k - 1);
            }
        }
        assert forall|i: int|
            0 <= i < k && is_candidate(recs, grants, agent, opts, now, i) implies cur.contains(
            i as usize,
        ) by {
            if i < k - 1 {
                assert(prev.contains(i as usize));
                let a = choose|a: int| 0 <= a < prev.len() && prev[a] == i as usize;
                assert(cur[a] == prev[a]);
            } else {
                assert(cur[cur.len() - 1] == i as usize);
            }
        }
    }
}

/// The candidates of a recall are, in the order of the input, exactly the records
/// that the agent may read and that pass the recall's filters.
pub proof fn lemma_candidates_exact(
    recs: Seq<MemoryRecord>,
    grants: Seq<AccessGrant>,
    agent: Seq<char>,
    opts: RecallOptions,
    now: Timestamp,
)
    requires
        recs.len() <= usize::MAX,
    ensures
        ({
            let c = candidates_upto(recs, grants, agent, opts, now, recs.len() as int);
            &&& forall|a: int|
                0 <= a < c.len() ==> 0 <= #[trigger] c[a] < recs.len() && is_candidate(
                    recs,
                    grants,
                    agent,
                    opts,
                    now,
                    c[a] as int,
                )
            &&& forall|i: int|
                0 <= i < recs.len() && is_candidate(recs, grants, agent, opts, now, i) ==> c.contains(
                    i as usize,
                )
            &&& forall|a: int, b: int| 0 <= a < b < c.len() ==> #[trigger] c[a] < #[trigger] c[b]
        }),
{
    lemma_candidates_upto_exact(recs, grants, agent, opts, now, recs.len() as int);
}

} // verus!

verus! {

/// The positions listed in `candidates`, newest first (equal stamps keep their
/// order): the ranking of a recall sorted by recency.
pub fn recency_order(records: &Vec<MemoryRecord>, candidates: &Vec<usize>) -> (r: Vec<usize>)
    requires
        forall|a: int| 0 <= a < candidates.len() ==> #[trigger] candidates@[a] < records.len(),
    ensures
        exists|p: Seq<usize>|
            {
                &&& is_permutation(p, candidates.len() as int)
                &&& newest_first(stamps_at(records@, candidates@), p)
                &&& r@ == p.map_values(|x: usize| candidates@[x as int])
            },
{
    let m = candidates.len();
    let mut stamps: Vec<Timestamp> = Vec::new();
    for a in 0..m
        invariant
            m == candidates.len(),
            forall|a: int| 0 <= a < candidates.len() ==> #[trigger] candidates@[a] < records.len(),
            stamps@ == stamps_at(records@, candidates@.take(a as int)),
    {
        stamps.push(records[candidates[a]].timestamp);
        assert(stamps_at(records@, candidates@.take(a + 1)) =~= stamps_at(records@, candidates@.take(a as int)).push(
            records@[candidates@[a as int] as int].timestamp,
        ));
    }
    assert(candidates@.take(m as int) == candidates@);
    let p = sort_newest_first(&stamps);
    let mut out: Vec<usize> = Vec::new();
    for a in 0..m
        invariant
            m == candidates.len(),
            m == p.len(),
            forall|x: int| 0 <= x < m ==> #[trigger] p@[x] < m,
            out@ == p@.take(a as int).map_values(|x: usize| candidates@[x as int]),
    {
        out.push(candidates[p[a]]);
        assert(p@.take(a + 1).map_values(|x: usize| candidates@[x as int]) =~= p@.take(a as int).map_values(
            |x: usize| candidates@[x as int],
        ).push(candidates@[p@[a as int] as int]));
    }
    assert(p@.take(m as int) == p@);
    out
}

} // verus!

verus! {

/// Removing grants never gives access: whatever an agent may read under fewer
/// grants, it may read under more.
pub proof fn lemma_access_monotone(
    rec: MemoryRecord,
    fewer: Seq<AccessGrant>,
    more: Seq<AccessGrant>,
    agent: Seq<char>,
)
    requires
        forall|k: int| 0 <= k < fewer.len() ==> more.contains(#[trigger] fewer[k]),
    ensures
        accessible(rec, fewer, agent) ==> accessible(rec, more, agent),
{
    if accessible(rec, fewer, agent) && rec.agent_id@ != agent {
        let k = choose|k: int| 0 <= k < fewer.len() && grant_covers(#[trigger] fewer[k], rec, agent);
        assert(more.contains(fewer[k]));
        let j = choose|j: int| 0 <= j < more.len() && more[j] == fewer[k];
        assert(grant_covers(more[j], rec, agent));
    }
}

/// The positions in `order` of the entries picked after going through its first
/// `i` entries.
spec fn pick_positions(recs: Seq<MemoryRecord>, order: Seq<usize>, budget: usize, limit: usize, i: int) -> Seq<
    int,
>
    decreases i,
{
    if i <= 0 {
        Seq::empty()
    } else {
        let prev = pick_positions(recs, order, budget, limit, i - 1);
        let (used, picked) = pick_upto(recs, order, budget, limit, i - 1);
        let cost = token_count(recs[order[i - 1] as int]);
        if picked.len() >= limit || used + cost > budget {
            prev
        } else {
            prev.push(i - 1)
        }
    }
}

proof fn lemma_pick_positions(recs: Seq<MemoryRecord>, order: Seq<usize>, budget: usize, limit: usize, i: int)
    requires
        0 <= i <= order.len(),
    ensures
        ({
            let pos = pick_positions(recs, order, budget, limit, i);
            let picked = pick_upto(recs, order, budget, limit, i).1;
            &&& pos.len() == picked.len()
            &&& forall|a: int|
                0 <= a < pos.len() ==> 0 <= #[trigger] pos[a] < i && picked[a] == order[pos[a]]
            &&& forall|a: int, b: int| 0 <= a < b < pos.len() ==> #[trigger] pos[a] < #[trigger] pos[b]
        }),
    decreases i,
{
    if i > 0 {
        lemma_pick_positions(recs, order, budget, limit, i - 1);
    }
}

/// Whether `picked` lists entries of `order` in the order they stand there: each
/// is the entry at a position, and the positions strictly increase.
pub open spec fn keeps_order_of(picked: Seq<usize>, order: Seq<usize>) -> bool {
    exists|pos: Seq<int>|
        {
            &&& pos.len() == picked.len()
            &&& forall|a: int|
                0 <= a < pos.len() ==> 0 <= #[trigger] pos[a] < order.len() && picked[a] == order[pos[a]]
            &&& forall|a: int, b: int| 0 <= a < b < pos.len() ==> #[trigger] pos[a] < #[trigger] pos[b]
        }
}

/// A recall only returns memories from the ranking it was given, and returns
/// them in the ranking's order.
pub proof fn lemma_recall_picks_from_ranking(
    recs: Seq<MemoryRecord>,
    order: Seq<usize>,
    budget: usize,
    limit: usize,
)
    ensures
        forall|a: int|
            0 <= a < pick_upto(recs, order, budget, limit, order.len() as int).1.len() ==> order.contains(
                #[trigger] pick_upto(recs, order, budget, limit, order.len() as int).1[a],
            ),
        keeps_order_of(pick_upto(recs, order, budget, limit, order.len() as int).1, order),
{
    let n = order.len() as int;
    lemma_pick_positions(recs, order, budget, limit, n);
    let pos = pick_positions(recs, order, budget, limit, n);
    let picked = pick_upto(recs, order, budget, limit, n).1;
    assert forall|a: int| 0 <= a < picked.len() implies order.contains(#[trigger] picked[a]) by {
        assert(0 <= pos[a] < n && picked[a] == order[pos[a]]);
    }
}

proof fn lemma_tokens_prefix(recs: Seq<MemoryRecord>, order: Seq<usize>, i: int)
    requires
        0 <= i <= order.len(),
    ensures
        tokens_of(recs, order.take(i)) <= tokens_of(recs, order),
    decreases order.len() - i,
{
    if i < order.len() {
        lemma_tokens_prefix(recs, order, i + 1);
        assert(order.take(i + 1).drop_last() == order.take(i));
    } else {
        assert(order.take(i) == order);
    }
}

proof fn lemma_pick_all_upto(recs: Seq<MemoryRecord>, order: Seq<usize>, budget: usize, limit: usize, i: int)
    requires
        0 <= i <= order.len(),
        tokens_of(recs, order) <= budget,
        order.len() <= limit,
    ensures
        pick_upto(recs, order, budget, limit, i) == (tokens_of(recs, order.take(i)), order.take(i)),
    decreases i,
{
    if i > 0 {
        lemma_pick_all_upto(recs, order, budget, limit, i - 1);
        lemma_tokens_prefix(recs, order, i);
        assert(order.take(i).drop_last() == order.take(i - 1));
        assert(order.take(i - 1).push(order[i - 1]) == order.take(i));
    } else {
        assert(order.take(0) == Seq::<usize>::empty());
    }
}

/// When the whole ranking fits within the token budget and the limit, a recall
/// returns all of it, in its order: every candidate comes back.
pub proof fn lemma_recall_returns_all_that_fit(
    recs: Seq<MemoryRecord>,
    order: Seq<usize>,
    budget: usize,
    limit: usize,
)
    requires
        tokens_of(recs, order) <= budget,
        order.len() <= limit,
    ensures
        pick_upto(recs, order, budget, limit, order.len() as int).1 == order,
{
    lemma_pick_all_upto(recs, order, budget, limit, order.len() as int);
    assert(order.take(order.len() as int) == order);
}

} // verus!

verus! {

/// The confidences of the records at positions `idx`.
pub open spec fn confidences_at(recs: Seq<MemoryRecord>, idx: Seq<usize>) -> Seq<FloatBits> {
    idx.map_values(|i: usize| recs[i as int].confidence)
}

/// `r` lists `candidates` in the order that `sort_by` asks for: newest first
/// for recency, most confident first for importance, highest score first
/// otherwise; ties keep the candidates' order.
pub open spec fn ranked(
    recs: Seq<MemoryRecord>,
    candidates: Seq<usize>,
    scores: Seq<FloatBits>,
    sort_by: SortOrder,
    r: Seq<usize>,
) -> bool {
    exists|p: Seq<usize>|
        {
            &&& is_permutation(p, candidates.len() as int)
            &&& r == p.map_values(|x: usize| candidates[x as int])
            &&& match sort_by {
                SortOrder::Recency => newest_first(stamps_at(recs, candidates), p),
                SortOrder::Importance => largest_first(confidences_at(recs, candidates), p),
                _ => largest_first(scores, p),
            }
        }
}

/// `candidates` taken in the order `p`.
fn in_order(candidates: &Vec<usize>, p: &Vec<usize>) -> (r: Vec<usize>)
    requires
        is_permutation(p@, candidates.len() as int),
    ensures
        r@ == p@.map_values(|x: usize| candidates@[x as int]),
{
    let m = p.len();
    let mut out: Vec<usize> = Vec::new();
    for a in 0..m
        invariant
            m == p.len(),
            is_permutation(p@, candidates.len() as int),
            out@ == p@.take(a as int).map_values(|x: usize| candidates@[x as int]),
    {
        out.push(candidates[p[a]]);
        assert(p@.take(a + 1).map_values(|x: usize| candidates@[x as int]) =~= p@.take(a as int).map_values(
            |x: usize| candidates@[x as int],
        ).push(candidates@[p@[a as int] as int]));
    }
    assert(p@.take(m as int) == p@);
    out
}

/// Ranks the candidates of a recall as `sort_by` asks: by time stamp for
/// recency, by confidence for importance, by `scores` (one per candidate)
/// for relevance and the hybrid ranking. The sort is stable and descending;
/// numbers compared must not be NaN once there are two of them.
pub fn rank_candidates(
    records: &Vec<MemoryRecord>,
    candidates: &Vec<usize>,
    scores: &Vec<FloatBits>,
    sort_by: SortOrder,
) -> (r: Vec<usize>)
    requires
        forall|a: int| 0 <= a < candidates.len() ==> #[trigger] candidates@[a] < records.len(),
        scores.len() == candidates.len(),
        sort_by == SortOrder::Importance ==> candidates.len() < 2 || no_nan(
            confidences_at(records@, candidates@),
        ),
        sort_by == SortOrder::Relevance || sort_by == SortOrder::Hybrid ==> scores.len() < 2
            || no_nan(scores@),
    ensures
        ranked(records@, candidates@, scores@, sort_by, r@),
{
    match sort_by {
        SortOrder::Recency => recency_order(records, candidates),
        SortOrder::Importance => {
            let m = candidates.len();
            let mut conf: Vec<FloatBits> = Vec::new();
            for a in 0..m
                invariant
                    m == candidates.len(),
                    forall|a: int| 0 <= a < candidates.len() ==> #[trigger] candidates@[a] < records.len(),
                    conf@ == confidences_at(records@, candidates@.take(a as int)),
            {
                conf.push(records[candidates[a]].confidence);
                assert(confidences_at(records@, candidates@.take(a + 1)) =~= confidences_at(
                    records@,
                    candidates@.take(a as int),
                ).push(records@[candidates@[a as int] as int].confidence));
            }
            assert(candidates@.take(m as int) == candidates@);
            let p = sort_largest_first(&conf);
            let r = in_order(candidates, &p);
            assert(ranked(records@, candidates@, scores@, sort_by, r@)) by {
                assert(largest_first(confidences_at(records@, candidates@), p@));
            }
            r
        },
        _ => {
            let p = sort_largest_first(scores);
            let r = in_order(candidates, &p);
            assert(ranked(records@, candidates@, scores@, sort_by, r@)) by {
                assert(largest_first(scores@, p@));
            }
            r
        },
    }
}

} // verus!

verus! {

/// A recall returns only memories that the agent may read and that pass the
/// recall's filters: whatever ranking of the candidates is used, every memory
/// picked within the budget is a candidate.
pub proof fn lemma_recall_returns_candidates(
    recs: Seq<MemoryRecord>,
    grants: Seq<AccessGrant>,
    agent: Seq<char>,
    opts: RecallOptions,
    now: Timestamp,
    scores: Seq<FloatBits>,
    order: Seq<usize>,
)
    requires
        recs.len() <= usize::MAX,
        ranked(
            recs,
            candidates_upto(recs, grants, agent, opts, now, recs.len() as int),
            scores,
            opts.sort_by,
            order,
        ),
    ensures
        ({
            let picked = pick_upto(recs, order, opts.token_budget, opts.limit, order.len() as int).1;
            forall|a: int|
                0 <= a < picked.len() ==> 0 <= #[trigger] picked[a] < recs.len() && is_candidate(
                    recs,
                    grants,
                    agent,
                    opts,
                    now,
                    picked[a] as int,
                )
        }),
{
    let cands = candidates_upto(recs, grants, agent, opts, now, recs.len() as int);
    lemma_candidates_exact(recs, grants, agent, opts, now);
    lemma_recall_picks_from_ranking(recs, order, opts.token_budget, opts.limit);
    let p = choose|p: Seq<usize>|
        {
            &&& is_permutation(p, cands.len() as int)
            &&& order == p.map_values(|x: usize| cands[x as int])
            &&& match opts.sort_by {
                SortOrder::Recency => newest_first(stamps_at(recs, cands), p),
                SortOrder::Importance => largest_first(confidences_at(recs, cands), p),
                _ => largest_first(scores, p),
            }
        };
    let picked = pick_upto(recs, order, opts.token_budget, opts.limit, order.len() as int).1;
    assert forall|a: int| 0 <= a < picked.len() implies 0 <= #[trigger] picked[a] < recs.len()
        && is_candidate(recs, grants, agent, opts, now, picked[a] as int) by {
        assert(order.contains(picked[a]));
        let b = choose|b: int| 0 <= b < order.len() && order[b] == picked[a];
        assert(order[b] == cands[p[b] as int]);
        assert(p[b] < cands.len());
    }
}

} // verus!
