use vstd::prelude::*;

use crate::float_bits::{float_ge, is_nan, order_key};
use crate::ordering::{is_permutation, newest_first, sort_newest_first};
use crate::store::{MemoryRecord, MemoryType};
use crate::text::{contains_string, join, str_eq, string_views, word_overlap, word_set};
use crate::time::Timestamp;

verus! {

/// A square table of which pairs of records are similar enough to count as
/// duplicates: `similar[i][j]` for records `i` and `j`.
pub open spec fn is_pair_table(similar: Seq<Vec<bool>>, n: int) -> bool {
    &&& similar.len() == n
    &&& forall|i: int| 0 <= i < n ==> #[trigger] similar[i].len() == n
}

/// The id of record `i`.
pub open spec fn rec_id(recs: Seq<MemoryRecord>, i: int) -> Seq<char> {
    recs[i].id@
}

/// Whether, of the similar records `i` and `j`, record `i` is the one kept:
/// it is strictly more confident, or equally confident and not older.
pub open spec fn keeps_first(recs: Seq<MemoryRecord>, i: int, j: int) -> bool {
    let ci = recs[i].confidence.bits;
    let cj = recs[j].confidence.bits;
    float_ge(ci, cj) && (!float_ge(cj, ci) || !recs[j].timestamp.spec_after(recs[i].timestamp))
}

/// Comparing record `i` with record `j`: unless `j` is already marked, a similar
/// pair marks `j` when `i` is the one kept, and `i` otherwise.
pub open spec fn compare_pair(
    recs: Seq<MemoryRecord>,
    similar: Seq<Vec<bool>>,
    i: int,
    j: int,
    marked: Seq<Seq<char>>,
) -> Seq<Seq<char>> {
    if marked.contains(rec_id(recs, j)) || !similar[i]@[j] {
        marked
    } else if keeps_first(recs, i, j) {
        marked.push(rec_id(recs, j))
    } else {
        marked.push(rec_id(recs, i))
    }
}

/// The marks after comparing record `i` with records `i + 1 .. j`, in order.
pub open spec fn compare_with_later(
    recs: Seq<MemoryRecord>,
    similar: Seq<Vec<bool>>,
    i: int,
    j: int,
    marked: Seq<Seq<char>>,
) -> Seq<Seq<char>>
    decreases j - i,
{
    if j <= i + 1 {
        marked
    } else {
        compare_pair(recs, similar, i, j - 1, compare_with_later(recs, similar, i, j - 1, marked))
    }
}

/// The marks after the records `0 .. i` have each, unless already marked, been
/// compared with every later record.
pub open spec fn duplicates_upto(recs: Seq<MemoryRecord>, similar: Seq<Vec<bool>>, i: int) -> Seq<
    Seq<char>,
>
    decreases i,
{
    if i <= 0 {
        Seq::empty()
    } else {
        let before = duplicates_upto(recs, similar, i - 1);
        if before.contains(rec_id(recs, i - 1)) {
            before
        } else {
            compare_with_later(recs, similar, i - 1, recs.len() as int, before)
        }
    }
}

/// The ids of the duplicates to remove.
pub open spec fn duplicates(recs: Seq<MemoryRecord>, similar: Seq<Vec<bool>>) -> Seq<Seq<char>> {
    duplicates_upto(recs, similar, recs.len() as int)
}

/// The ids of duplicate memories that should be removed.
///
/// Each record not yet marked is compared with every later record not yet
/// marked. Of a pair that `similar` calls duplicates, the one with the higher
/// confidence is kept and the other marked; when both are equally confident,
/// the one with the later timestamp is kept (the earlier record of the pair when
/// the timestamps are equal too). A pair with a NaN confidence marks the earlier
/// record.
pub fn find_duplicates(records: &Vec<MemoryRecord>, similar: &Vec<Vec<bool>>) -> (r: Vec<String>)
    requires
        is_pair_table(similar@, records.len() as int),
    ensures
        string_views(r@) == duplicates(records@, similar@),
{
    let n = records.len();
    let mut to_remove: Vec<String> = Vec::new();
    for i in 0..n
        invariant
            n == records.len(),
            is_pair_table(similar@, n as int),
            string_views(to_remove@) == duplicates_upto(records@, similar@, i as int),
    {
        if !contains_string(&to_remove, &records[i].id) {
            let ghost start = string_views(to_remove@);
            for j in i + 1..n
                invariant
                    n == records.len(),
                    i < n,
                    is_pair_table(similar@, n as int),
                    string_views(to_remove@) == compare_with_later(records@, similar@, i as int, j as int, start),
            {
                assert(similar@[i as int].len() == n);
                if !contains_string(&to_remove, &records[j].id) && similar[i][j] {
                    let ghost before = to_remove@;
                    let keep_first = if records[i].confidence.ge(&records[j].confidence) {
                        !records[j].confidence.ge(&records[i].confidence)
                            || !records[j].timestamp.after(&records[i].timestamp)
                    } else {
                        false
                    };
                    if keep_first {
                        to_remove.push(records[j].id.clone());
                    } else {
                        to_remove.push(records[i].id.clone());
                    }
                    assert(string_views(to_remove@) =~= string_views(before).push(string_views(to_remove@).last()));
                }
            }
        }
    }
    to_remove
}

/// Every mark is the id of one of the records.
pub open spec fn marks_from_records(recs: Seq<MemoryRecord>, marked: Seq<Seq<char>>) -> bool {
    forall|m: int|
        0 <= m < marked.len() ==> exists|k: int|
            0 <= k < recs.len() && #[trigger] marked[m] == #[trigger] rec_id(recs, k)
}

proof fn lemma_compare_with_later_from_records(
    recs: Seq<MemoryRecord>,
    similar: Seq<Vec<bool>>,
    i: int,
    j: int,
    marked: Seq<Seq<char>>,
)
    requires
        0 <= i < recs.len(),
        j <= recs.len(),
        marks_from_records(recs, marked),
    ensures
        marks_from_records(recs, compare_with_later(recs, similar, i, j, marked)),
    decreases j - i,
{
    if j > i + 1 {
        lemma_compare_with_later_from_records(recs, similar, i, j - 1, marked);
        let before = compare_with_later(recs, similar, i, j - 1, marked);
        let after = compare_pair(recs, similar, i, j - 1, before);
        assert forall|m: int| 0 <= m < after.len() implies exists|k: int|
            0 <= k < recs.len() && #[trigger] after[m] == #[trigger] rec_id(recs, k) by {
            if m == before.len() {
                if after[m] == rec_id(recs, j - 1) {
                    assert(0 <= j - 1 < recs.len());
                } else {
                    assert(after[m] == rec_id(recs, i));
                }
            } else {
                assert(after[m] == before[m]);
            }
        }
    }
}

proof fn lemma_duplicates_upto_from_records(recs: Seq<MemoryRecord>, similar: Seq<Vec<bool>>, i: int)
    requires
        i <= recs.len(),
    ensures
        marks_from_records(recs, duplicates_upto(recs, similar, i)),
    decreases i,
{
    if i > 0 {
        lemma_duplicates_upto_from_records(recs, similar, i - 1);
        let before = duplicates_upto(recs, similar, i - 1);
        if !before.contains(rec_id(recs, i - 1)) {
            lemma_compare_with_later_from_records(recs, similar, i - 1, recs.len() as int, before);
        }
    }
}

/// Only ids of the given records are ever proposed for removal.
pub proof fn lemma_duplicates_are_record_ids(recs: Seq<MemoryRecord>, similar: Seq<Vec<bool>>)
    ensures
        marks_from_records(recs, duplicates(recs, similar)),
{
    lemma_duplicates_upto_from_records(recs, similar, recs.len() as int);
}

/// Every mark is the id of one record of a pair that `similar` calls
/// duplicates.
pub open spec fn marks_from_similar_pairs(
    recs: Seq<MemoryRecord>,
    similar: Seq<Vec<bool>>,
    marked: Seq<Seq<char>>,
) -> bool {
    forall|m: int|
        #![trigger marked[m]]
        0 <= m < marked.len() ==> exists|i: int, j: int|
            0 <= i < j < recs.len() && #[trigger] similar[i]@[j] && (marked[m] == rec_id(recs, i)
                || marked[m] == rec_id(recs, j))
}

proof fn lemma_compare_with_later_from_pairs(
    recs: Seq<MemoryRecord>,
    similar: Seq<Vec<bool>>,
    i: int,
    j: int,
    marked: Seq<Seq<char>>,
)
    requires
        0 <= i < recs.len(),
        j <= recs.len(),
        marks_from_similar_pairs(recs, similar, marked),
    ensures
        marks_from_similar_pairs(recs, similar, compare_with_later(recs, similar, i, j, marked)),
    decreases j - i,
{
    if j > i + 1 {
        lemma_compare_with_later_from_pairs(recs, similar, i, j - 1, marked);
        let before = compare_with_later(recs, similar, i, j - 1, marked);
        let after = compare_pair(recs, similar, i, j - 1, before);
        assert forall|m: int| #![trigger after[m]] 0 <= m < after.len() implies exists|x: int, y: int|
            0 <= x < y < recs.len() && #[trigger] similar[x]@[y] && (after[m] == rec_id(recs, x)
                || after[m] == rec_id(recs, y)) by {
            if m < before.len() {
                assert(after[m] == before[m]);
            } else {
                assert(similar[i]@[j - 1]);
            }
        }
    }
}

proof fn lemma_duplicates_upto_from_pairs(recs: Seq<MemoryRecord>, similar: Seq<Vec<bool>>, i: int)
    requires
        i <= recs.len(),
    ensures
        marks_from_similar_pairs(recs, similar, duplicates_upto(recs, similar, i)),
    decreases i,
{
    if i > 0 {
        lemma_duplicates_upto_from_pairs(recs, similar, i - 1);
        let before = duplicates_upto(recs, similar, i - 1);
        if !before.contains(rec_id(recs, i - 1)) {
            lemma_compare_with_later_from_pairs(recs, similar, i - 1, recs.len() as int, before);
        }
    }
}

/// Only a record that `similar` pairs with another record is ever proposed for
/// removal: every proposed id is that of one of such a pair.
pub proof fn lemma_duplicates_come_from_similar_pairs(recs: Seq<MemoryRecord>, similar: Seq<Vec<bool>>)
    ensures
        marks_from_similar_pairs(recs, similar, duplicates(recs, similar)),
{
    lemma_duplicates_upto_from_pairs(recs, similar, recs.len() as int);
}

/// Every mark comes from a similar pair `(i, j)`, `i < j`, whose first record
/// `i` had not been marked by the comparisons of the records before it.
pub open spec fn marks_from_unmarked_firsts(
    recs: Seq<MemoryRecord>,
    similar: Seq<Vec<bool>>,
    marked: Seq<Seq<char>>,
) -> bool {
    forall|m: int|
        #![trigger marked[m]]
        0 <= m < marked.len() ==> exists|i: int, j: int|
            0 <= i < j < recs.len() && #[trigger] similar[i]@[j] && !duplicates_upto(
                recs,
                similar,
                i,
            ).contains(rec_id(recs, i)) && (marked[m] == rec_id(recs, i) || marked[m] == rec_id(
                recs,
                j,
            ))
}

proof fn lemma_compare_with_later_unmarked_first(
    recs: Seq<MemoryRecord>,
    similar: Seq<Vec<bool>>,
    i: int,
    j: int,
    marked: Seq<Seq<char>>,
)
    requires
        0 <= i < recs.len(),
        j <= recs.len(),
        !duplicates_upto(recs, similar, i).contains(rec_id(recs, i)),
        marks_from_unmarked_firsts(recs, similar, marked),
    ensures
        marks_from_unmarked_firsts(recs, similar, compare_with_later(recs, similar, i, j, marked)),
    decreases j - i,
{
    if j > i + 1 {
        lemma_compare_with_later_unmarked_first(recs, similar, i, j - 1, marked);
        let before = compare_with_later(recs, similar, i, j - 1, marked);
        let after = compare_pair(recs, similar, i, j - 1, before);
        assert forall|m: int| #![trigger after[m]] 0 <= m < after.len() implies exists|x: int, y: int|
            0 <= x < y < recs.len() && #[trigger] similar[x]@[y] && !duplicates_upto(
                recs,
                similar,
                x,
            ).contains(rec_id(recs, x)) && (after[m] == rec_id(recs, x) || after[m] == rec_id(
                recs,
                y,
            )) by {
            if m < before.len() {
                assert(after[m] == before[m]);
            } else {
                assert(similar[i]@[j - 1]);
            }
        }
    }
}

proof fn lemma_duplicates_upto_unmarked_firsts(recs: Seq<MemoryRecord>, similar: Seq<Vec<bool>>, i: int)
    requires
        i <= recs.len(),
    ensures
        marks_from_unmarked_firsts(recs, similar, duplicates_upto(recs, similar, i)),
    decreases i,
{
    if i > 0 {
        lemma_duplicates_upto_unmarked_firsts(recs, similar, i - 1);
        let before = duplicates_upto(recs, similar, i - 1);
        if !before.contains(rec_id(recs, i - 1)) {
            lemma_compare_with_later_unmarked_first(recs, similar, i - 1, recs.len() as int, before);
        }
    }
}

/// A record already marked for removal is not compared again as the first of a
/// pair: every proposed id comes from a similar pair `(i, j)`, `i < j`, whose
/// first record `i` had not been marked by the comparisons of the records
/// before it. So a record whose only duplicate was removed before its turn is
/// kept.
pub proof fn lemma_marked_records_make_no_marks(recs: Seq<MemoryRecord>, similar: Seq<Vec<bool>>)
    ensures
        marks_from_unmarked_firsts(recs, similar, duplicates(recs, similar)),
{
    lemma_duplicates_upto_unmarked_firsts(recs, similar, recs.len() as int);
}

/// No two records are similar enough to be duplicates.
pub open spec fn no_similar_pairs(similar: Seq<Vec<bool>>, n: int) -> bool {
    forall|i: int, j: int| 0 <= i < j < n ==> !#[trigger] similar[i]@[j]
}

proof fn lemma_compare_with_later_unchanged(
    recs: Seq<MemoryRecord>,
    similar: Seq<Vec<bool>>,
    i: int,
    j: int,
    marked: Seq<Seq<char>>,
)
    requires
        0 <= i,
        j <= recs.len(),
        no_similar_pairs(similar, recs.len() as int),
    ensures
        compare_with_later(recs, similar, i, j, marked) == marked,
    decreases j - i,
{
    if j > i + 1 {
        lemma_compare_with_later_unchanged(recs, similar, i, j - 1, marked);
        assert(!similar[i]@[j - 1]);
    }
}

proof fn lemma_duplicates_upto_empty(recs: Seq<MemoryRecord>, similar: Seq<Vec<bool>>, i: int)
    requires
        i <= recs.len(),
        no_similar_pairs(similar, recs.len() as int),
    ensures
        duplicates_upto(recs, similar, i) == Seq::<Seq<char>>::empty(),
    decreases i,
{
    if i > 0 {
        lemma_duplicates_upto_empty(recs, similar, i - 1);
        lemma_compare_with_later_unchanged(
            recs,
            similar,
            i - 1,
            recs.len() as int,
            Seq::<Seq<char>>::empty(),
        );
    }
}

/// When no two records are similar, nothing is proposed for removal.
pub proof fn lemma_no_similar_pairs_no_duplicates(recs: Seq<MemoryRecord>, similar: Seq<Vec<bool>>)
    requires
        no_similar_pairs(similar, recs.len() as int),
    ensures
        duplicates(recs, similar) == Seq::<Seq<char>>::empty(),
{
    lemma_duplicates_upto_empty(recs, similar, recs.len() as int);
}

/// Record `k` is strictly more confident than every other record, and no
/// confidence is NaN.
pub open spec fn uniquely_most_confident(recs: Seq<MemoryRecord>, k: int) -> bool {
    &&& 0 <= k < recs.len()
    &&& forall|o: int| 0 <= o < recs.len() ==> !is_nan(#[trigger] recs[o].confidence.bits)
    &&& forall|o: int|
        0 <= o < recs.len() && o != k ==> order_key(recs[k].confidence.bits) > order_key(
            #[trigger] recs[o].confidence.bits,
        )
}

/// No two records share an id.
pub open spec fn distinct_ids(recs: Seq<MemoryRecord>) -> bool {
    forall|a: int, b: int|
        0 <= a < recs.len() && 0 <= b < recs.len() && a != b ==> rec_id(recs, a) != rec_id(
            recs,
            b,
        )
}

proof fn lemma_compare_with_later_keeps(
    recs: Seq<MemoryRecord>,
    similar: Seq<Vec<bool>>,
    i: int,
    j: int,
    marked: Seq<Seq<char>>,
    k: int,
)
    requires
        0 <= i,
        j <= recs.len(),
        uniquely_most_confident(recs, k),
        distinct_ids(recs),
        !marked.contains(rec_id(recs, k)),
    ensures
        !compare_with_later(recs, similar, i, j, marked).contains(rec_id(recs, k)),
    decreases j - i,
{
    if j > i + 1 {
        lemma_compare_with_later_keeps(recs, similar, i, j - 1, marked, k);
        let before = compare_with_later(recs, similar, i, j - 1, marked);
        let after = compare_pair(recs, similar, i, j - 1, before);
        let _ = recs[i].confidence.bits;
        let _ = recs[j - 1].confidence.bits;
        if after.contains(rec_id(recs, k)) {
            let m = choose|m: int| 0 <= m < after.len() && after[m] == rec_id(recs, k);
            if m < before.len() {
                assert(before[m] == after[m]);
            } else if keeps_first(recs, i, j - 1) {
                assert(after[m] == rec_id(recs, j - 1));
                assert(j - 1 == k);
            } else {
                assert(after[m] == rec_id(recs, i));
                assert(i == k);
            }
        }
    }
}

proof fn lemma_duplicates_upto_keeps(recs: Seq<MemoryRecord>, similar: Seq<Vec<bool>>, i: int, k: int)
    requires
        i <= recs.len(),
        uniquely_most_confident(recs, k),
        distinct_ids(recs),
    ensures
        !duplicates_upto(recs, similar, i).contains(rec_id(recs, k)),
    decreases i,
{
    if i > 0 {
        lemma_duplicates_upto_keeps(recs, similar, i - 1, k);
        let before = duplicates_upto(recs, similar, i - 1);
        if !before.contains(rec_id(recs, i - 1)) {
            lemma_compare_with_later_keeps(recs, similar, i - 1, recs.len() as int, before, k);
        }
    }
}

/// Of records with distinct ids and no NaN confidence, the one that is strictly
/// more confident than all others is never proposed for removal.
pub proof fn lemma_most_confident_is_kept(recs: Seq<MemoryRecord>, similar: Seq<Vec<bool>>, k: int)
    requires
        uniquely_most_confident(recs, k),
        distinct_ids(recs),
    ensures
        !duplicates(recs, similar).contains(rec_id(recs, k)),
{
    lemma_duplicates_upto_keeps(recs, similar, recs.len() as int, k);
}

proof fn lemma_compare_pair_grows(
    recs: Seq<MemoryRecord>,
    similar: Seq<Vec<bool>>,
    i: int,
    j: int,
    marked: Seq<Seq<char>>,
    x: Seq<char>,
)
    requires
        marked.contains(x),
    ensures
        compare_pair(recs, similar, i, j, marked).contains(x),
{
    let m = choose|m: int| 0 <= m < marked.len() && marked[m] == x;
    assert(compare_pair(recs, similar, i, j, marked)[m] == x);
}

proof fn lemma_compare_with_later_grows(
    recs: Seq<MemoryRecord>,
    similar: Seq<Vec<bool>>,
    i: int,
    j: int,
    marked: Seq<Seq<char>>,
    x: Seq<char>,
)
    requires
        marked.contains(x),
    ensures
        compare_with_later(recs, similar, i, j, marked).contains(x),
    decreases j - i,
{
    if j > i + 1 {
        lemma_compare_with_later_grows(recs, similar, i, j - 1, marked, x);
        lemma_compare_pair_grows(recs, similar, i, j - 1, compare_with_later(recs, similar, i, j - 1, marked), x);
    }
}

proof fn lemma_duplicates_upto_grows(
    recs: Seq<MemoryRecord>,
    similar: Seq<Vec<bool>>,
    i: int,
    k: int,
    x: Seq<char>,
)
    requires
        i <= k,
        duplicates_upto(recs, similar, i).contains(x),
    ensures
        duplicates_upto(recs, similar, k).contains(x),
    decreases k - i,
{
    if k > i {
        lemma_duplicates_upto_grows(recs, similar, i, k - 1, x);
        let before = duplicates_upto(recs, similar, k - 1);
        if !before.contains(rec_id(recs, k - 1)) {
            lemma_compare_with_later_grows(recs, similar, k - 1, recs.len() as int, before, x);
        }
    }
}

proof fn lemma_compare_with_later_covers(
    recs: Seq<MemoryRecord>,
    similar: Seq<Vec<bool>>,
    i: int,
    j: int,
    e: int,
    marked: Seq<Seq<char>>,
)
    requires
        i < j < e,
        similar[i]@[j],
    ensures
        compare_with_later(recs, similar, i, e, marked).contains(rec_id(recs, i))
            || compare_with_later(recs, similar, i, e, marked).contains(rec_id(recs, j)),
    decreases e - j,
{
    let before = compare_with_later(recs, similar, i, e - 1, marked);
    let after = compare_with_later(recs, similar, i, e, marked);
    if e == j + 1 {
        if before.contains(rec_id(recs, j)) {
            assert(after == before);
        } else if keeps_first(recs, i, j) {
            assert(after.last() == rec_id(recs, j));
        } else {
            assert(after.last() == rec_id(recs, i));
        }
    } else {
        lemma_compare_with_later_covers(recs, similar, i, j, e - 1, marked);
        if before.contains(rec_id(recs, i)) {
            lemma_compare_pair_grows(recs, similar, i, e - 1, before, rec_id(recs, i));
        } else {
            lemma_compare_pair_grows(recs, similar, i, e - 1, before, rec_id(recs, j));
        }
    }
}

/// Of every pair of records that `similar` calls duplicates, at least one is
/// proposed for removal: once the duplicates are gone, no similar pair is left.
pub proof fn lemma_similar_pairs_covered(recs: Seq<MemoryRecord>, similar: Seq<Vec<bool>>, i: int, j: int)
    requires
        0 <= i < j < recs.len(),
        similar[i]@[j],
    ensures
        duplicates(recs, similar).contains(rec_id(recs, i)) || duplicates(recs, similar).contains(
            rec_id(recs, j),
        ),
{
    let n = recs.len() as int;
    let before = duplicates_upto(recs, similar, i);
    let row = duplicates_upto(recs, similar, i + 1);
    if before.contains(rec_id(recs, i)) {
        assert(row == before);
        lemma_duplicates_upto_grows(recs, similar, i + 1, n, rec_id(recs, i));
    } else {
        lemma_compare_with_later_covers(recs, similar, i, j, n, before);
        if row.contains(rec_id(recs, i)) {
            lemma_duplicates_upto_grows(recs, similar, i + 1, n, rec_id(recs, i));
        } else {
            lemma_duplicates_upto_grows(recs, similar, i + 1, n, rec_id(recs, j));
        }
    }
}

/// Deduplicating a second time removes nothing: take the records whose ids were
/// not proposed for removal, each at most once, and the same similarity between
/// them; no duplicate is found among them. This holds when the records keep
/// their order, and in any order when the similarity is symmetric.
pub proof fn lemma_second_pass_finds_nothing(
    recs: Seq<MemoryRecord>,
    similar: Seq<Vec<bool>>,
    keep: Seq<int>,
    rest: Seq<MemoryRecord>,
    rest_similar: Seq<Vec<bool>>,
)
    requires
        (forall|a: int, b: int| 0 <= a < b < keep.len() ==> #[trigger] keep[a] < #[trigger] keep[b])
            || (forall|x: int, y: int|
            0 <= x < recs.len() && 0 <= y < recs.len() ==> #[trigger] similar[x]@[y] == similar[y]@[x]),
        forall|a: int| 0 <= a < keep.len() ==> 0 <= #[trigger] keep[a] < recs.len(),
        forall|a: int, b: int| 0 <= a < b < keep.len() ==> #[trigger] keep[a] != #[trigger] keep[b],
        forall|a: int|
            0 <= a < keep.len() ==> !duplicates(recs, similar).contains(rec_id(recs, #[trigger] keep[a])),
        rest.len() == keep.len(),
        forall|a: int| 0 <= a < keep.len() ==> #[trigger] rest[a] == recs[keep[a]],
        forall|a: int, b: int|
            0 <= a < keep.len() && 0 <= b < keep.len() ==> #[trigger] rest_similar[a]@[b]
                == similar[keep[a]]@[keep[b]],
    ensures
        duplicates(rest, rest_similar) == Seq::<Seq<char>>::empty(),
{
    assert forall|a: int, b: int| 0 <= a < b < rest.len() implies !#[trigger] rest_similar[a]@[b] by {
        let x = keep[a];
        let y = keep[b];
        if rest_similar[a]@[b] {
            assert(similar[x]@[y]);
            if x < y {
                lemma_similar_pairs_covered(recs, similar, x, y);
            } else {
                assert(similar[y]@[x]);
                lemma_similar_pairs_covered(recs, similar, y, x);
            }
        }
    }
    lemma_no_similar_pairs_no_duplicates(rest, rest_similar);
}

} // verus!

verus! {

/// The positions among records `0 .. k` of the episodic memories of `user`.
pub open spec fn episodes_upto(recs: Seq<MemoryRecord>, user: Seq<char>, k: int) -> Seq<usize>
    decreases k,
{
    if k <= 0 {
        Seq::empty()
    } else {
        let prev = episodes_upto(recs, user, k - 1);
        if recs[k - 1].memory_type == MemoryType::Episodic && recs[k - 1].user_id@ == user {
            prev.push((k - 1) as usize)
        } else {
            prev
        }
    }
}

/// The positions of all episodic memories of `user`, in order.
pub open spec fn episodes(recs: Seq<MemoryRecord>, user: Seq<char>) -> Seq<usize> {
    episodes_upto(recs, user, recs.len() as int)
}

/// The timestamps of the records at positions `idx`.
pub open spec fn stamps_at(recs: Seq<MemoryRecord>, idx: Seq<usize>) -> Seq<Timestamp> {
    idx.map_values(|i: usize| recs[i as int].timestamp)
}

proof fn lemma_episodes_upto_exact(recs: Seq<MemoryRecord>, user: Seq<char>, n: int)
    requires
        0 <= n <= recs.len(),
        recs.len() <= usize::MAX,
    ensures
        ({
            let eps = episodes_upto(recs, user, n);
            &&& forall|a: int|
                0 <= a < eps.len() ==> #[trigger] eps[a] < n && recs[eps[a] as int].memory_type
                    == MemoryType::Episodic && recs[eps[a] as int].user_id@ == user
            &&& forall|k: int|
                0 <= k < n && recs[k].memory_type == MemoryType::Episodic && #[trigger] recs[k].user_id@
                    == user ==> eps.contains(k as usize)
            &&& forall|a: int, b: int| 0 <= a < b < eps.len() ==> #[trigger] eps[a] < #[trigger] eps[b]
        }),
    decreases n,
{
    if n > 0 {
        lemma_episodes_upto_exact(recs, user, n - 1);
        let prev = episodes_upto(recs, user, n - 1);
        let eps = episodes_upto(recs, user, n);
        assert forall|k: int|
            0 <= k < n && recs[k].memory_type == MemoryType::Episodic && #[trigger] recs[k].user_id@
                == user implies eps.contains(k as usize) by {
            if k < n - 1 {
                let a = choose|a: int| 0 <= a < prev.len() && prev[a] == k as usize;
                assert(eps[a] == prev[a]);
            } else {
                assert(eps[eps.len() - 1] == (n - 1) as usize);
            }
        }
    }
}

/// The episodes of a user are exactly that user's episodic memories, in the
/// order of the records: each listed position holds an episodic memory of the
/// user, every episodic memory of the user is listed, and the positions
/// increase. Memories of other types, or of other users, are never summarised.
pub proof fn lemma_episodes_exact(recs: Seq<MemoryRecord>, user: Seq<char>)
    requires
        recs.len() <= usize::MAX,
    ensures
        forall|a: int|
            0 <= a < episodes(recs, user).len() ==> #[trigger] episodes(recs, user)[a] < recs.len()
                && recs[episodes(recs, user)[a] as int].memory_type == MemoryType::Episodic
                && recs[episodes(recs, user)[a] as int].user_id@ == user,
        forall|k: int|
            0 <= k < recs.len() && recs[k].memory_type == MemoryType::Episodic && #[trigger] recs[k].user_id@
                == user ==> episodes(recs, user).contains(k as usize),
        forall|a: int, b: int|
            0 <= a < b < episodes(recs, user).len() ==> #[trigger] episodes(recs, user)[a]
                < #[trigger] episodes(recs, user)[b],
{
    lemma_episodes_upto_exact(recs, user, recs.len() as int);
}

/// How many memories a summary gathers at most.
pub const SUMMARY_LIMIT: usize = 100;

/// The summary text: the contents of the first (at most 100) episodes in the
/// order `p`, joined by `"; "`.
pub open spec fn summary_text(recs: Seq<MemoryRecord>, eps: Seq<usize>, p: Seq<usize>) -> Seq<char> {
    let n = if p.len() < SUMMARY_LIMIT { p.len() as int } else { SUMMARY_LIMIT as int };
    join(Seq::new(n as nat, |a: int| recs[eps[p[a] as int] as int].content@), "; "@)
}

/// The summary of the episodic memories of `user`: the contents of the (at most
/// 100) most recent of them, newest first, joined by `"; "`; `None` when `user`
/// has no episodic memory.
pub fn episodic_summary(records: &Vec<MemoryRecord>, user_id: &str) -> (r: Option<String>)
    ensures
        r.is_none() <==> episodes(records@, user_id@).len() == 0,
        r.is_some() ==> exists|p: Seq<usize>|
            {
                &&& is_permutation(p, episodes(records@, user_id@).len() as int)
                &&& newest_first(stamps_at(records@, episodes(records@, user_id@)), p)
                &&& r.unwrap()@ == summary_text(records@, episodes(records@, user_id@), p)
            },
{
    let n = records.len();
    let mut eps: Vec<usize> = Vec::new();
    let mut stamps: Vec<Timestamp> = Vec::new();
    for i in 0..n
        invariant
            n == records.len(),
            eps@ == episodes_upto(records@, user_id@, i as int),
            stamps@ == stamps_at(records@, eps@),
            forall|a: int| 0 <= a < eps.len() ==> #[trigger] eps@[a] < i,
    {
        if records[i].memory_type == MemoryType::Episodic && str_eq(records[i].user_id.as_str(), user_id) {
            eps.push(i);
            stamps.push(records[i].timestamp);
            assert(stamps@ =~= stamps_at(records@, eps@));
        }
    }
    if eps.len() == 0 {
        return None;
    }
    let order = sort_newest_first(&stamps);
    let m = order.len();
    let take = if m < SUMMARY_LIMIT { m } else { SUMMARY_LIMIT };
    let ghost parts = Seq::new(take as nat, |a: int| records@[eps@[order@[a] as int] as int].content@);
    let mut out = String::new();
    for a in 0..take
        invariant
            take <= m,
            m == order.len(),
            m == eps.len(),
            n == records.len(),
            forall|x: int| 0 <= x < eps.len() ==> #[trigger] eps@[x] < n,
            forall|x: int| 0 <= x < m ==> #[trigger] order@[x] < m,
            parts == Seq::new(take as nat, |a: int| records@[eps@[order@[a] as int] as int].content@),
            out@ == join(parts.take(a as int), "; "@),
    {
        let idx = eps[order[a]];
        assert(parts.take(a + 1).drop_last() == parts.take(a as int));
        if a > 0 {
            out.append("; ");
        }
        out.append(records[idx].content.as_str());
        assert(parts.take(a + 1).last() == records@[idx as int].content@);
    }
    assert(parts.take(take as int) == parts);
    assert(parts =~= Seq::new(take as nat, |a: int| records@[eps@[order@[a] as int] as int].content@));
    assert(out@ == summary_text(records@, eps@, order@));
    assert(eps@ == episodes(records@, user_id@));
    assert(is_permutation(order@, eps@.len() as int) && newest_first(stamps_at(records@, eps@), order@));
    Some(out)
}

} // verus!

verus! {

/// For every ordered pair of records, the shared and the combined distinct
/// words of their contents: `r[i][j]` is `word_overlap` of records `i` and `j`.
pub fn pairwise_overlap(records: &Vec<MemoryRecord>) -> (r: Vec<Vec<(usize, usize)>>)
    requires
        forall|i: int, j: int|
            0 <= i < records.len() && 0 <= j < records.len() ==> #[trigger] records@[i].content@.len()
                + #[trigger] records@[j].content@.len() <= usize::MAX,
    ensures
        r@.len() == records.len(),
        forall|i: int| 0 <= i < records.len() ==> #[trigger] r@[i]@.len() == records.len(),
        forall|i: int, j: int|
            0 <= i < records.len() && 0 <= j < records.len() ==> {
                let a = word_set(records@[i].content@);
                let b = word_set(records@[j].content@);
                #[trigger] r@[i]@[j] == (a.intersect(b).len() as usize, a.union(b).len() as usize)
            },
{
    let n = records.len();
    let mut rows: Vec<Vec<(usize, usize)>> = Vec::new();
    for i in 0..n
        invariant
            n == records.len(),
            forall|i: int, j: int|
                0 <= i < records.len() && 0 <= j < records.len() ==> #[trigger] records@[i].content@.len()
                    + #[trigger] records@[j].content@.len() <= usize::MAX,
            rows@.len() == i,
            forall|x: int| 0 <= x < i ==> #[trigger] rows@[x]@.len() == n,
            forall|x: int, j: int|
                0 <= x < i && 0 <= j < n ==> {
                    let a = word_set(records@[x].content@);
                    let b = word_set(records@[j].content@);
                    #[trigger] rows@[x]@[j] == (a.intersect(b).len() as usize, a.union(b).len() as usize)
                },
    {
        let mut row: Vec<(usize, usize)> = Vec::new();
        for j in 0..n
            invariant
                n == records.len(),
                i < n,
                forall|i: int, j: int|
                    0 <= i < records.len() && 0 <= j < records.len() ==> #[trigger] records@[i].content@.len()
                        + #[trigger] records@[j].content@.len() <= usize::MAX,
                row@.len() == j,
                forall|y: int|
                    0 <= y < j ==> {
                        let a = word_set(records@[i as int].content@);
                        let b = word_set(records@[y].content@);
                        #[trigger] row@[y] == (a.intersect(b).len() as usize, a.union(b).len() as usize)
                    },
        {
            assert(records@[i as int].content@.len() + records@[j as int].content@.len() <= usize::MAX);
            let o = word_overlap(records[i].content.as_str(), records[j].content.as_str());
            row.push(o);
        }
        rows.push(row);
    }
    rows
}

} // verus!
