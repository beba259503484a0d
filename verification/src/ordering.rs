use vstd::prelude::*;

use crate::float_bits::{float_ge, is_nan, order_key, FloatBits};
use crate::time::Timestamp;

verus! {

/// `a` is at least as recent as `b`.
pub open spec fn not_older(a: Timestamp, b: Timestamp) -> bool {
    !b.spec_after(a)
}

/// `p` lists each of the positions `0 .. n` exactly once.
pub open spec fn is_permutation(p: Seq<usize>, n: int) -> bool {
    &&& p.len() == n
    &&& forall|a: int| 0 <= a < n ==> #[trigger] p[a] < n
    &&& p.no_duplicates()
}

/// `p` orders the positions of `stamps` newest first, and positions with equal
/// stamps keep their relative order from the input.
pub open spec fn newest_first(stamps: Seq<Timestamp>, p: Seq<usize>) -> bool {
    &&& forall|a: int, b: int|
        0 <= a < b < p.len() ==> not_older(stamps[#[trigger] p[a] as int], stamps[#[trigger] p[b] as int])
    &&& forall|a: int, b: int|
        0 <= a < b < p.len() && stamps[p[a] as int] == stamps[p[b] as int] ==> #[trigger] p[a] < #[trigger] p[b]
}

/// `p` orders the positions of `keys` by descending key, and positions with
/// equal keys keep their relative order from the input.
pub open spec fn key_desc(keys: Seq<i128>, p: Seq<usize>) -> bool {
    &&& forall|a: int, b: int|
        0 <= a < b < p.len() ==> keys[#[trigger] p[a] as int] >= keys[#[trigger] p[b] as int]
    &&& forall|a: int, b: int|
        0 <= a < b < p.len() && keys[p[a] as int] == keys[p[b] as int] ==> #[trigger] p[a] < #[trigger] p[b]
}

/// The positions of `keys`, largest key first; equal keys keep their order
/// (a stable sort by descending key).
pub fn sort_by_key_desc(keys: &Vec<i128>) -> (p: Vec<usize>)
    ensures
        is_permutation(p@, keys.len() as int),
        key_desc(keys@, p@),
{
    let n = keys.len();
    let mut p: Vec<usize> = Vec::new();
    for k in 0..n
        invariant
            n == keys.len(),
            is_permutation(p@, k as int),
            key_desc(keys@, p@),
    {
        // first position holding a strictly smaller key than keys[k]
        let mut pos: usize = 0;
        while pos < p.len() && keys[k] <= keys[p[pos]]
            invariant
                n == keys.len(),
                k < n,
                is_permutation(p@, k as int),
                key_desc(keys@, p@),
                pos <= p.len(),
                forall|a: int| 0 <= a < pos ==> keys@[#[trigger] p@[a] as int] >= keys@[k as int],
            decreases p.len() - pos,
        {
            pos = pos + 1;
        }
        let ghost old_p = p@;
        proof {
            // everything from `pos` on has a strictly smaller key than keys[k]
            assert forall|a: int| pos <= a < old_p.len() implies keys@[k as int] > keys@[#[trigger] old_p[a] as int] by {
                if a > pos {
                    assert(keys@[old_p[pos as int] as int] >= keys@[old_p[a] as int]);
                }
            }
        }
        p.insert(pos, k);
        proof {
            let q = p@;
            assert(q == old_p.insert(pos as int, k));
            assert forall|a: int| 0 <= a < k + 1 implies #[trigger] q[a] < k + 1 by {
                if a < pos {
                    assert(q[a] == old_p[a]);
                } else if a > pos {
                    assert(q[a] == old_p[a - 1]);
                }
            }
            assert(q.no_duplicates()) by {
                assert forall|a: int, b: int| 0 <= a < q.len() && 0 <= b < q.len() && a != b implies q[a]
                    != q[b] by {
                    if a != pos && b != pos {
                        let oa = if a < pos { a } else { a - 1 };
                        let ob = if b < pos { b } else { b - 1 };
                        assert(q[a] == old_p[oa]);
                        assert(q[b] == old_p[ob]);
                    } else if a == pos {
                        let ob = if b < pos { b } else { b - 1 };
                        assert(q[b] == old_p[ob]);
                        assert(old_p[ob] < k);
                    } else {
                        let oa = if a < pos { a } else { a - 1 };
                        assert(q[a] == old_p[oa]);
                        assert(old_p[oa] < k);
                    }
                }
            }
            assert forall|a: int, b: int| 0 <= a < b < q.len() implies keys@[#[trigger] q[a] as int] >= keys@[#[trigger] q[b] as int] by {
                let oa = if a < pos { a } else { a - 1 };
                let ob = if b < pos { b } else { b - 1 };
                if a != pos && b != pos {
                    assert(q[a] == old_p[oa]);
                    assert(q[b] == old_p[ob]);
                } else if a == pos {
                    assert(q[b] == old_p[ob]);
                    assert(keys@[k as int] > keys@[old_p[ob] as int]);
                } else {
                    assert(q[a] == old_p[oa]);
                }
            }
            assert forall|a: int, b: int|
                0 <= a < b < q.len() && keys@[q[a] as int] == keys@[q[b] as int] implies #[trigger] q[a]
                < #[trigger] q[b] by {
                let oa = if a < pos { a } else { a - 1 };
                let ob = if b < pos { b } else { b - 1 };
                if a != pos && b != pos {
                    assert(q[a] == old_p[oa]);
                    assert(q[b] == old_p[ob]);
                } else if a == pos {
                    assert(q[b] == old_p[ob]);
                    assert(keys@[k as int] > keys@[old_p[ob] as int]);
                } else {
                    assert(q[a] == old_p[oa]);
                    assert(old_p[oa] < k);
                }
            }
        }
    }
    p
}

} // verus!

verus! {

/// A permutation of `0 .. n` holds every position of `0 .. n`.
proof fn lemma_permutation_covers(p: Seq<usize>, n: int, x: int)
    requires
        is_permutation(p, n),
        0 <= x < n,
    ensures
        p.contains(x as usize),
{
    let vals = p.map_values(|v: usize| v as int).to_set();
    let range = Set::new(|i: int| 0 <= i < n);
    assert(p.map_values(|v: usize| v as int).no_duplicates()) by {
        let m = p.map_values(|v: usize| v as int);
        assert forall|a: int, b: int| 0 <= a < m.len() && 0 <= b < m.len() && a != b implies m[a] != m[b] by {
            assert(p[a] != p[b]);
        }
    }
    p.map_values(|v: usize| v as int).unique_seq_to_set();
    vstd::set_lib::lemma_int_range(0, n);
    assert(range =~= vstd::set_lib::set_int_range(0, n));
    assert(vals.subset_of(range)) by {
        assert forall|v: int| vals.contains(v) implies range.contains(v) by {
            let m = p.map_values(|w: usize| w as int);
            let a = choose|a: int| 0 <= a < m.len() && m[a] == v;
            assert(p[a] < n);
        }
    }
    vstd::set_lib::lemma_subset_equality(vals, range);
    assert(range.contains(x));
    let m = p.map_values(|w: usize| w as int);
    assert(m.to_set().contains(x));
    let a = choose|a: int| 0 <= a < m.len() && m[a] == x;
    assert(p[a] == x as usize);
}

/// There is only one stable descending order of a list of keys: two
/// permutations that both order the keys from largest to smallest, keeping equal
/// keys in their input order, are the same.
pub proof fn lemma_key_desc_unique(keys: Seq<i128>, p: Seq<usize>, q: Seq<usize>)
    requires
        is_permutation(p, keys.len() as int),
        is_permutation(q, keys.len() as int),
        key_desc(keys, p),
        key_desc(keys, q),
    ensures
        p == q,
{
    let n = keys.len() as int;
    if p != q {
        assert(exists|a: int| 0 <= a < n && p[a] != q[a]) by {
            if forall|a: int| 0 <= a < n ==> p[a] == q[a] {
                assert(p =~= q);
            }
        }
        let a0 = choose|a: int| 0 <= a < n && p[a] != q[a];
        // the first position where they differ
        let a = first_difference(p, q, a0);
        let x = p[a];
        let y = q[a];
        lemma_permutation_covers(q, n, x as int);
        lemma_permutation_covers(p, n, y as int);
        let b = choose|b: int| 0 <= b < q.len() && q[b] == x;
        let c = choose|c: int| 0 <= c < p.len() && p[c] == y;
        if b < a {
            assert(p[b] == q[b]);
        }
        if c < a {
            assert(q[c] == p[c]);
        }
        assert(b > a && c > a);
        assert(keys[p[a] as int] >= keys[p[c] as int]);
        assert(keys[q[a] as int] >= keys[q[b] as int]);
        assert(keys[x as int] == keys[y as int]);
        assert(p[a] < p[c]);
        assert(q[a] < q[b]);
    }
}

/// The first position, at or before `a`, where `p` and `q` differ.
proof fn first_difference(p: Seq<usize>, q: Seq<usize>, a: int) -> (f: int)
    requires
        0 <= a < p.len(),
        a < q.len(),
        p[a] != q[a],
    ensures
        0 <= f <= a,
        p[f] != q[f],
        forall|i: int| 0 <= i < f ==> p[i] == q[i],
    decreases a,
{
    if exists|i: int| 0 <= i < a && p[i] != q[i] {
        let i = choose|i: int| 0 <= i < a && p[i] != q[i];
        first_difference(p, q, i)
    } else {
        a
    }
}

/// The sort key of a time stamp: later stamps have larger keys.
pub open spec fn spec_stamp_key(t: Timestamp) -> i128 {
    (t.secs * 4_294_967_296 + t.nanos) as i128
}

proof fn lemma_stamp_key(a: Timestamp, b: Timestamp)
    ensures
        a.spec_after(b) <==> spec_stamp_key(a) > spec_stamp_key(b),
        spec_stamp_key(a) == spec_stamp_key(b) <==> a == b,
{
}

fn stamp_key(t: &Timestamp) -> (k: i128)
    ensures
        k == spec_stamp_key(*t),
{
    t.secs as i128 * 4_294_967_296 + t.nanos as i128
}

/// The sort keys of a list of stamps.
pub open spec fn stamp_keys(stamps: Seq<Timestamp>) -> Seq<i128> {
    stamps.map_values(|t: Timestamp| spec_stamp_key(t))
}

proof fn lemma_newest_first_is_key_desc(stamps: Seq<Timestamp>, p: Seq<usize>)
    requires
        forall|a: int| 0 <= a < p.len() ==> #[trigger] p[a] < stamps.len(),
    ensures
        newest_first(stamps, p) <==> key_desc(stamp_keys(stamps), p),
{
    let keys = stamp_keys(stamps);
    assert forall|x: int, y: int| 0 <= x < stamps.len() && 0 <= y < stamps.len() implies (not_older(
        stamps[x],
        stamps[y],
    ) <==> keys[x] >= keys[y]) && (stamps[x] == stamps[y] <==> keys[x] == keys[y]) by {
        lemma_stamp_key(stamps[x], stamps[y]);
        lemma_stamp_key(stamps[y], stamps[x]);
    }
    if newest_first(stamps, p) {
        assert forall|a: int, b: int| 0 <= a < b < p.len() implies keys[#[trigger] p[a] as int]
            >= keys[#[trigger] p[b] as int] by {
            assert(not_older(stamps[p[a] as int], stamps[p[b] as int]));
        }
        assert forall|a: int, b: int|
            0 <= a < b < p.len() && keys[p[a] as int] == keys[p[b] as int] implies #[trigger] p[a]
            < #[trigger] p[b] by {
            assert(stamps[p[a] as int] == stamps[p[b] as int]);
        }
    }
    if key_desc(keys, p) {
        assert forall|a: int, b: int| 0 <= a < b < p.len() implies not_older(
            stamps[#[trigger] p[a] as int],
            stamps[#[trigger] p[b] as int],
        ) by {
            assert(keys[p[a] as int] >= keys[p[b] as int]);
        }
        assert forall|a: int, b: int|
            0 <= a < b < p.len() && stamps[p[a] as int] == stamps[p[b] as int] implies #[trigger] p[a]
            < #[trigger] p[b] by {
            assert(keys[p[a] as int] == keys[p[b] as int]);
        }
    }
}

/// The positions of `stamps`, newest first; equal stamps keep their order
/// (a stable sort by descending time).
pub fn sort_newest_first(stamps: &Vec<Timestamp>) -> (p: Vec<usize>)
    ensures
        is_permutation(p@, stamps.len() as int),
        newest_first(stamps@, p@),
{
    let n = stamps.len();
    let mut keys: Vec<i128> = Vec::new();
    for i in 0..n
        invariant
            n == stamps.len(),
            keys@ == stamp_keys(stamps@.take(i as int)),
    {
        keys.push(stamp_key(&stamps[i]));
        assert(stamp_keys(stamps@.take(i + 1)) =~= stamp_keys(stamps@.take(i as int)).push(
            spec_stamp_key(stamps@[i as int]),
        ));
    }
    assert(stamps@.take(n as int) == stamps@);
    let p = sort_by_key_desc(&keys);
    proof {
        lemma_newest_first_is_key_desc(stamps@, p@);
    }
    p
}

/// There is only one newest-first order of a list of stamps: two permutations
/// that both order the stamps newest first, keeping equal stamps in their
/// input order, are the same.
pub proof fn lemma_newest_first_unique(stamps: Seq<Timestamp>, p: Seq<usize>, q: Seq<usize>)
    requires
        is_permutation(p, stamps.len() as int),
        is_permutation(q, stamps.len() as int),
        newest_first(stamps, p),
        newest_first(stamps, q),
    ensures
        p == q,
{
    lemma_newest_first_is_key_desc(stamps, p);
    lemma_newest_first_is_key_desc(stamps, q);
    lemma_key_desc_unique(stamp_keys(stamps), p, q);
}

/// `p` orders the positions of `values` from the largest number to the
/// smallest, and positions holding equal numbers keep their relative order
/// from the input.
pub open spec fn largest_first(values: Seq<FloatBits>, p: Seq<usize>) -> bool {
    &&& forall|a: int, b: int|
        0 <= a < b < p.len() ==> float_ge(
            values[#[trigger] p[a] as int].bits,
            values[#[trigger] p[b] as int].bits,
        )
    &&& forall|a: int, b: int|
        0 <= a < b < p.len() && float_ge(values[p[a] as int].bits, values[p[b] as int].bits)
            && float_ge(values[p[b] as int].bits, values[p[a] as int].bits) ==> #[trigger] p[a]
            < #[trigger] p[b]
}

/// None of `values` is a NaN.
pub open spec fn no_nan(values: Seq<FloatBits>) -> bool {
    forall|i: int| 0 <= i < values.len() ==> !is_nan(#[trigger] values[i].bits)
}

fn value_key(v: &FloatBits) -> (k: i128)
    ensures
        k == order_key(v.bits),
{
    let mag = (v.bits % 0x8000_0000u32) as i128;
    if v.bits >= 0x8000_0000u32 {
        -mag
    } else {
        mag
    }
}

/// The order keys of a list of numbers.
pub open spec fn value_keys(values: Seq<FloatBits>) -> Seq<i128> {
    values.map_values(|v: FloatBits| order_key(v.bits) as i128)
}

/// The positions of `values`, largest number first; equal numbers keep their
/// order (a stable sort by descending value). Comparing a NaN with anything
/// has no answer, so as soon as there are two values none may be NaN.
pub fn sort_largest_first(values: &Vec<FloatBits>) -> (p: Vec<usize>)
    requires
        values.len() < 2 || no_nan(values@),
    ensures
        is_permutation(p@, values.len() as int),
        largest_first(values@, p@),
{
    let n = values.len();
    let mut keys: Vec<i128> = Vec::new();
    for i in 0..n
        invariant
            n == values.len(),
            keys@ == value_keys(values@.take(i as int)),
    {
        keys.push(value_key(&values[i]));
        assert(value_keys(values@.take(i + 1)) =~= value_keys(values@.take(i as int)).push(
            order_key(values@[i as int].bits) as i128,
        ));
    }
    assert(values@.take(n as int) == values@);
    let p = sort_by_key_desc(&keys);
    proof {
        let ks = value_keys(values@);
        if n >= 2 {
            assert forall|a: int, b: int| 0 <= a < b < p@.len() implies float_ge(
                values@[#[trigger] p@[a] as int].bits,
                values@[#[trigger] p@[b] as int].bits,
            ) by {
                assert(ks[p@[a] as int] >= ks[p@[b] as int]);
            }
            assert forall|a: int, b: int|
                0 <= a < b < p@.len() && float_ge(values@[p@[a] as int].bits, values@[p@[b] as int].bits)
                    && float_ge(values@[p@[b] as int].bits, values@[p@[a] as int].bits) implies #[trigger] p@[a]
                < #[trigger] p@[b] by {
                assert(ks[p@[a] as int] == ks[p@[b] as int]);
            }
        } else if n == 1 {
            assert(p@.len() == 1);
        }
    }
    p
}

} // verus!
