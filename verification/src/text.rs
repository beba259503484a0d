use vstd::prelude::*;

verus! {

broadcast use vstd::string::group_string_axioms;

/// The characters of `s`, in order.
pub fn chars_of(s: &str) -> (v: Vec<char>)
    ensures
        v@ == s@,
{
    let mut v: Vec<char> = Vec::new();
    for c in it: s.chars()
        invariant
            v@ == it.seq().take(it.index() as int),
    {
        v.push(c);
    }
    v
}

/// An owned copy of `s`.
pub fn string_of(s: &str) -> (r: String)
    ensures
        r@ == s@,
{
    s.to_string()
}

/// Whether two character sequences are equal.
pub fn chars_eq(a: &Vec<char>, b: &Vec<char>) -> (r: bool)
    ensures
        r == (a@ == b@),
{
    if a.len() != b.len() {
        return false;
    }
    let n = a.len();
    for i in 0..n
        invariant
            n == a.len(),
            n == b.len(),
            forall|k: int| 0 <= k < i ==> a@[k] == b@[k],
    {
        if a[i] != b[i] {
            return false;
        }
    }
    assert(a@ =~= b@);
    true
}

/// Whether two strings hold the same characters.
pub fn str_eq(a: &str, b: &str) -> (r: bool)
    ensures
        r == (a@ == b@),
{
    let va = chars_of(a);
    let vb = chars_of(b);
    chars_eq(&va, &vb)
}

/// `a` followed by `b`.
pub fn concat(a: &str, b: &str) -> (r: String)
    ensures
        r@ == a@ + b@,
{
    let mut r = string_of(a);
    r.append(b);
    r
}

} // verus!

verus! {

/// The characters with the Unicode `White_Space` property.
pub open spec fn is_whitespace(c: char) -> bool {
    let u = c as u32;
    ||| 0x09 <= u <= 0x0d
    ||| u == 0x20
    ||| u == 0x85
    ||| u == 0xa0
    ||| u == 0x1680
    ||| 0x2000 <= u <= 0x200a
    ||| u == 0x2028
    ||| u == 0x2029
    ||| u == 0x202f
    ||| u == 0x205f
    ||| u == 0x3000
}

/// Whether `c` is white space.
pub fn char_is_whitespace(c: char) -> (r: bool)
    ensures
        r == is_whitespace(c),
{
    let u = c as u32;
    (0x09 <= u && u <= 0x0d) || u == 0x20 || u == 0x85 || u == 0xa0 || u == 0x1680 || (0x2000
        <= u && u <= 0x200a) || u == 0x2028 || u == 0x2029 || u == 0x202f || u == 0x205f || u
        == 0x3000
}

/// The words of `s`: its maximal runs of characters that are not white space,
/// in order.
pub open spec fn words(s: Seq<char>) -> Seq<Seq<char>>
    decreases s.len(),
{
    if s.len() == 0 {
        Seq::empty()
    } else {
        let prev = words(s.drop_last());
        let c = s.last();
        if is_whitespace(c) {
            prev
        } else if s.len() >= 2 && !is_whitespace(s[s.len() - 2]) {
            prev.update(prev.len() - 1, prev.last().push(c))
        } else {
            prev.push(seq![c])
        }
    }
}

/// The distinct words of `s`.
pub open spec fn word_set(s: Seq<char>) -> Set<Seq<char>> {
    words(s).to_set()
}

/// The views of a vector of character vectors.
pub open spec fn views(v: Seq<Vec<char>>) -> Seq<Seq<char>> {
    v.map_values(|x: Vec<char>| x@)
}

/// The words of `s`, in order.
pub fn split_words(s: &str) -> (r: Vec<Vec<char>>)
    ensures
        views(r@) == words(s@),
{
    let cs = chars_of(s);
    let n = cs.len();
    let mut done: Vec<Vec<char>> = Vec::new();
    let mut cur: Vec<char> = Vec::new();
    let mut i: usize = 0;
    while i < n
        invariant
            n == cs.len(),
            cs@ == s@,
            i <= n,
            (cur.len() > 0) == (i > 0 && !is_whitespace(cs@[i - 1])),
            cur.len() > 0 ==> words(cs@.take(i as int)) == views(done@).push(cur@),
            cur.len() == 0 ==> words(cs@.take(i as int)) == views(done@),
        decreases n - i,
    {
        let c = cs[i];
        let ghost pre = cs@.take(i as int);
        let ghost post = cs@.take(i + 1);
        assert(post.drop_last() == pre);
        assert(post.last() == c);
        if char_is_whitespace(c) {
            if cur.len() > 0 {
                let w = cur;
                cur = Vec::new();
                let ghost d0 = done@;
                done.push(w);
                assert(views(done@) == views(d0).push(w@));
            }
        } else {
            if cur.len() > 0 {
                let ghost cur0 = cur@;
                cur.push(c);
                assert(post.len() >= 2 && post[post.len() - 2] == cs@[i - 1]);
                let ghost prev = words(pre);
                assert(prev == views(done@).push(cur0));
                assert(views(done@).push(cur@) =~= prev.update(prev.len() - 1, prev.last().push(c)));
            } else {
                cur.push(c);
                assert(cur@ =~= seq![c]);
            }
        }
        i = i + 1;
    }
    assert(cs@.take(n as int) =~= cs@);
    if cur.len() > 0 {
        let ghost d0 = done@;
        done.push(cur);
        assert(views(done@) == views(d0).push(cur@));
    }
    done
}

/// The number of words in `s` (what `split_whitespace().count()` counts).
pub fn count_words(s: &str) -> (n: usize)
    ensures
        n == words(s@).len(),
{
    let w = split_words(s);
    w.len()
}

} // verus!

verus! {

/// Whether `w` occurs in `v`.
pub fn contains_word(v: &Vec<Vec<char>>, w: &Vec<char>) -> (r: bool)
    ensures
        r == views(v@).contains(w@),
{
    let n = v.len();
    for i in 0..n
        invariant
            n == v.len(),
            forall|k: int| 0 <= k < i ==> v@[k]@ != w@,
    {
        if chars_eq(&v[i], w) {
            assert(views(v@)[i as int] == w@);
            return true;
        }
    }
    assert forall|k: int| 0 <= k < views(v@).len() implies views(v@)[k] != w@ by {
        assert(views(v@)[k] == v@[k]@);
    }
    false
}

/// A copy of a character vector.
pub fn copy_chars(v: &Vec<char>) -> (r: Vec<char>)
    ensures
        r@ == v@,
{
    let mut r: Vec<char> = Vec::new();
    let n = v.len();
    for i in 0..n
        invariant
            n == v.len(),
            r@ == v@.take(i as int),
    {
        r.push(v[i]);
        assert(v@.take(i + 1) == v@.take(i as int).push(v@[i as int]));
    }
    assert(v@.take(n as int) == v@);
    r
}

/// The distinct entries of `v`, in order of first occurrence.
pub fn distinct_words(v: &Vec<Vec<char>>) -> (r: Vec<Vec<char>>)
    ensures
        views(r@).no_duplicates(),
        views(r@).to_set() == views(v@).to_set(),
{
    let mut out: Vec<Vec<char>> = Vec::new();
    let n = v.len();
    let ghost orig = views(v@);
    for k in 0..n
        invariant
            n == v.len(),
            orig == views(v@),
            views(out@).no_duplicates(),
            views(out@).to_set() == orig.take(k as int).to_set(),
    {
        let w = copy_chars(&v[k]);
        let ghost before = views(out@);
        assert(orig.take(k + 1) == orig.take(k as int).push(w@));
        proof {
            orig.take(k as int).lemma_push_to_set_commute(w@);
        }
        if !contains_word(&out, &w) {
            out.push(w);
            assert(views(out@) == before.push(w@));
            proof {
                before.lemma_push_to_set_commute(w@);
            }
        } else {
            assert(before.to_set().contains(w@));
            assert(orig.take(k + 1).to_set() =~= orig.take(k as int).to_set());
        }
    }
    assert(orig.take(n as int) == orig);
    out
}

} // verus!

verus! {

/// A text has no more words than characters.
pub proof fn lemma_words_len(s: Seq<char>)
    ensures
        words(s).len() <= s.len(),
        s.len() > 0 && !is_whitespace(s.last()) ==> words(s).len() > 0,
    decreases s.len(),
{
    if s.len() > 0 {
        lemma_words_len(s.drop_last());
        if s.len() >= 2 {
            assert(s.drop_last().last() == s[s.len() - 2]);
        }
    }
}

/// Keeping some entries of a sequence without repeats leaves a sequence without repeats.
proof fn lemma_filter_no_duplicates<A>(s: Seq<A>, p: spec_fn(A) -> bool)
    requires
        s.no_duplicates(),
    ensures
        s.filter(p).no_duplicates(),
    decreases s.len(),
{
    reveal(Seq::filter);
    if s.len() > 0 {
        let d = s.drop_last();
        assert(d.no_duplicates());
        lemma_filter_no_duplicates(d, p);
        if p(s.last()) {
            let f = d.filter(p);
            if f.contains(s.last()) {
                d.lemma_filter_contains_rev(p, s.last());
                assert(false);
            }
            assert(f.push(s.last()).no_duplicates());
        }
    }
}

/// How many entries of `da` (which holds no repeats) also occur in `db`: the
/// size of the intersection of their sets.
pub fn count_shared(da: &Vec<Vec<char>>, db: &Vec<Vec<char>>) -> (c: usize)
    requires
        views(da@).no_duplicates(),
    ensures
        c == views(da@).to_set().intersect(views(db@).to_set()).len(),
        c <= da.len(),
{
    let ghost va = views(da@);
    let ghost vb = views(db@);
    let ghost sb = vb.to_set();
    let ghost in_b = |w: Seq<char>| sb.contains(w);
    let mut inter: usize = 0;
    let n = da.len();
    for i in 0..n
        invariant
            n == da.len(),
            va == views(da@),
            vb == views(db@),
            vb.to_set() == sb,
            forall|w: Seq<char>| #[trigger] in_b(w) == sb.contains(w),
            inter == va.take(i as int).filter(in_b).len(),
            inter <= i,
    {
        proof {
            reveal(Seq::filter);
            assert(va.take(i + 1).drop_last() == va.take(i as int));
            assert(va.take(i + 1).last() == va[i as int]);
        }
        let found = contains_word(db, &da[i]);
        assert(da@[i as int]@ == va[i as int]);
        if found {
            assert(vb.contains(va[i as int]));
            assert(in_b(va[i as int]));
            inter = inter + 1;
        } else {
            proof {
                if sb.contains(va[i as int]) {
                    assert(vb.to_set().contains(va[i as int]));
                    assert(vb.contains(va[i as int]));
                }
            }
            assert(!in_b(va[i as int]));
        }
    }
    proof {
        let sa = va.to_set();
        assert(va.take(n as int) == va);
        let f = va.filter(in_b);
        lemma_filter_no_duplicates(va, in_b);
        assert(f.to_set() =~= sa.intersect(sb)) by {
            va.filter_lemma(in_b);
            assert forall|w: Seq<char>| f.to_set().contains(w) <==> sa.intersect(sb).contains(w) by {
                if sa.contains(w) && sb.contains(w) {
                    let k = choose|k: int| 0 <= k < va.len() && va[k] == w;
                    assert(in_b(va[k]));
                    assert(f.contains(va[k]));
                }
                if f.to_set().contains(w) {
                    va.lemma_filter_contains_rev(in_b, w);
                    let k = choose|k: int| 0 <= k < f.len() && f[k] == w;
                    assert(in_b(f[k]));
                }
            }
        }
        f.unique_seq_to_set();
    }
    inter
}

/// How many distinct words two texts share, and how many distinct words they
/// hold together: the numerator and denominator of their Jaccard similarity.
pub fn word_overlap(a: &str, b: &str) -> (r: (usize, usize))
    requires
        a@.len() + b@.len() <= usize::MAX,
    ensures
        r.0 == word_set(a@).intersect(word_set(b@)).len(),
        r.1 == word_set(a@).union(word_set(b@)).len(),
        r.0 <= r.1,
{
    let wa = split_words(a);
    let wb = split_words(b);
    let da = distinct_words(&wa);
    let db = distinct_words(&wb);
    let ghost sa = word_set(a@);
    let ghost sb = word_set(b@);
    proof {
        views(da@).unique_seq_to_set();
        views(db@).unique_seq_to_set();
        lemma_words_len(a@);
        lemma_words_len(b@);
        views(wa@).lemma_cardinality_of_set();
        views(wb@).lemma_cardinality_of_set();
        vstd::set_lib::lemma_set_intersect_union_lens(sa, sb);
    }
    let inter = count_shared(&da, &db);
    assert(inter <= db.len()) by {
        vstd::set_lib::lemma_len_intersect(sb, sa);
        assert(sb.intersect(sa) =~= sa.intersect(sb));
    }
    (inter, da.len() + (db.len() - inter))
}

} // verus!

verus! {

/// `parts` joined with `sep` between consecutive parts.
pub open spec fn join(parts: Seq<Seq<char>>, sep: Seq<char>) -> Seq<char>
    decreases parts.len(),
{
    if parts.len() == 0 {
        Seq::empty()
    } else if parts.len() == 1 {
        parts[0]
    } else {
        join(parts.drop_last(), sep) + sep + parts.last()
    }
}

} // verus!

verus! {

/// The empty literal holds no characters.
pub proof fn lemma_empty_literal()
    ensures
        ""@ == Seq::<char>::empty(),
{
    reveal_strlit("");
}

} // verus!

verus! {

/// The views of a list of strings.
pub open spec fn string_views(v: Seq<String>) -> Seq<Seq<char>> {
    v.map_values(|s: String| s@)
}

/// Whether `s` occurs in `v`.
pub fn contains_string(v: &Vec<String>, s: &String) -> (r: bool)
    ensures
        r == string_views(v@).contains(s@),
{
    let n = v.len();
    for i in 0..n
        invariant
            n == v.len(),
            forall|k: int| 0 <= k < i ==> v@[k]@ != s@,
    {
        if v[i] == *s {
            assert(string_views(v@)[i as int] == s@);
            return true;
        }
    }
    assert forall|k: int| 0 <= k < string_views(v@).len() implies string_views(v@)[k] != s@ by {
        assert(string_views(v@)[k] == v@[k]@);
    }
    false
}

} // verus!
