use vstd::prelude::*;
use vstd::string::StringSliceAdditionalSpecFns;

verus! {

/// A deterministic embedder that hashes the character trigrams of a text into
/// `dim` buckets. It is not semantically meaningful; it stands in for a real
/// model.
#[derive(Clone, Copy, Debug)]
pub struct HashEmbedder {
    pub dim: usize,
}

/// Bucket counts stop growing here: a single-precision counter that is
/// incremented by one no longer changes once it reaches 2^24.
pub const COUNT_SATURATION: u32 = 16_777_216u32;

/// The bucket of the trigram of `bytes` that starts at `i`.
pub open spec fn trigram_bucket(bytes: Seq<u8>, i: int, dim: int) -> int {
    (bytes[i] as int * 31 + bytes[i + 1] as int * 7 + bytes[i + 2] as int) % dim
}

/// How many of the trigrams starting at `0 .. m` fall into bucket `k`.
pub open spec fn bucket_hits(bytes: Seq<u8>, dim: int, k: int, m: int) -> int
    decreases m,
{
    if m <= 0 {
        0
    } else {
        bucket_hits(bytes, dim, k, m - 1) + if trigram_bucket(bytes, m - 1, dim) == k {
            1int
        } else {
            0int
        }
    }
}

/// The number of trigrams (three consecutive bytes) of a text of `len` bytes.
pub open spec fn trigram_total(len: int) -> int {
    if len >= 3 {
        len - 2
    } else {
        0
    }
}

/// The sum of a list of counts.
pub open spec fn total_count(c: Seq<u32>) -> int
    decreases c.len(),
{
    if c.len() == 0 {
        0
    } else {
        total_count(c.drop_last()) + c.last()
    }
}

/// A count that saturates at `COUNT_SATURATION`.
pub open spec fn saturated(n: int) -> int {
    if n < COUNT_SATURATION {
        n
    } else {
        COUNT_SATURATION as int
    }
}

impl HashEmbedder {
    pub fn new(dim: usize) -> (e: HashEmbedder)
        ensures
            e.dim == dim,
    {
        HashEmbedder { dim }
    }

    /// For each of the `dim` buckets, how many trigrams of the UTF-8 bytes of
    /// `text` hash into it (saturating at 2^24). Normalising these counts gives
    /// the embedding.
    pub fn trigram_counts(&self, text: &str) -> (r: Vec<u32>)
        requires
            self.dim > 0 || text.spec_bytes().len() < 3,
        ensures
            r@.len() == self.dim,
            forall|k: int|
                0 <= k < self.dim ==> #[trigger] r@[k] == saturated(
                    bucket_hits(
                        text.spec_bytes(),
                        self.dim as int,
                        k,
                        trigram_total(text.spec_bytes().len() as int),
                    ),
                ),
            text.spec_bytes().len() <= COUNT_SATURATION + 1 ==> total_count(r@) == if text.spec_bytes().len()
                >= 3 {
                text.spec_bytes().len() - 2
            } else {
                0
            },
    {
        let dim = self.dim;
        let bytes = text.as_bytes();
        let mut counts: Vec<u32> = Vec::new();
        for k in 0..dim
            invariant
                counts@.len() == k,
                forall|j: int| 0 <= j < k ==> #[trigger] counts@[j] == 0,
        {
            counts.push(0);
        }
        let len = bytes.len();
        let total = if len >= 2 { len - 2 } else { 0 };
        let ghost b = bytes@;
        for i in 0..total
            invariant
                b == bytes@,
                len == bytes@.len(),
                total == trigram_total(len as int),
                dim == self.dim,
                dim > 0 || len < 3,
                counts@.len() == dim,
                forall|k: int|
                    0 <= k < dim ==> #[trigger] counts@[k] == saturated(
                        bucket_hits(b, dim as int, k, i as int),
                    ),
        {
            let h = (bytes[i] as usize * 31 + bytes[i + 1] as usize * 7 + bytes[i + 2] as usize)
                % dim;
            assert(h == trigram_bucket(b, i as int, dim as int));
            let c = counts[h];
            if c < COUNT_SATURATION {
                counts.set(h, c + 1);
            }
            assert forall|k: int| 0 <= k < dim implies #[trigger] counts@[k] == saturated(
                bucket_hits(b, dim as int, k, i + 1),
            ) by {
                assert(bucket_hits(b, dim as int, k, i + 1) == bucket_hits(b, dim as int, k, i as int)
                    + if trigram_bucket(b, i as int, dim as int) == k {
                    1int
                } else {
                    0int
                });
            }
        }
        proof {
            if dim > 0 && len <= COUNT_SATURATION + 1 {
                lemma_counts_add_up(b, dim as int, counts@);
            } else if len <= COUNT_SATURATION + 1 {
                assert(counts@.len() == 0);
            }
        }
        counts
    }
}

/// The number of trigrams among the first `m` that fall into buckets `0 .. upto`.
pub open spec fn hits_below(bytes: Seq<u8>, dim: int, m: int, upto: int) -> int
    decreases upto,
{
    if upto <= 0 {
        0
    } else {
        hits_below(bytes, dim, m, upto - 1) + bucket_hits(bytes, dim, upto - 1, m)
    }
}

proof fn lemma_hits_below_step(bytes: Seq<u8>, dim: int, m: int, upto: int)
    requires
        dim > 0,
        m > 0,
        0 <= upto <= dim,
    ensures
        hits_below(bytes, dim, m, upto) == hits_below(bytes, dim, m - 1, upto) + if trigram_bucket(
            bytes,
            m - 1,
            dim,
        ) < upto {
            1int
        } else {
            0int
        },
    decreases upto,
{
    if upto > 0 {
        lemma_hits_below_step(bytes, dim, m, upto - 1);
    }
}

/// Every trigram lands in exactly one bucket: over all `dim` buckets, the hits
/// of the first `m` trigrams add up to `m`.
pub proof fn lemma_hits_add_up(bytes: Seq<u8>, dim: int, m: int)
    requires
        dim > 0,
        m >= 0,
    ensures
        hits_below(bytes, dim, m, dim) == m,
    decreases m,
{
    if m > 0 {
        lemma_hits_add_up(bytes, dim, m - 1);
        lemma_hits_below_step(bytes, dim, m, dim);
        assert(0 <= trigram_bucket(bytes, m - 1, dim) < dim);
    } else {
        lemma_hits_zero(bytes, dim, dim);
    }
}

proof fn lemma_bucket_hits_bounded(bytes: Seq<u8>, dim: int, k: int, m: int)
    requires
        m >= 0,
    ensures
        0 <= bucket_hits(bytes, dim, k, m) <= m,
    decreases m,
{
    if m > 0 {
        lemma_bucket_hits_bounded(bytes, dim, k, m - 1);
    }
}

proof fn lemma_total_prefix(bytes: Seq<u8>, dim: int, m: int, r: Seq<u32>, upto: int)
    requires
        0 <= upto <= r.len(),
        r.len() == dim,
        forall|k: int| 0 <= k < dim ==> #[trigger] r[k] == bucket_hits(bytes, dim, k, m),
    ensures
        total_count(r.take(upto)) == hits_below(bytes, dim, m, upto),
    decreases upto,
{
    if upto > 0 {
        lemma_total_prefix(bytes, dim, m, r, upto - 1);
        assert(r.take(upto).drop_last() == r.take(upto - 1));
        assert(r.take(upto).last() == r[upto - 1]);
    }
}

/// Every trigram of a text is counted once: as long as no bucket can saturate
/// (a text of at most 2^24 + 1 bytes), the bucket counts that `trigram_counts`
/// gives add up to the number of trigrams, `len - 2`, and to none for a text
/// shorter than three bytes.
pub proof fn lemma_counts_add_up(bytes: Seq<u8>, dim: int, r: Seq<u32>)
    requires
        dim > 0,
        bytes.len() <= COUNT_SATURATION + 1,
        r.len() == dim,
        forall|k: int|
            0 <= k < dim ==> #[trigger] r[k] == saturated(
                bucket_hits(bytes, dim, k, trigram_total(bytes.len() as int)),
            ),
    ensures
        total_count(r) == if bytes.len() >= 3 {
            bytes.len() - 2
        } else {
            0
        },
{
    let m = trigram_total(bytes.len() as int);
    assert forall|k: int| 0 <= k < dim implies #[trigger] r[k] == bucket_hits(bytes, dim, k, m) by {
        lemma_bucket_hits_bounded(bytes, dim, k, m);
    }
    lemma_total_prefix(bytes, dim, m, r, dim);
    assert(r.take(dim) == r);
    lemma_hits_add_up(bytes, dim, m);
}

proof fn lemma_hits_zero(bytes: Seq<u8>, dim: int, upto: int)
    ensures
        hits_below(bytes, dim, 0, upto) == 0,
    decreases upto,
{
    if upto > 0 {
        lemma_hits_zero(bytes, dim, upto - 1);
    }
}

} // verus!
