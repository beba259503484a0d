use vstd::prelude::*;

use crate::audit::AuditEvent;
use crate::store::MemoryRecord;
use crate::text::{chars_of, count_shared, distinct_words, string_of, string_views, views};
use crate::time::{now, Timestamp};

verus! {

broadcast use vstd::string::group_string_axioms;

/// The format version that archives are written with.
pub open spec fn archive_version() -> Seq<char> {
    "1.0"@
}

/// Everything an export carries: the memories and the audit trail, with the
/// format version and the time of export.
#[derive(Debug)]
pub struct MnemeArchive {
    pub version: String,
    pub exported_at: Timestamp,
    pub records: Vec<MemoryRecord>,
    pub audit_log: Vec<AuditEvent>,
}

impl MnemeArchive {
    /// An archive of `records` and `audit_log`, in the current format version,
    /// stamped now.
    pub fn new(records: Vec<MemoryRecord>, audit_log: Vec<AuditEvent>) -> (a: MnemeArchive)
        ensures
            a.version@ == archive_version(),
            a.exported_at.wf(),
            a.records == records,
            a.audit_log == audit_log,
    {
        MnemeArchive { version: string_of("1.0"), exported_at: now(), records, audit_log }
    }
}

/// The set of ids in a list.
pub open spec fn id_set(ids: Seq<String>) -> Set<Seq<char>> {
    string_views(ids).to_set()
}

/// The character vectors of a list of strings.
fn char_vectors(ids: &Vec<String>) -> (r: Vec<Vec<char>>)
    ensures
        views(r@) == string_views(ids@),
{
    let mut r: Vec<Vec<char>> = Vec::new();
    let n = ids.len();
    for i in 0..n
        invariant
            n == ids.len(),
            views(r@) == string_views(ids@).take(i as int),
    {
        let ghost before = r@;
        r.push(chars_of(ids[i].as_str()));
        assert(views(r@) =~= views(before).push(ids@[i as int]@));
        assert(string_views(ids@).take(i + 1) =~= string_views(ids@).take(i as int).push(ids@[i as int]@));
    }
    assert(string_views(ids@).take(n as int) == string_views(ids@));
    r
}

/// How many distinct ids occur only in `left`, and how many only in `right`.
pub fn diff_ids(left: &Vec<String>, right: &Vec<String>) -> (r: (usize, usize))
    ensures
        r.0 == id_set(left@).difference(id_set(right@)).len(),
        r.1 == id_set(right@).difference(id_set(left@)).len(),
{
    let vl = char_vectors(left);
    let vr = char_vectors(right);
    let dl = distinct_words(&vl);
    let dr = distinct_words(&vr);
    let ghost sl = id_set(left@);
    let ghost sr = id_set(right@);
    let shared_l = count_shared(&dl, &dr);
    let shared_r = count_shared(&dr, &dl);
    proof {
        views(dl@).unique_seq_to_set();
        views(dr@).unique_seq_to_set();
        vstd::set_lib::lemma_set_difference_len(sl, sr);
        vstd::set_lib::lemma_set_difference_len(sr, sl);
    }
    (dl.len() - shared_l, dr.len() - shared_r)
}

} // verus!
