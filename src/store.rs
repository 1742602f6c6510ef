//! The stored rows: test items, test results, reports and their members,
//! spans with their annotations and tags; and an order-keeping filter.

use vstd::prelude::*;
use crate::cache::TestItemDb;

verus! {

broadcast use vstd::seq_lib::group_filter_ensures;

/// Retention tier of a stored test result, from the richest to the most
/// pruned.
#[derive(Clone, Copy, Debug, PartialEq, Eq, Structural)]
pub enum ResultCleanupStatus {
    WithData,
    Important,
    ToKeep,
    Shell,
}

/// The stored code of a tier.
pub open spec fn cleanup_code(s: ResultCleanupStatus) -> i32 {
    match s {
        ResultCleanupStatus::WithData => 0,
        ResultCleanupStatus::Important => 1,
        ResultCleanupStatus::ToKeep => 2,
        ResultCleanupStatus::Shell => 3,
    }
}

impl ResultCleanupStatus {
    /// The stored code: 0 to 3, from `WithData` to `Shell`.
    pub fn as_i32(&self) -> (r: i32)
        ensures
            r == cleanup_code(*self),
    {
        match self {
            ResultCleanupStatus::WithData => 0,
            ResultCleanupStatus::Important => 1,
            ResultCleanupStatus::ToKeep => 2,
            ResultCleanupStatus::Shell => 3,
        }
    }

    /// Decodes a stored code; an unknown code reads as `WithData`.
    pub fn from_i32(v: i32) -> (r: ResultCleanupStatus)
        ensures
            0 <= v <= 3 ==> cleanup_code(r) == v,
            !(0 <= v <= 3) ==> r == ResultCleanupStatus::WithData,
    {
        match v {
            1 => ResultCleanupStatus::Important,
            2 => ResultCleanupStatus::ToKeep,
            3 => ResultCleanupStatus::Shell,
            _ => ResultCleanupStatus::WithData,
        }
    }
}

/// A stored test result.
pub struct TestResultDb {
    pub test_id: String,
    pub trace_id: String,
    /// Microseconds since the epoch.
    pub date: i64,
    /// Stored status code: 0 success, 1 failure, 2 skipped.
    pub status: i32,
    pub duration: i64,
    pub environment: Option<String>,
    pub components_called: Vec<String>,
    pub nb_spans: usize,
    pub cleanup_status: ResultCleanupStatus,
}

/// A stored report.
pub struct ReportDb {
    pub id: String,
    /// Microseconds since the epoch.
    pub last_update: i64,
}

/// A test result's membership of a report.
pub struct ReportMembership {
    pub report_id: String,
    pub test_id: String,
    pub trace_id: String,
}

/// A stored span.
pub struct SpanRow {
    pub trace_id: String,
    pub span_id: String,
}

/// An annotation of a stored span.
pub struct AnnotationRow {
    pub trace_id: String,
    pub span_id: String,
    pub value: String,
}

/// A tag of a stored span.
pub struct TagRow {
    pub trace_id: String,
    pub span_id: String,
    pub key: String,
    pub value: String,
}

/// The stored tables.
pub struct Store {
    pub items: Vec<TestItemDb>,
    pub results: Vec<TestResultDb>,
    pub reports: Vec<ReportDb>,
    pub memberships: Vec<ReportMembership>,
    pub spans: Vec<SpanRow>,
    pub annotations: Vec<AnnotationRow>,
    pub tags: Vec<TagRow>,
}

/// The two rows stand for the same test run: same test and same trace.
pub open spec fn same_pair(a: TestResultDb, b: TestResultDb) -> bool {
    a.test_id@ == b.test_id@ && a.trace_id@ == b.trace_id@
}

/// No two rows of `rs` stand for the same test run.
pub open spec fn pairs_distinct(rs: Seq<TestResultDb>) -> bool {
    forall|i: int, j: int| 0 <= i < j < rs.len() ==> !same_pair(#[trigger] rs[i], #[trigger] rs[j])
}

/// Keeping some rows, in order, keeps their test runs distinct.
pub proof fn lemma_filter_pairs_distinct(s: Seq<TestResultDb>, p: spec_fn(TestResultDb) -> bool)
    requires
        pairs_distinct(s),
    ensures
        pairs_distinct(s.filter(p)),
    decreases s.len(),
{
    if s.len() > 0 {
        let d = s.drop_last();
        let x = s.last();
        assert(s =~= d.push(x));
        assert(pairs_distinct(d));
        lemma_filter_pairs_distinct(d, p);
        d.lemma_filter_push(x, p);
        if p(x) {
            let f = d.filter(p);
            assert forall|i: int, j: int| 0 <= i < j < f.push(x).len() implies !same_pair(
                #[trigger] f.push(x)[i],
                #[trigger] f.push(x)[j],
            ) by {
                if j == f.len() {
                    assert(f.contains(f[i]));
                    d.lemma_filter_contains_rev(p, f[i]);
                    let k = choose|k: int| 0 <= k < d.len() && d[k] == f[i];
                    assert(s[k] == d[k]);
                    assert(s[d.len() as int] == x);
                }
            }
        }
    } else {
        assert(s.filter(p).len() <= s.len());
    }
}

impl Store {
    /// The internal invariant: each test run has at most one result row.
    pub open spec fn wf(&self) -> bool {
        pairs_distinct(self.results@)
    }

    /// Empty tables.
    pub fn new() -> (r: Store)
        ensures
            r.wf(),
            r.items@.len() == 0,
            r.results@.len() == 0,
            r.reports@.len() == 0,
            r.memberships@.len() == 0,
            r.spans@.len() == 0,
            r.annotations@.len() == 0,
            r.tags@.len() == 0,
    {
        Store {
            items: Vec::new(),
            results: Vec::new(),
            reports: Vec::new(),
            memberships: Vec::new(),
            spans: Vec::new(),
            annotations: Vec::new(),
            tags: Vec::new(),
        }
    }
}

/// Moves the elements out of `v`, leaving it empty.
pub fn take_vec<T>(v: &mut Vec<T>) -> (r: Vec<T>)
    ensures
        r == *old(v),
        final(v)@.len() == 0,
{
    let mut empty: Vec<T> = Vec::new();
    std::mem::swap(v, &mut empty);
    empty
}

/// The elements of `v` that `keep` accepts, in their order; `keep` decides
/// as `p` does.
pub fn retain_by<T, F: Fn(&T) -> bool>(v: Vec<T>, keep: &F, Ghost(p): Ghost<spec_fn(T) -> bool>) -> (r: Vec<T>)
    requires
        forall|x: &T| #[trigger] keep.requires((x,)),
        forall|x: &T, b: bool| keep.ensures((x,), b) ==> b == p(*x),
    ensures
        r@ == v@.filter(p),
{
    let ghost all = v@;
    let mut out: Vec<T> = Vec::new();
    for x in it: v.into_iter()
        invariant
            it.seq() == all,
            forall|x: &T| #[trigger] keep.requires((x,)),
            forall|x: &T, b: bool| keep.ensures((x,), b) ==> b == p(*x),
            out@ == all.take(it.index() as int).filter(p),
    {
        let ghost i = it.index() as int;
        proof {
            assert(all.take(i + 1) =~= all.take(i).push(all[i]));
            all.take(i).lemma_filter_push(all[i], p);
        }
        if keep(&x) {
            out.push(x);
        }
    }
    assert(all.take(all.len() as int) =~= all);
    out
}

} // verus!
