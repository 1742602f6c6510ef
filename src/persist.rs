//! Storing a derived test result: its test item and ancestors are found or
//! created by name, source and parent, then the result row replaces any row
//! of the same test run.

use vstd::prelude::*;
use crate::cache::TestItemDb;
use crate::extract::{status_code, TestResult};
use crate::store::{
    lemma_filter_pairs_distinct, retain_by, same_pair, take_vec, ResultCleanupStatus, Store,
    TestResultDb,
};
use crate::text::{copy_opt, str_views};

verus! {

broadcast use vstd::seq_lib::group_filter_ensures;

/// Relies on `uuid::Uuid::new_v4` and its hyphenated form: a fresh random
/// identifier.
#[verifier::external_body]
fn new_item_id() -> (r: String) {
    uuid::Uuid::new_v4().hyphenated().to_string()
}

/// `it` is the item with this name, source and parent.
pub open spec fn item_matches(it: TestItemDb, name: Seq<char>, parent_id: Seq<char>, source: i32) -> bool {
    it.name@ == name && it.parent_id@ == parent_id && it.source == source
}

/// The first item with this name, source and parent.
pub open spec fn first_item(items: Seq<TestItemDb>, name: Seq<char>, parent_id: Seq<char>, source: i32) -> Option<
    TestItemDb,
>
    decreases items.len(),
{
    if items.len() == 0 {
        None
    } else if item_matches(items[0], name, parent_id, source) {
        Some(items[0])
    } else {
        first_item(items.drop_first(), name, parent_id, source)
    }
}

proof fn lemma_first_item_push(s: Seq<TestItemDb>, x: TestItemDb, name: Seq<char>, parent_id: Seq<char>, source: i32)
    ensures
        first_item(s.push(x), name, parent_id, source) == if first_item(s, name, parent_id, source) is Some {
            first_item(s, name, parent_id, source)
        } else if item_matches(x, name, parent_id, source) {
            Some(x)
        } else {
            None
        },
    decreases s.len(),
{
    if s.len() > 0 {
        assert(s.push(x)[0] == s[0]);
        assert(s.push(x).drop_first() =~= s.drop_first().push(x));
        lemma_first_item_push(s.drop_first(), x, name, parent_id, source);
    } else {
        assert(s.push(x).drop_first() =~= s);
    }
}

proof fn lemma_first_item_prefix(a: Seq<TestItemDb>, b: Seq<TestItemDb>, name: Seq<char>, parent_id: Seq<char>, source: i32)
    requires
        a.is_prefix_of(b),
        first_item(a, name, parent_id, source) is Some,
    ensures
        first_item(b, name, parent_id, source) == first_item(a, name, parent_id, source),
    decreases a.len(),
{
    assert(b[0] == b.subrange(0, a.len() as int)[0]);
    if !item_matches(a[0], name, parent_id, source) {
        assert(a.drop_first() =~= b.drop_first().subrange(0, a.len() - 1));
        lemma_first_item_prefix(a.drop_first(), b.drop_first(), name, parent_id, source);
    }
}

/// The parent of level `k` of a chain of identifiers.
pub open spec fn parent_at(ids: Seq<Seq<char>>, k: int) -> Seq<char> {
    if k == 0 {
        "root"@
    } else {
        ids[k - 1]
    }
}

/// `ids` are what `names` resolve to from the top of the tree: each level is
/// the first item of source 0 with that name under the level above.
pub open spec fn resolved_chain(items: Seq<TestItemDb>, names: Seq<Seq<char>>, ids: Seq<Seq<char>>) -> bool {
    &&& ids.len() == names.len()
    &&& forall|k: int| 0 <= k < ids.len() ==> #[trigger] level_resolved(items, names, ids, k)
}

/// Level `k` of `ids` is the first item of source 0 named `names[k]` under
/// the level above.
pub open spec fn level_resolved(items: Seq<TestItemDb>, names: Seq<Seq<char>>, ids: Seq<Seq<char>>, k: int) -> bool {
    first_item(items, names[k], parent_at(ids, k), 0) matches Some(it) && it.id@ == ids[k]
}

/// Some chain of items resolves `names`.
pub open spec fn resolves(items: Seq<TestItemDb>, names: Seq<Seq<char>>) -> bool {
    exists|ids: Seq<Seq<char>>| resolved_chain(items, names, ids)
}

proof fn lemma_resolved_grows(a: Seq<TestItemDb>, b: Seq<TestItemDb>, names: Seq<Seq<char>>, ids: Seq<Seq<char>>)
    requires
        a.is_prefix_of(b),
        resolved_chain(a, names, ids),
    ensures
        resolved_chain(b, names, ids),
{
    assert forall|k: int| 0 <= k < ids.len() implies #[trigger] level_resolved(b, names, ids, k) by {
        assert(level_resolved(a, names, ids, k));
        lemma_first_item_prefix(a, b, names[k], parent_at(ids, k), 0);
    }
}

/// The names that a result is filed under: its path, then its own name.
pub open spec fn filed_names(t: TestResult) -> Seq<Seq<char>> {
    str_views(t.path@).push(t.name@)
}

/// Rows of other test runs than `test_id` in trace `trace_id`.
pub open spec fn other_run(test_id: Seq<char>, trace_id: Seq<char>) -> spec_fn(TestResultDb) -> bool {
    |r: TestResultDb| !(r.test_id@ == test_id && r.trace_id@ == trace_id)
}

/// `after` is `before` once `t` is stored, and `r` is what the store answers.
pub open spec fn saved(before: Store, t: TestResult, after: Store, r: TestResult) -> bool {
    let row = after.results@.last();
    &&& exists|ids: Seq<Seq<char>>|
        resolved_chain(after.items@, filed_names(t), ids) && #[trigger] ids.last() == r.test_id@
    &&& before.items@.is_prefix_of(after.items@)
    &&& resolves(before.items@, filed_names(t)) ==> after.items@ == before.items@
    &&& after.results@.len() > 0
    &&& after.results@.drop_last() == before.results@.filter(other_run(r.test_id@, t.trace_id@))
    &&& row.test_id@ == r.test_id@
    &&& row.trace_id@ == t.trace_id@
    &&& row.date == t.date
    &&& row.status == status_code(t.status)
    &&& row.duration == t.duration
    &&& row.environment == t.environment
    &&& row.components_called@ == t.components_called@
    &&& row.nb_spans == t.nb_spans
    &&& row.cleanup_status == ResultCleanupStatus::WithData
    &&& after.reports == before.reports
    &&& after.memberships == before.memberships
    &&& after.spans == before.spans
    &&& after.annotations == before.annotations
    &&& after.tags == before.tags
    &&& r.path@ == t.path@
    &&& r.name == t.name
    &&& r.trace_id == t.trace_id
    &&& r.date == t.date
    &&& r.status == t.status
    &&& r.duration == t.duration
    &&& r.environment == t.environment
    &&& r.components_called == t.components_called
    &&& r.nb_spans == t.nb_spans
}

/// A copy of a list of strings.
pub fn copy_strings(v: &Vec<String>) -> (r: Vec<String>)
    ensures
        r@ == v@,
{
    let mut out: Vec<String> = Vec::new();
    let mut i: usize = 0;
    while i < v.len()
        invariant
            i <= v@.len(),
            out@ == v@.take(i as int),
        decreases v@.len() - i,
    {
        out.push(v[i].clone());
        i = i + 1;
        assert(out@ =~= v@.take(i as int));
    }
    assert(v@.take(v@.len() as int) =~= v@);
    out
}

impl Store {
    /// The first item with this name, source and parent.
    pub fn find_test_item(&self, name: &String, parent_id: &String, source: i32) -> (r: Option<usize>)
        ensures
            match r {
                Some(k) => k < self.items@.len() && first_item(self.items@, name@, parent_id@, source)
                    == Some(self.items@[k as int]),
                None => first_item(self.items@, name@, parent_id@, source) is None,
            },
    {
        let mut k: usize = 0;
        assert(self.items@.skip(0) =~= self.items@);
        while k < self.items.len()
            invariant
                k <= self.items@.len(),
                first_item(self.items@, name@, parent_id@, source) == first_item(
                    self.items@.skip(k as int),
                    name@,
                    parent_id@,
                    source,
                ),
            decreases self.items@.len() - k,
        {
            assert(self.items@.skip(k as int)[0] == self.items@[k as int]);
            let it = &self.items[k];
            if it.name == *name && it.parent_id == *parent_id && it.source == source {
                return Some(k);
            }
            assert(self.items@.skip(k as int).drop_first() =~= self.items@.skip(k + 1));
            k = k + 1;
        }
        None
    }

    /// The identifier of the first item with this name, source and parent;
    /// one is created, with a fresh identifier, when there is none.
    pub fn find_test_or_insert(&mut self, name: &String, parent_id: &String, source: i32) -> (r: String)
        ensures
            final(self).results == old(self).results,
            final(self).reports == old(self).reports,
            final(self).memberships == old(self).memberships,
            final(self).spans == old(self).spans,
            final(self).annotations == old(self).annotations,
            final(self).tags == old(self).tags,
            old(self).items@.is_prefix_of(final(self).items@),
            first_item(final(self).items@, name@, parent_id@, source) matches Some(it) && it.id@ == r@,
            first_item(old(self).items@, name@, parent_id@, source) is Some ==> final(self).items@
                == old(self).items@,
            first_item(old(self).items@, name@, parent_id@, source) is None ==> final(self).items@.len()
                == old(self).items@.len() + 1,
    {
        match self.find_test_item(name, parent_id, source) {
            Some(k) => {
                let id = self.items[k].id.clone();
                id
            },
            None => {
                let id = new_item_id();
                let item = TestItemDb {
                    id: id.clone(),
                    parent_id: parent_id.clone(),
                    name: name.clone(),
                    source,
                };
                proof {
                    lemma_first_item_push(self.items@, item, name@, parent_id@, source);
                }
                self.items.push(item);
                assert(old(self).items@.is_prefix_of(self.items@)) by {
                    assert(self.items@.subrange(0, old(self).items@.len() as int) =~= old(self).items@);
                }
                id
            },
        }
    }

    /// Finds or creates the items that `t` is filed under, from the top of
    /// the tree down, and returns the identifier of the last one.
    fn file_items(&mut self, t: &TestResult) -> (r: String)
        ensures
            exists|ids: Seq<Seq<char>>|
                resolved_chain(final(self).items@, filed_names(*t), ids) && #[trigger] ids.last() == r@,
            old(self).items@.is_prefix_of(final(self).items@),
            resolves(old(self).items@, filed_names(*t)) ==> final(self).items@ == old(self).items@,
            final(self).results == old(self).results,
            final(self).reports == old(self).reports,
            final(self).memberships == old(self).memberships,
            final(self).spans == old(self).spans,
            final(self).annotations == old(self).annotations,
            final(self).tags == old(self).tags,
    {
        let ghost names = filed_names(*t);
        let ghost old_items = self.items@;
        let ghost ids0: Seq<Seq<char>> = if resolves(old_items, names) {
            choose|ids: Seq<Seq<char>>| resolved_chain(old_items, names, ids)
        } else {
            Seq::empty()
        };
        let mut parent = "root".to_string();
        let ghost mut ids: Seq<Seq<char>> = Seq::empty();
        let mut i: usize = 0;
        while i < t.path.len()
            invariant
                i <= t.path@.len(),
                names == filed_names(*t),
                old_items == old(self).items@,
                resolves(old_items, names) ==> resolved_chain(old_items, names, ids0),
                self.results == old(self).results,
                self.reports == old(self).reports,
                self.memberships == old(self).memberships,
                self.spans == old(self).spans,
                self.annotations == old(self).annotations,
                self.tags == old(self).tags,
                old(self).items@.is_prefix_of(self.items@),
                resolved_chain(self.items@, names.take(i as int), ids),
                parent@ == parent_at(ids, i as int),
                resolves(old_items, names) ==> self.items@ == old_items && ids == ids0.take(i as int),
            decreases t.path@.len() - i,
        {
            let ghost before = self.items@;
            let next = self.find_test_or_insert(&t.path[i], &parent, 0);
            proof {
                assert(names[i as int] == t.path@[i as int]@);
                if resolves(old_items, names) {
                    assert(parent_at(ids0, i as int) == parent_at(ids, i as int));
                    assert(level_resolved(old_items, names, ids0, i as int));
                }
                lemma_resolved_grows(before, self.items@, names.take(i as int), ids);
                let ids2 = ids.push(next@);
                assert(names.take(i + 1) =~= names.take(i as int).push(names[i as int]));
                assert forall|k: int| 0 <= k < ids2.len() implies #[trigger] level_resolved(
                    self.items@,
                    names.take(i + 1),
                    ids2,
                    k,
                ) by {
                    if k < i {
                        assert(level_resolved(self.items@, names.take(i as int), ids, k));
                        assert(ids2[k] == ids[k]);
                        assert(names.take(i + 1)[k] == names.take(i as int)[k]);
                        assert(parent_at(ids2, k) == parent_at(ids, k));
                    }
                }
                if resolves(old_items, names) {
                    assert(ids2 =~= ids0.take(i + 1));
                }
                ids = ids2;
            }
            parent = next;
            i = i + 1;
        }
        let ghost before = self.items@;
        let test_id = self.find_test_or_insert(&t.name, &parent, 0);
        proof {
            let n = t.path@.len() as int;
            assert(names.take(n) =~= str_views(t.path@));
            lemma_resolved_grows(before, self.items@, names.take(n), ids);
            let ids2 = ids.push(test_id@);
            assert(names =~= names.take(n).push(t.name@));
            assert forall|k: int| 0 <= k < ids2.len() implies #[trigger] level_resolved(
                self.items@,
                names,
                ids2,
                k,
            ) by {
                if k < n {
                    assert(level_resolved(self.items@, names.take(n), ids, k));
                    assert(ids2[k] == ids[k]);
                    assert(names[k] == names.take(n)[k]);
                    assert(parent_at(ids2, k) == parent_at(ids, k));
                }
            }
            assert(resolved_chain(self.items@, names, ids2));
            assert(ids2.last() == test_id@);
            if resolves(old_items, names) {
                assert(parent_at(ids0, n) == parent_at(ids, n));
                assert(level_resolved(old_items, names, ids0, n));
            }
        }
        test_id
    }

    /// Stores a derived result under the item of its name, below the items of
    /// its path (each found or created), replacing any row of the same test
    /// run, and returns it with its test identifier.
    pub fn save(&mut self, t: TestResult) -> (r: TestResult)
        ensures
            saved(*old(self), t, *final(self), r),
            forall|i: int|
                0 <= i < final(self).results@.len() - 1 ==> !same_pair(
                    #[trigger] final(self).results@[i],
                    final(self).results@.last(),
                ),
            old(self).wf() ==> final(self).wf(),
    {
        let test_id = self.file_items(&t);
        let results = take_vec(&mut self.results);
        let ghost old_results = results@;
        let trace_id = &t.trace_id;
        let tid = &test_id;
        let keep = |row: &TestResultDb| -> (b: bool)
            ensures
                b == other_run(tid@, trace_id@)(*row),
            { !(row.test_id == *tid && row.trace_id == *trace_id) };
        let mut kept = retain_by(results, &keep, Ghost(other_run(test_id@, t.trace_id@)));
        kept.push(
            TestResultDb {
                test_id: test_id.clone(),
                trace_id: t.trace_id.clone(),
                date: t.date,
                status: t.status.as_i32(),
                duration: t.duration,
                environment: copy_opt(&t.environment),
                components_called: copy_strings(&t.components_called),
                nb_spans: t.nb_spans,
                cleanup_status: ResultCleanupStatus::WithData,
            },
        );
        self.results = kept;
        proof {
            let f = old_results.filter(other_run(test_id@, t.trace_id@));
            assert(self.results@.drop_last() =~= f);
            assert forall|i: int| 0 <= i < self.results@.len() - 1 implies !same_pair(
                #[trigger] self.results@[i],
                self.results@.last(),
            ) by {
                old_results.lemma_filter_pred(other_run(test_id@, t.trace_id@), i);
                assert(self.results@[i] == f[i]);
            }
            if old(self).wf() {
                lemma_filter_pairs_distinct(old_results, other_run(test_id@, t.trace_id@));
                assert forall|a: int, b: int| 0 <= a < b < self.results@.len() implies !same_pair(
                    #[trigger] self.results@[a],
                    #[trigger] self.results@[b],
                ) by {
                    if b < self.results@.len() - 1 {
                        assert(self.results@[a] == f[a] && self.results@[b] == f[b]);
                    }
                }
            }
        }
        TestResult { test_id, ..t }
    }
}

/// Storing the same result a second time leaves one row for its test run and
/// creates no item: the items that the first store filed it under are found
/// again.
pub proof fn lemma_save_twice(s0: Store, t: TestResult, s1: Store, r1: TestResult, s2: Store, r2: TestResult)
    requires
        saved(s0, t, s1, r1),
        saved(s1, t, s2, r2),
    ensures
        s2.items@ == s1.items@,
        r2.test_id@ == r1.test_id@,
        s2.results@.len() == s1.results@.len(),
        forall|i: int|
            0 <= i < s2.results@.len() ==> (same_pair(#[trigger] s2.results@[i], s2.results@.last())
                <==> i == s2.results@.len() - 1),
{
    let names = filed_names(t);
    let a = choose|ids: Seq<Seq<char>>| resolved_chain(s1.items@, names, ids) && #[trigger] ids.last() == r1.test_id@;
    let b = choose|ids: Seq<Seq<char>>| resolved_chain(s2.items@, names, ids) && #[trigger] ids.last() == r2.test_id@;
    assert(resolves(s1.items@, names));
    lemma_resolved_unique(s1.items@, names, a, b, 0);
    assert(a.last() == b.last());
    let f = s1.results@.drop_last();
    let tail = s1.results@.last();
    assert(s1.results@ =~= f.push(tail));
    assert(f == s0.results@.filter(other_run(r1.test_id@, t.trace_id@)));
    assert forall|i: int| 0 <= i < f.len() implies other_run(r1.test_id@, t.trace_id@)(#[trigger] f[i]) by {
        s0.results@.lemma_filter_pred(other_run(r1.test_id@, t.trace_id@), i);
    }
    f.lemma_filter_push(tail, other_run(r1.test_id@, t.trace_id@));
    lemma_filter_keeps_all(f, other_run(r1.test_id@, t.trace_id@));
    assert(s2.results@.drop_last() == f);
    assert forall|i: int| 0 <= i < s2.results@.len() implies (same_pair(
        #[trigger] s2.results@[i],
        s2.results@.last(),
    ) <==> i == s2.results@.len() - 1) by {
        if i < s2.results@.len() - 1 {
            assert(s2.results@[i] == f[i]);
        }
    }
}

proof fn lemma_resolved_unique(items: Seq<TestItemDb>, names: Seq<Seq<char>>, a: Seq<Seq<char>>, b: Seq<Seq<char>>, k: int)
    requires
        resolved_chain(items, names, a),
        resolved_chain(items, names, b),
        0 <= k <= a.len(),
        forall|j: int| 0 <= j < k ==> a[j] == b[j],
    ensures
        a == b,
    decreases a.len() - k,
{
    if k < a.len() {
        assert(parent_at(a, k) == parent_at(b, k));
        assert(level_resolved(items, names, a, k));
        assert(level_resolved(items, names, b, k));
        assert(a[k] == b[k]);
        lemma_resolved_unique(items, names, a, b, k + 1);
    } else {
        assert(a =~= b);
    }
}

proof fn lemma_filter_keeps_all<A>(s: Seq<A>, p: spec_fn(A) -> bool)
    requires
        forall|i: int| 0 <= i < s.len() ==> p(#[trigger] s[i]),
    ensures
        s.filter(p) == s,
    decreases s.len(),
{
    if s.len() > 0 {
        let d = s.drop_last();
        assert(s =~= d.push(s.last()));
        assert forall|i: int| 0 <= i < d.len() implies p(#[trigger] d[i]) by {
            assert(d[i] == s[i]);
        }
        lemma_filter_keeps_all(d, p);
        d.lemma_filter_push(s.last(), p);
    } else {
        assert(s.filter(p).len() <= s.len());
        assert(s.filter(p) =~= s);
    }
}

} // verus!
