//! Listing test items: by identifier or parent, ordered by name, each with
//! its ancestors, its children and its latest results on request.

use vstd::prelude::*;
use crate::cache::{chain, keeps, PathCache, TestItemDb};
use crate::extract::TestResult;
use crate::query::{find_item, item_by_id, item_map, listed, selection, GetTestResults, TestResultQuery};
use crate::store::Store;

verus! {

/// The most children listed under one item.
pub const TEST_ITEM_QUERY_LIMIT: usize = 200;

/// How many of an item's latest results are listed.
pub const LAST_RESULTS_LIMIT: i64 = 5;

/// Which items to list, and what to list with each.
pub struct TestItemQuery {
    pub id: Option<String>,
    pub parent_id: Option<String>,
    pub with_full_path: bool,
    pub with_children: bool,
    pub with_traces: bool,
}

/// An item as a listing names it.
pub struct TestItem {
    pub id: String,
    pub name: String,
}

/// A listed item.
pub struct TestDetails {
    pub test_id: String,
    pub name: String,
    /// Its ancestors, from the top of the tree down.
    pub path: Vec<TestItem>,
    pub children: Vec<TestItem>,
    /// Its latest results, newest first.
    pub last_results: Vec<TestResult>,
}

/// A listing of test items.
pub struct GetTestItems(pub TestItemQuery);

/// Lexicographic order of names, character by character.
pub open spec fn name_le(a: Seq<char>, b: Seq<char>) -> bool
    decreases a.len(),
{
    if a.len() == 0 {
        true
    } else if b.len() == 0 {
        false
    } else if a[0] < b[0] {
        true
    } else if a[0] > b[0] {
        false
    } else {
        name_le(a.drop_first(), b.drop_first())
    }
}

proof fn lemma_name_le_total(a: Seq<char>, b: Seq<char>)
    ensures
        name_le(a, b) || name_le(b, a),
    decreases a.len(),
{
    if a.len() > 0 && b.len() > 0 && a[0] == b[0] {
        lemma_name_le_total(a.drop_first(), b.drop_first());
    }
}

proof fn lemma_name_le_refl(a: Seq<char>)
    ensures
        name_le(a, a),
    decreases a.len(),
{
    if a.len() > 0 {
        lemma_name_le_refl(a.drop_first());
    }
}

proof fn lemma_name_le_trans(a: Seq<char>, b: Seq<char>, c: Seq<char>)
    requires
        name_le(a, b),
        name_le(b, c),
    ensures
        name_le(a, c),
    decreases a.len(),
{
    if a.len() > 0 && b.len() > 0 && c.len() > 0 && a[0] == b[0] && b[0] == c[0] {
        lemma_name_le_trans(a.drop_first(), b.drop_first(), c.drop_first());
    }
}

/// Whether `a` comes no later than `b` in name order.
pub fn name_le_exec(a: &str, b: &str) -> (r: bool)
    ensures
        r == name_le(a@, b@),
{
    let n = a.unicode_len();
    let m = b.unicode_len();
    let mut i: usize = 0;
    assert(a@.skip(0) =~= a@);
    assert(b@.skip(0) =~= b@);
    while i < n && i < m
        invariant
            n == a@.len(),
            m == b@.len(),
            i <= n,
            i <= m,
            name_le(a@, b@) == name_le(a@.skip(i as int), b@.skip(i as int)),
        decreases n - i,
    {
        let ca = a.get_char(i);
        let cb = b.get_char(i);
        assert(a@.skip(i as int)[0] == ca);
        assert(b@.skip(i as int)[0] == cb);
        if ca < cb {
            return true;
        }
        if ca > cb {
            return false;
        }
        assert(a@.skip(i as int).drop_first() =~= a@.skip(i + 1));
        assert(b@.skip(i as int).drop_first() =~= b@.skip(i + 1));
        i = i + 1;
    }
    i == n
}

/// `sel` lists items of `items` that `p` accepts, each once, in name
/// order; it holds every accepted item unless `limit` is reached, and then
/// no item left out comes before the last one listed.
pub open spec fn ordered_selection(
    items: Seq<TestItemDb>,
    p: spec_fn(TestItemDb) -> bool,
    limit: int,
    sel: Seq<int>,
) -> bool {
    &&& sel.len() <= limit
    &&& forall|i: int| 0 <= i < sel.len() ==> 0 <= #[trigger] sel[i] < items.len() && p(items[sel[i]])
    &&& forall|i: int, j: int| 0 <= i < j < sel.len() ==> sel[i] != sel[j]
    &&& forall|i: int, j: int|
        0 <= i < j < sel.len() ==> name_le(items[sel[i]].name@, items[sel[j]].name@)
    &&& forall|k: int|
        0 <= k < items.len() && p(#[trigger] items[k]) && !sel.contains(k) ==> {
            &&& sel.len() == limit
            &&& sel.len() > 0 ==> name_le(items[sel[sel.len() - 1]].name@, items[k].name@)
        }
}

/// The indices of the items that `keep` accepts, in name order, at most
/// `limit` of them.
pub fn select_items<F: Fn(&TestItemDb) -> bool>(
    items: &Vec<TestItemDb>,
    keep: &F,
    Ghost(p): Ghost<spec_fn(TestItemDb) -> bool>,
    limit: usize,
) -> (r: Vec<usize>)
    requires
        forall|x: &TestItemDb| #[trigger] keep.requires((x,)),
        forall|x: &TestItemDb, b: bool| keep.ensures((x,), b) ==> b == p(*x),
    ensures
        ordered_selection(items@, p, limit as int, r@.map_values(|i: usize| i as int)),
{
    let n = items.len();
    let mut taken: Vec<bool> = Vec::new();
    let mut k: usize = 0;
    while k < n
        invariant
            n == items@.len(),
            k <= n,
            taken@.len() == k,
            forall|j: int| 0 <= j < k ==> !taken@[j],
        decreases n - k,
    {
        taken.push(false);
        k = k + 1;
    }
    let mut sel: Vec<usize> = Vec::new();
    let mut done = false;
    while !done && sel.len() < limit
        invariant
            n == items@.len(),
            taken@.len() == n,
            forall|x: &TestItemDb| #[trigger] keep.requires((x,)),
            forall|x: &TestItemDb, b: bool| keep.ensures((x,), b) ==> b == p(*x),
            sel@.len() <= limit,
            forall|i: int|
                0 <= i < sel@.len() ==> #[trigger] sel@[i] < n && p(items@[sel@[i] as int])
                    && taken@[sel@[i] as int],
            forall|j: int| 0 <= j < n && #[trigger] taken@[j] ==> sel@.contains(j as usize),
            forall|i: int, j: int| 0 <= i < j < sel@.len() ==> sel@[i] != sel@[j],
            forall|i: int, j: int|
                0 <= i < j < sel@.len() ==> name_le(
                    items@[sel@[i] as int].name@,
                    items@[sel@[j] as int].name@,
                ),
            sel@.len() > 0 ==> forall|j: int|
                0 <= j < n && p(#[trigger] items@[j]) && !taken@[j] ==> name_le(
                    items@[sel@[sel@.len() - 1] as int].name@,
                    items@[j].name@,
                ),
            done ==> forall|j: int| 0 <= j < n && p(#[trigger] items@[j]) ==> taken@[j],
        decreases limit - sel@.len() + if done {
            0int
        } else {
            1int
        },
    {
        let mut best: Option<usize> = None;
        let mut j: usize = 0;
        while j < n
            invariant
                n == items@.len(),
                taken@.len() == n,
                j <= n,
                forall|x: &TestItemDb| #[trigger] keep.requires((x,)),
                forall|x: &TestItemDb, b: bool| keep.ensures((x,), b) ==> b == p(*x),
                match best {
                    Some(b) => b < j && !taken@[b as int] && p(items@[b as int]) && forall|m: int|
                        0 <= m < j && !taken@[m] && p(#[trigger] items@[m]) ==> name_le(
                            items@[b as int].name@,
                            items@[m].name@,
                        ),
                    None => forall|m: int| 0 <= m < j ==> !(!taken@[m] && p(#[trigger] items@[m])),
                },
            decreases n - j,
        {
            if !taken[j] && keep(&items[j]) {
                proof {
                    lemma_name_le_refl(items@[j as int].name@);
                }
                match best {
                    Some(b) => {
                        if !name_le_exec(items[b].name.as_str(), items[j].name.as_str()) {
                            proof {
                                lemma_name_le_total(items@[b as int].name@, items@[j as int].name@);
                                assert forall|m: int|
                                    0 <= m < j && !taken@[m] && p(#[trigger] items@[m]) implies name_le(
                                    items@[j as int].name@,
                                    items@[m].name@,
                                ) by {
                                    lemma_name_le_trans(
                                        items@[j as int].name@,
                                        items@[b as int].name@,
                                        items@[m].name@,
                                    );
                                }
                            }
                            best = Some(j);
                        }
                    },
                    None => {
                        best = Some(j);
                    },
                }
            }
            j = j + 1;
        }
        match best {
            Some(b) => {
                let ghost old_sel = sel@;
                let ghost old_taken = taken@;
                taken.set(b, true);
                sel.push(b);
                assert forall|m: int| 0 <= m < n && #[trigger] taken@[m] implies sel@.contains(
                    m as usize,
                ) by {
                    if m != b as int {
                        assert(old_taken[m]);
                        assert(old_sel.contains(m as usize));
                        let w = choose|w: int| 0 <= w < old_sel.len() && old_sel[w] == m as usize;
                        assert(sel@[w] == m as usize);
                    } else {
                        assert(sel@[sel@.len() - 1] == b);
                    }
                }
                assert forall|i: int, j2: int| 0 <= i < j2 < sel@.len() implies sel@[i]
                    != sel@[j2] by {
                    if j2 == sel@.len() - 1 {
                        assert(old_taken[sel@[i] as int]);
                    }
                }
                assert forall|i: int, j2: int| 0 <= i < j2 < sel@.len() implies name_le(
                    items@[sel@[i] as int].name@,
                    items@[sel@[j2] as int].name@,
                ) by {
                    if j2 == sel@.len() - 1 {
                        let last = old_sel[old_sel.len() - 1] as int;
                        assert(name_le(items@[last].name@, items@[b as int].name@));
                        if i < old_sel.len() - 1 {
                            lemma_name_le_trans(
                                items@[sel@[i] as int].name@,
                                items@[last].name@,
                                items@[b as int].name@,
                            );
                        }
                    }
                }
            },
            None => {
                done = true;
            },
        }
    }
    proof {
        let s = sel@.map_values(|i: usize| i as int);
        assert forall|k2: int|
            0 <= k2 < n && p(#[trigger] items@[k2]) && !s.contains(k2) implies {
            &&& s.len() == limit as int
            &&& s.len() > 0 ==> name_le(items@[s[s.len() - 1]].name@, items@[k2].name@)
        } by {
            if taken@[k2] {
                let w = choose|w: int| 0 <= w < sel@.len() && sel@[w] == k2 as usize;
                assert(s[w] == k2);
            }
        }
    }
    sel
}

/// `it` passes the filters of `q`.
pub open spec fn item_query_matches(q: TestItemQuery, it: TestItemDb) -> bool {
    &&& match q.parent_id {
        Some(p) => it.parent_id@ == p@,
        None => true,
    }
    &&& match q.id {
        Some(i) => it.id@ == i@,
        None => true,
    }
}

/// The items that `q` lists.
pub open spec fn item_filter(q: TestItemQuery) -> spec_fn(TestItemDb) -> bool {
    |it: TestItemDb| item_query_matches(q, it)
}

/// The children of the item `id`.
pub open spec fn child_of(id: Seq<char>) -> spec_fn(TestItemDb) -> bool {
    |it: TestItemDb| it.parent_id@ == id
}

/// `t` names the item `it`.
pub open spec fn names_item(t: TestItem, it: TestItemDb) -> bool {
    t.id@ == it.id@ && t.name@ == it.name@
}

/// The query of an item's latest results.
pub open spec fn last_results_query(id: String) -> TestResultQuery {
    TestResultQuery {
        trace_id: None,
        status: None,
        test_id: Some(id),
        environment: None,
        min_duration: None,
        max_duration: None,
        ts: i64::MAX,
        lookback: None,
        limit: LAST_RESULTS_LIMIT,
    }
}

/// `d` is the listing of item `it` under query `q`, from the tables of `s`.
pub open spec fn detailed(d: TestDetails, it: TestItemDb, q: TestItemQuery, s: Store) -> bool {
    let ancestry = chain(item_map(s.items@), it.parent_id@, s.items@.len());
    &&& d.test_id@ == it.id@
    &&& d.name@ == it.name@
    &&& if q.with_full_path {
        d.path@.len() == ancestry.len() && forall|i: int|
            0 <= i < ancestry.len() ==> names_item(#[trigger] d.path@[i], ancestry[i])
    } else {
        d.path@.len() == 0
    }
    &&& if q.with_children {
        exists|cs: Seq<int>|
            ordered_selection(s.items@, child_of(it.id@), TEST_ITEM_QUERY_LIMIT as int, cs)
                && cs.len() == d.children@.len() && forall|i: int|
                0 <= i < cs.len() ==> names_item(#[trigger] d.children@[i], s.items@[cs[i]])
    } else {
        d.children@.len() == 0
    }
    &&& if q.with_traces {
        exists|rs: Seq<int>|
            selection(last_results_query(it.id), s.results@, rs) && rs.len()
                == d.last_results@.len() && forall|i: int|
                0 <= i < rs.len() ==> listed(#[trigger] d.last_results@[i], s.results@[rs[i]], s.items@)
    } else {
        d.last_results@.len() == 0
    }
}

fn passes_item(q: &TestItemQuery, it: &TestItemDb) -> (b: bool)
    ensures
        b == item_query_matches(*q, *it),
{
    let parent_ok = match &q.parent_id {
        Some(p) => it.parent_id == *p,
        None => true,
    };
    let id_ok = match &q.id {
        Some(i) => it.id == *i,
        None => true,
    };
    parent_ok && id_ok
}

/// The listed form of each item.
fn refs_of(v: &Vec<TestItemDb>) -> (r: Vec<TestItem>)
    ensures
        r@.len() == v@.len(),
        forall|i: int| 0 <= i < v@.len() ==> names_item(#[trigger] r@[i], v@[i]),
{
    let mut out: Vec<TestItem> = Vec::new();
    let mut i: usize = 0;
    while i < v.len()
        invariant
            i <= v@.len(),
            out@.len() == i,
            forall|k: int| 0 <= k < i ==> names_item(#[trigger] out@[k], v@[k]),
        decreases v@.len() - i,
    {
        out.push(TestItem { id: v[i].id.clone(), name: v[i].name.clone() });
        i = i + 1;
    }
    out
}

/// The listed form of the items at the given indices.
fn refs_at(items: &Vec<TestItemDb>, idx: &Vec<usize>) -> (r: Vec<TestItem>)
    requires
        forall|i: int| 0 <= i < idx@.len() ==> #[trigger] idx@[i] < items@.len(),
    ensures
        r@.len() == idx@.len(),
        forall|i: int| 0 <= i < idx@.len() ==> names_item(#[trigger] r@[i], items@[idx@[i] as int]),
{
    let mut out: Vec<TestItem> = Vec::new();
    let mut i: usize = 0;
    while i < idx.len()
        invariant
            i <= idx@.len(),
            forall|i: int| 0 <= i < idx@.len() ==> #[trigger] idx@[i] < items@.len(),
            out@.len() == i,
            forall|k: int| 0 <= k < i ==> names_item(#[trigger] out@[k], items@[idx@[k] as int]),
        decreases idx@.len() - i,
    {
        let it = &items[idx[i]];
        out.push(TestItem { id: it.id.clone(), name: it.name.clone() });
        i = i + 1;
    }
    out
}

impl Store {
    /// The items that the query lists, in name order, each with what the
    /// query asks for.
    pub fn get_test_items(&self, msg: &GetTestItems) -> (r: Vec<TestDetails>)
        ensures
            exists|sel: Seq<int>|
                ordered_selection(self.items@, item_filter(msg.0), self.items@.len() as int, sel)
                    && sel.len() == r@.len() && forall|i: int|
                    0 <= i < sel.len() ==> detailed(
                        #[trigger] r@[i],
                        self.items@[sel[i]],
                        msg.0,
                        *self,
                    ),
    {
        let q = &msg.0;
        let keep = |it: &TestItemDb| -> (b: bool)
            ensures
                b == item_filter(*q)(*it),
            { passes_item(q, it) };
        let sel = select_items(&self.items, &keep, Ghost(item_filter(msg.0)), self.items.len());
        let ghost sel_i = sel@.map_values(|i: usize| i as int);
        let items = &self.items;
        let loader = |id: &str| -> (r: Option<TestItemDb>)
            ensures
                r == item_by_id(items@, id@),
            { find_item(items, id) };
        let ghost all = item_map(self.items@);
        let mut cache = PathCache::new();
        let mut out: Vec<TestDetails> = Vec::new();
        let mut i: usize = 0;
        while i < sel.len()
            invariant
                i <= sel@.len(),
                sel_i == sel@.map_values(|i: usize| i as int),
                ordered_selection(self.items@, item_filter(msg.0), self.items@.len() as int, sel_i),
                all == item_map(self.items@),
                forall|s: &str| #[trigger] loader.requires((s,)),
                forall|s: &str, v: Option<TestItemDb>|
                    #[trigger] loader.ensures((s,), v) ==> v == item_by_id(self.items@, s@),
                cache.wf(),
                keeps(cache@, all),
                out@.len() == i,
                forall|k: int|
                    0 <= k < i ==> detailed(#[trigger] out@[k], self.items@[sel_i[k]], msg.0, *self),
            decreases sel@.len() - i,
        {
            assert(sel_i[i as int] == sel@[i as int] as int);
            let ti = &self.items[sel[i]];
            let ancestry = Ghost(chain(all, ti.parent_id@, self.items@.len()));
            let mut path: Vec<TestItem> = Vec::new();
            if msg.0.with_full_path {
                let ghost before = cache@;
                let anc = cache.ancestors(ti.parent_id.as_str(), &loader, self.items.len());
                assert(keeps(cache@, all)) by {
                    assert forall|k: Seq<char>| #[trigger] cache@.contains_key(k) implies all.contains_key(k)
                        && all[k] == cache@[k] by {
                        if !before.contains_key(k) {
                            let w = choose|w: &str| w@ == k && #[trigger] loader.ensures((w,), cache@[k]);
                            assert(cache@[k] == item_by_id(self.items@, k));
                        } else {
                            assert(before[k] == all[k]);
                        }
                    }
                }
                assert(anc@ == chain(all, ti.parent_id@, self.items@.len()));
                path = refs_of(&anc);
            }
            assert(msg.0.with_full_path ==> path@.len() == ancestry@.len() && forall|k: int|
                0 <= k < ancestry@.len() ==> names_item(#[trigger] path@[k], ancestry@[k]));
            assert(!msg.0.with_full_path ==> path@.len() == 0);
            let children = if msg.0.with_children {
                let id = &ti.id;
                let is_child = |it: &TestItemDb| -> (b: bool)
                    ensures
                        b == child_of(id@)(*it),
                    { it.parent_id == *id };
                let cs = select_items(&self.items, &is_child, Ghost(child_of(ti.id@)), TEST_ITEM_QUERY_LIMIT);
                let ghost cs_i = cs@.map_values(|i: usize| i as int);
                assert forall|k: int| 0 <= k < cs@.len() implies #[trigger] cs@[k] < self.items@.len() by {
                    assert(cs_i[k] == cs@[k] as int);
                }
                let refs = refs_at(&self.items, &cs);
                assert forall|k: int| 0 <= k < cs_i.len() implies names_item(#[trigger] refs@[k], self.items@[cs_i[k]]) by {
                    assert(cs_i[k] == cs@[k] as int);
                }
                assert(exists|w: Seq<int>|
                    ordered_selection(self.items@, child_of(ti.id@), TEST_ITEM_QUERY_LIMIT as int, w)
                        && w.len() == refs@.len() && forall|k: int|
                        0 <= k < w.len() ==> names_item(#[trigger] refs@[k], self.items@[w[k]]));
                refs
            } else {
                Vec::new()
            };
            let last_results = if msg.0.with_traces {
                let lq = TestResultQuery {
                    trace_id: None,
                    status: None,
                    test_id: Some(ti.id.clone()),
                    environment: None,
                    min_duration: None,
                    max_duration: None,
                    ts: i64::MAX,
                    lookback: None,
                    limit: LAST_RESULTS_LIMIT,
                };
                assert(lq == last_results_query(ti.id));
                self.get_test_results(&GetTestResults(lq))
            } else {
                Vec::new()
            };
            let d = TestDetails {
                test_id: ti.id.clone(),
                name: ti.name.clone(),
                path,
                children,
                last_results,
            };
            assert(detailed(d, *ti, msg.0, *self));
            out.push(d);
            i = i + 1;
        }
        out
    }
}

} // verus!
