//! Reading stored results back: filtering, newest first, within a limit,
//! each with its test name and ancestor path.

use vstd::prelude::*;
use vstd::set_lib::{lemma_int_range, lemma_len_subset, set_int_range};
use crate::clock::now_micros;
use crate::assoc::map_of;
use crate::cache::{chain, keeps, names_of, PathCache, TestItemDb};
use crate::extract::{TestResult, TestStatus};
use crate::persist::copy_strings;
use crate::store::{Store, TestResultDb};
use crate::text::{contains_str, copy_opt, lower_of, lowercase, opt_view, str_eq, str_views};

verus! {

/// The most results one query returns.
pub const TEST_RESULT_QUERY_LIMIT: i64 = 100;

/// Filters of a result listing. Times are in microseconds.
pub struct TestResultQuery {
    pub trace_id: Option<String>,
    /// Stored status code.
    pub status: Option<i32>,
    pub test_id: Option<String>,
    pub environment: Option<String>,
    pub min_duration: Option<i64>,
    pub max_duration: Option<i64>,
    /// Latest date listed.
    pub ts: i64,
    /// How far back from `ts` results are listed.
    pub lookback: Option<i64>,
    pub limit: i64,
}

/// Parameters of a result listing as a client gives them: times in
/// milliseconds, the status as text.
pub struct TestResultsQueryParams {
    pub trace_id: Option<String>,
    pub status: Option<String>,
    pub test_id: Option<String>,
    pub environment: Option<String>,
    pub min_duration: Option<i64>,
    pub max_duration: Option<i64>,
    pub ts: Option<i64>,
    pub lookback: Option<i64>,
    pub limit: Option<i64>,
}

/// The stored code of a lowercase status name.
pub open spec fn status_filter(s: Seq<char>) -> Option<i32> {
    if s == "success"@ {
        Some(0)
    } else if s == "failure"@ {
        Some(1)
    } else if s == "skipped"@ {
        Some(2)
    } else {
        None
    }
}

/// `ms` milliseconds in microseconds, kept within `i64`.
pub open spec fn micros_of(ms: i64) -> i64 {
    let v = ms as int * 1000;
    if v < i64::MIN {
        i64::MIN
    } else if v > i64::MAX {
        i64::MAX
    } else {
        v as i64
    }
}

/// The requested limit, never above the cap.
pub open spec fn capped_limit(l: Option<i64>) -> i64 {
    match l {
        Some(v) => if v > TEST_RESULT_QUERY_LIMIT {
            TEST_RESULT_QUERY_LIMIT
        } else {
            v
        },
        None => TEST_RESULT_QUERY_LIMIT,
    }
}

fn micros_exec(ms: i64) -> (r: i64)
    ensures
        r == micros_of(ms),
{
    let v: i128 = ms as i128 * 1000;
    if v < i64::MIN as i128 {
        i64::MIN
    } else if v > i64::MAX as i128 {
        i64::MAX
    } else {
        v as i64
    }
}

/// The stored code of a status name, read without regard to case.
pub fn status_code_of(s: &str) -> (r: Option<i32>)
    ensures
        r == status_filter(lower_of(s@)),
{
    let lowered = lowercase(s);
    if str_eq(lowered.as_str(), "success") {
        Some(0)
    } else if str_eq(lowered.as_str(), "failure") {
        Some(1)
    } else if str_eq(lowered.as_str(), "skipped") {
        Some(2)
    } else {
        None
    }
}

/// The query that `params` describe, with `now` for a missing `ts`.
pub open spec fn query_of_params(params: TestResultsQueryParams, now: i64) -> TestResultQuery {
    TestResultQuery {
        trace_id: params.trace_id,
        status: match params.status {
            Some(s) => status_filter(lower_of(s@)),
            None => None,
        },
        test_id: params.test_id,
        environment: params.environment,
        min_duration: params.min_duration,
        max_duration: params.max_duration,
        ts: match params.ts {
            Some(v) => micros_of(v),
            None => now,
        },
        lookback: match params.lookback {
            Some(v) => Some(micros_of(v)),
            None => None,
        },
        limit: capped_limit(params.limit),
    }
}

/// `r` passes every filter of `q`.
pub open spec fn query_matches(q: TestResultQuery, r: TestResultDb) -> bool {
    &&& match q.trace_id {
        Some(t) => r.trace_id@ == t@,
        None => true,
    }
    &&& match q.status {
        Some(s) => r.status == s,
        None => true,
    }
    &&& match q.test_id {
        Some(t) => r.test_id@ == t@,
        None => true,
    }
    &&& match q.environment {
        Some(e) => r.environment matches Some(re) && re@ == e@,
        None => true,
    }
    &&& match q.max_duration {
        Some(m) => r.duration <= m,
        None => true,
    }
    &&& match q.min_duration {
        Some(m) => r.duration >= m,
        None => true,
    }
    &&& r.date <= q.ts
    &&& match q.lookback {
        Some(lb) => r.date >= q.ts - lb,
        None => true,
    }
}

/// The limit applied: the requested one, within zero and the cap.
pub open spec fn effective_limit(q: TestResultQuery) -> int {
    if q.limit < 0 {
        0
    } else if q.limit > TEST_RESULT_QUERY_LIMIT {
        TEST_RESULT_QUERY_LIMIT as int
    } else {
        q.limit as int
    }
}

/// `sel` lists rows of `rows` that match `q`, each once, newest first; it
/// holds every match unless the limit is reached, and then no match left out
/// is newer than the last one listed.
pub open spec fn selection(q: TestResultQuery, rows: Seq<TestResultDb>, sel: Seq<int>) -> bool {
    &&& sel.len() <= effective_limit(q)
    &&& forall|i: int| 0 <= i < sel.len() ==> 0 <= #[trigger] sel[i] < rows.len() && query_matches(q, rows[sel[i]])
    &&& forall|i: int, j: int| 0 <= i < j < sel.len() ==> sel[i] != sel[j]
    &&& forall|i: int, j: int| 0 <= i < j < sel.len() ==> rows[sel[i]].date >= rows[sel[j]].date
    &&& forall|k: int|
        0 <= k < rows.len() && query_matches(q, #[trigger] rows[k]) && !sel.contains(k) ==> {
            &&& sel.len() == effective_limit(q)
            &&& sel.len() > 0 ==> rows[k].date <= rows[sel[sel.len() - 1]].date
        }
}

/// The first item with identifier `id`.
pub open spec fn item_by_id(items: Seq<TestItemDb>, id: Seq<char>) -> Option<TestItemDb>
    decreases items.len(),
{
    if items.len() == 0 {
        None
    } else if items[0].id@ == id {
        Some(items[0])
    } else {
        item_by_id(items.drop_first(), id)
    }
}

/// The items of `c` have distinct identifiers.
pub open spec fn distinct_ids(c: Seq<TestItemDb>) -> bool {
    forall|i: int, j: int| 0 <= i < j < c.len() ==> (#[trigger] c[i]).id@ != (#[trigger] c[j]).id@
}

/// `x` is one of `items`.
pub open spec fn in_items(items: Seq<TestItemDb>, x: TestItemDb) -> bool {
    exists|k: int| 0 <= k < items.len() && items[k] == x
}

proof fn lemma_item_by_id_in(items: Seq<TestItemDb>, id: Seq<char>)
    ensures
        item_by_id(items, id) matches Some(it) ==> exists|k: int| 0 <= k < items.len() && items[k] == it,
    decreases items.len(),
{
    if items.len() > 0 && items[0].id@ != id {
        lemma_item_by_id_in(items.drop_first(), id);
        if item_by_id(items, id) is Some {
            let it = item_by_id(items, id).unwrap();
            let k = choose|k: int| 0 <= k < items.len() - 1 && items.drop_first()[k] == it;
            assert(items[k + 1] == it);
        }
    } else if items.len() > 0 {
        assert(items[0] == item_by_id(items, id).unwrap());
    }
}

proof fn lemma_chain_in_items(items: Seq<TestItemDb>, x: Seq<char>, f: nat)
    ensures
        forall|i: int|
            0 <= i < chain(item_map(items), x, f).len() ==> in_items(
                items,
                #[trigger] chain(item_map(items), x, f)[i],
            ),
    decreases f,
{
    let m = item_map(items);
    if !(f == 0 || x == "root"@ || !m.contains_key(x)) {
        if m[x] is Some {
            let it = m[x].unwrap();
            lemma_chain_in_items(items, it.parent_id@, (f - 1) as nat);
            lemma_item_by_id_in(items, x);
            let c = chain(m, x, f);
            let d = chain(m, it.parent_id@, (f - 1) as nat);
            assert forall|i: int| 0 <= i < c.len() implies in_items(items, #[trigger] c[i]) by {
                if i < d.len() {
                    assert(c[i] == d[i]);
                } else {
                    assert(c[i] == it);
                }
            }
        }
    }
}

proof fn lemma_distinct_bounded(items: Seq<TestItemDb>, c: Seq<TestItemDb>)
    requires
        distinct_ids(c),
        forall|i: int| 0 <= i < c.len() ==> in_items(items, #[trigger] c[i]),
    ensures
        c.len() <= items.len(),
{
    let ks = Seq::new(c.len(), |i: int| choose|k: int| 0 <= k < items.len() && items[k] == c[i]);
    assert forall|i: int| 0 <= i < c.len() implies 0 <= #[trigger] ks[i] < items.len() && items[ks[i]] == c[i] by {
        assert(in_items(items, c[i]));
    }
    assert(ks.no_duplicates()) by {
        assert forall|i: int, j: int| 0 <= i < ks.len() && 0 <= j < ks.len() && i != j implies ks[i] != ks[j] by {
            assert(0 <= ks[i] < items.len() && items[ks[i]] == c[i]);
            assert(0 <= ks[j] < items.len() && items[ks[j]] == c[j]);
            if i < j {
                assert(c[i].id@ != c[j].id@);
            } else {
                assert(c[j].id@ != c[i].id@);
            }
        }
    }
    ks.unique_seq_to_set();
    lemma_int_range(0, items.len() as int);
    assert forall|v: int| ks.to_set().contains(v) implies set_int_range(0, items.len() as int).contains(v) by {
        let i = choose|i: int| 0 <= i < ks.len() && ks[i] == v;
        assert(0 <= ks[i] < items.len());
    }
    lemma_len_subset(ks.to_set(), set_int_range(0, items.len() as int));
}

proof fn lemma_chain_settles(m: Map<Seq<char>, Option<TestItemDb>>, x: Seq<char>, g: nat, g2: nat)
    requires
        chain(m, x, g).len() < g,
        g2 >= chain(m, x, g).len(),
    ensures
        chain(m, x, g2) == chain(m, x, g),
    decreases g,
{
    if !(x == "root"@ || !m.contains_key(x)) && m[x] is Some {
        let it = m[x].unwrap();
        lemma_chain_settles(m, it.parent_id@, (g - 1) as nat, (g2 - 1) as nat);
    }
}

/// Where the walk up from `x` meets no item twice in as many steps as there
/// are items, listing with the number of items as the bound is not cut:
/// any larger bound gives the same ancestors.
pub proof fn lemma_full_ancestry(items: Seq<TestItemDb>, x: Seq<char>, f: nat)
    requires
        f >= items.len(),
        distinct_ids(chain(item_map(items), x, (items.len() + 1) as nat)),
    ensures
        chain(item_map(items), x, f) == chain(item_map(items), x, items.len()),
{
    let n = items.len();
    let m = item_map(items);
    lemma_chain_in_items(items, x, (n + 1) as nat);
    lemma_distinct_bounded(items, chain(m, x, (n + 1) as nat));
    lemma_chain_settles(m, x, (n + 1) as nat, f);
    lemma_chain_settles(m, x, (n + 1) as nat, n);
}

/// Every identifier with its first item, or with absence.
pub open spec fn item_map(items: Seq<TestItemDb>) -> Map<Seq<char>, Option<TestItemDb>> {
    Map::new(|k: Seq<char>| true, |k: Seq<char>| item_by_id(items, k))
}

/// The decoded status of a stored code.
pub open spec fn status_of_code(v: i32) -> TestStatus {
    if v == 0 {
        TestStatus::Success
    } else if v == 2 {
        TestStatus::Skipped
    } else {
        TestStatus::Failure
    }
}

/// `t` is the listing of row `row`, named and placed by the items `items`.
pub open spec fn listed(t: TestResult, row: TestResultDb, items: Seq<TestItemDb>) -> bool {
    &&& t.test_id@ == row.test_id@
    &&& t.trace_id@ == row.trace_id@
    &&& t.date == row.date
    &&& t.duration == row.duration
    &&& t.status == status_of_code(row.status)
    &&& opt_view(t.environment) == opt_view(row.environment)
    &&& t.components_called@ == row.components_called@
    &&& t.nb_spans == row.nb_spans
    &&& match item_by_id(items, row.test_id@) {
        Some(it) => t.name@ == it.name@ && str_views(t.path@) == names_of(
            chain(item_map(items), it.parent_id@, items.len()),
        ),
        None => t.name@ == "missing name"@ && t.path@.len() == 0,
    }
}

/// The first item with identifier `id`.
pub fn find_item(items: &Vec<TestItemDb>, id: &str) -> (r: Option<TestItemDb>)
    ensures
        r == item_by_id(items@, id@),
{
    let mut i: usize = 0;
    assert(items@.skip(0) =~= items@);
    while i < items.len()
        invariant
            i <= items@.len(),
            item_by_id(items@, id@) == item_by_id(items@.skip(i as int), id@),
        decreases items@.len() - i,
    {
        assert(items@.skip(i as int)[0] == items@[i as int]);
        if str_eq(items[i].id.as_str(), id) {
            return Some(items[i].copy());
        }
        assert(items@.skip(i as int).drop_first() =~= items@.skip(i + 1));
        i = i + 1;
    }
    None
}

fn passes(q: &TestResultQuery, r: &TestResultDb) -> (b: bool)
    ensures
        b == query_matches(*q, *r),
{
    let trace_ok = match &q.trace_id {
        Some(t) => r.trace_id == *t,
        None => true,
    };
    let status_ok = match q.status {
        Some(s) => r.status == s,
        None => true,
    };
    let test_ok = match &q.test_id {
        Some(t) => r.test_id == *t,
        None => true,
    };
    let env_ok = match &q.environment {
        Some(e) => match &r.environment {
            Some(re) => *re == *e,
            None => false,
        },
        None => true,
    };
    let max_ok = match q.max_duration {
        Some(m) => r.duration <= m,
        None => true,
    };
    let min_ok = match q.min_duration {
        Some(m) => r.duration >= m,
        None => true,
    };
    let lookback_ok = match q.lookback {
        Some(lb) => r.date as i128 >= q.ts as i128 - lb as i128,
        None => true,
    };
    trace_ok && status_ok && test_ok && env_ok && max_ok && min_ok && r.date <= q.ts && lookback_ok
}

impl Default for TestResultQuery {
    /// A listing of everything up to the current time, within the default
    /// limit.
    fn default() -> (r: TestResultQuery)
        ensures
            r.trace_id is None,
            r.status is None,
            r.test_id is None,
            r.environment is None,
            r.min_duration is None,
            r.max_duration is None,
            r.lookback is None,
            r.limit == TEST_RESULT_QUERY_LIMIT,
    {
        TestResultQuery::up_to(now_micros())
    }
}

impl TestResultQuery {
    /// A listing of everything up to `now`, within the default limit.
    pub fn up_to(now: i64) -> (r: TestResultQuery)
        ensures
            r.trace_id is None,
            r.status is None,
            r.test_id is None,
            r.environment is None,
            r.min_duration is None,
            r.max_duration is None,
            r.ts == now,
            r.lookback is None,
            r.limit == TEST_RESULT_QUERY_LIMIT,
    {
        TestResultQuery {
            trace_id: None,
            status: None,
            test_id: None,
            environment: None,
            min_duration: None,
            max_duration: None,
            ts: now,
            lookback: None,
            limit: TEST_RESULT_QUERY_LIMIT,
        }
    }

    /// The query that `params` describe; `now` (microseconds) stands for a
    /// missing `ts`.
    pub fn from_params_at(params: TestResultsQueryParams, now: i64) -> (r: TestResultQuery)
        ensures
            r == query_of_params(params, now),
    {
        let status = match &params.status {
            Some(s) => status_code_of(s.as_str()),
            None => None,
        };
        let ts = match params.ts {
            Some(v) => micros_exec(v),
            None => now,
        };
        let lookback = match params.lookback {
            Some(v) => Some(micros_exec(v)),
            None => None,
        };
        let limit = match params.limit {
            Some(v) => if v > TEST_RESULT_QUERY_LIMIT {
                TEST_RESULT_QUERY_LIMIT
            } else {
                v
            },
            None => TEST_RESULT_QUERY_LIMIT,
        };
        TestResultQuery {
            trace_id: params.trace_id,
            status,
            test_id: params.test_id,
            environment: params.environment,
            min_duration: params.min_duration,
            max_duration: params.max_duration,
            ts,
            lookback,
            limit,
        }
    }

    /// The query that `params` describe; a missing `ts` stands for the
    /// current time.
    pub fn from_params(params: TestResultsQueryParams) -> (r: TestResultQuery)
        ensures
            exists|now: i64|
                r == query_of_params(params, now),
    {
        let now = now_micros();
        TestResultQuery::from_params_at(params, now)
    }

    /// Whether a stored row passes the filters.
    pub fn matches(&self, r: &TestResultDb) -> (b: bool)
        ensures
            b == query_matches(*self, *r),
    {
        passes(self, r)
    }

    /// The limit applied.
    pub fn effective_limit(&self) -> (r: usize)
        ensures
            r as int == effective_limit(*self),
    {
        if self.limit < 0 {
            0
        } else if self.limit > TEST_RESULT_QUERY_LIMIT {
            TEST_RESULT_QUERY_LIMIT as usize
        } else {
            self.limit as usize
        }
    }
}

impl Store {
    /// The rows that `q` lists, newest first.
    pub fn select_results(&self, q: &TestResultQuery) -> (r: Vec<usize>)
        ensures
            selection(*q, self.results@, r@.map_values(|i: usize| i as int)),
    {
        let n = self.results.len();
        let limit = q.effective_limit();
        let mut taken: Vec<bool> = Vec::new();
        let mut k: usize = 0;
        while k < n
            invariant
                n == self.results@.len(),
                k <= n,
                taken@.len() == k,
                forall|j: int| 0 <= j < k ==> !taken@[j],
            decreases n - k,
        {
            taken.push(false);
            k = k + 1;
        }
        let ghost rows = self.results@;
        let mut sel: Vec<usize> = Vec::new();
        let mut done = false;
        while !done && sel.len() < limit
            invariant
                n == rows.len(),
                rows == self.results@,
                taken@.len() == n,
                limit as int == effective_limit(*q),
                sel@.len() <= limit,
                forall|i: int|
                    0 <= i < sel@.len() ==> #[trigger] sel@[i] < n && query_matches(
                        *q,
                        rows[sel@[i] as int],
                    ) && taken@[sel@[i] as int],
                forall|j: int| 0 <= j < n && #[trigger] taken@[j] ==> sel@.contains(j as usize),
                forall|i: int, j: int| 0 <= i < j < sel@.len() ==> sel@[i] != sel@[j],
                forall|i: int, j: int|
                    0 <= i < j < sel@.len() ==> rows[sel@[i] as int].date >= rows[sel@[j] as int].date,
                sel@.len() > 0 ==> forall|j: int|
                    0 <= j < n && query_matches(*q, #[trigger] rows[j]) && !taken@[j] ==> rows[j].date
                        <= rows[sel@[sel@.len() - 1] as int].date,
                done ==> forall|j: int| 0 <= j < n && query_matches(*q, #[trigger] rows[j]) ==> taken@[j],
            decreases limit - sel@.len() + if done {
                0int
            } else {
                1int
            },
        {
            let mut best: Option<usize> = None;
            let mut j: usize = 0;
            while j < n
                invariant
                    n == rows.len(),
                    rows == self.results@,
                    taken@.len() == n,
                    j <= n,
                    match best {
                        Some(b) => b < j && !taken@[b as int] && query_matches(*q, rows[b as int])
                            && forall|m: int|
                            0 <= m < j && !taken@[m] && query_matches(*q, #[trigger] rows[m])
                                ==> rows[m].date <= rows[b as int].date,
                        None => forall|m: int|
                            0 <= m < j ==> !(!taken@[m] && query_matches(*q, #[trigger] rows[m])),
                    },
                decreases n - j,
            {
                if !taken[j] && passes(q, &self.results[j]) {
                    match best {
                        Some(b) => {
                            if self.results[j].date > self.results[b].date {
                                best = Some(j);
                            }
                        },
                        None => {
                            best = Some(j);
                        },
                    }
                }
                j = j + 1;
            }
            match best {
                Some(b) => {
                    let ghost old_sel = sel@;
                    let ghost old_taken = taken@;
                    taken.set(b, true);
                    sel.push(b);
                    assert forall|m: int| 0 <= m < n && #[trigger] taken@[m] implies sel@.contains(
                        m as usize,
                    ) by {
                        if m != b as int {
                            assert(old_taken[m]);
                            assert(old_sel.contains(m as usize));
                            let w = choose|w: int| 0 <= w < old_sel.len() && old_sel[w] == m as usize;
                            assert(sel@[w] == m as usize);
                        } else {
                            assert(sel@[sel@.len() - 1] == b);
                        }
                    }
                    assert forall|i: int, j2: int| 0 <= i < j2 < sel@.len() implies sel@[i]
                        != sel@[j2] by {
                        if j2 == sel@.len() - 1 {
                            assert(old_taken[sel@[i] as int]);
                        }
                    }
                    assert forall|i: int, j2: int| 0 <= i < j2 < sel@.len() implies rows[sel@[i] as int].date
                        >= rows[sel@[j2] as int].date by {
                        if j2 == sel@.len() - 1 && old_sel.len() > 0 {
                            assert(rows[b as int].date <= rows[old_sel[old_sel.len() - 1] as int].date);
                        }
                    }
                },
                None => {
                    done = true;
                },
            }
        }
        proof {
            let s = sel@.map_values(|i: usize| i as int);
            assert forall|k2: int|
                0 <= k2 < n && query_matches(*q, #[trigger] rows[k2]) && !s.contains(k2) implies {
                &&& s.len() == effective_limit(*q)
                &&& s.len() > 0 ==> rows[k2].date <= rows[s[s.len() - 1]].date
            } by {
                if taken@[k2] {
                    let w = choose|w: int| 0 <= w < sel@.len() && sel@[w] == k2 as usize;
                    assert(s[w] == k2);
                }
            }
        }
        sel
    }
}

/// Every entry of `seed` holds the first item with its identifier.
pub open spec fn seed_agrees(seed: Seq<(String, Option<TestItemDb>)>, items: Seq<TestItemDb>) -> bool {
    forall|i: int| 0 <= i < seed.len() ==> (#[trigger] seed[i]).1 == item_by_id(items, seed[i].0@)
}

proof fn lemma_seed_agrees(seed: Seq<(String, Option<TestItemDb>)>, items: Seq<TestItemDb>)
    requires
        seed_agrees(seed, items),
    ensures
        keeps(map_of(seed), item_map(items)),
    decreases seed.len(),
{
    if seed.len() > 0 {
        let d = seed.drop_last();
        assert forall|i: int| 0 <= i < d.len() implies (#[trigger] d[i]).1 == item_by_id(items, d[i].0@) by {
            assert(d[i] == seed[i]);
        }
        lemma_seed_agrees(d, items);
        assert(seed.last() == seed[seed.len() - 1]);
    }
}

/// The items of the rows at `sel`, fetched together before the listing
/// walks any path.
fn prefetch(rows: &Vec<TestResultDb>, sel: &Vec<usize>, items: &Vec<TestItemDb>) -> (r: Vec<
    (String, Option<TestItemDb>),
>)
    requires
        forall|i: int| 0 <= i < sel@.len() ==> #[trigger] sel@[i] < rows@.len(),
    ensures
        seed_agrees(r@, items@),
{
    let mut seed: Vec<(String, Option<TestItemDb>)> = Vec::new();
    let mut i: usize = 0;
    while i < sel.len()
        invariant
            i <= sel@.len(),
            forall|i: int| 0 <= i < sel@.len() ==> #[trigger] sel@[i] < rows@.len(),
            seed_agrees(seed@, items@),
        decreases sel@.len() - i,
    {
        let id = &rows[sel[i]].test_id;
        let found = find_item(items, id.as_str());
        seed.push((id.clone(), found));
        i = i + 1;
    }
    seed
}

/// A listing of stored results.
pub struct GetTestResults(pub TestResultQuery);

impl Store {
    /// The results that the query lists, newest first, each with the name of
    /// its test item and the names of that item's ancestors.
    pub fn get_test_results(&self, msg: &GetTestResults) -> (r: Vec<TestResult>)
        ensures
            exists|sel: Seq<int>|
                selection(msg.0, self.results@, sel) && sel.len() == r@.len() && forall|i: int|
                    0 <= i < sel.len() ==> listed(
                        #[trigger] r@[i],
                        self.results@[sel[i]],
                        self.items@,
                    ),
    {
        let sel = self.select_results(&msg.0);
        let ghost sel_i = sel@.map_values(|i: usize| i as int);
        let items = &self.items;
        let loader = |id: &str| -> (r: Option<TestItemDb>)
            ensures
                r == item_by_id(items@, id@),
            { find_item(items, id) };
        let ghost all = item_map(self.items@);
        assert forall|i: int| 0 <= i < sel@.len() implies #[trigger] sel@[i] < self.results@.len() by {
            assert(sel_i[i] == sel@[i] as int);
        }
        let seed = prefetch(&self.results, &sel, &self.items);
        proof {
            lemma_seed_agrees(seed@, self.items@);
        }
        let mut cache = PathCache::new_with(seed);
        let mut out: Vec<TestResult> = Vec::new();
        let mut i: usize = 0;
        while i < sel.len()
            invariant
                i <= sel@.len(),
                sel_i == sel@.map_values(|i: usize| i as int),
                selection(msg.0, self.results@, sel_i),
                all == item_map(self.items@),
                forall|s: &str| #[trigger] loader.requires((s,)),
                forall|s: &str, v: Option<TestItemDb>| #[trigger] loader.ensures((s,), v) ==> v == item_by_id(self.items@, s@),
                cache.wf(),
                keeps(cache@, all),
                out@.len() == i,
                forall|k: int| 0 <= k < i ==> listed(#[trigger] out@[k], self.results@[sel_i[k]], self.items@),
            decreases sel@.len() - i,
        {
            assert(sel_i[i as int] == sel@[i as int] as int);
            let row = &self.results[sel[i]];
            let ghost before = cache@;
            let item = cache.get(row.test_id.as_str(), &loader);
            assert(item == item_by_id(self.items@, row.test_id@));
            assert(keeps(cache@, all)) by {
                assert forall|k: Seq<char>| #[trigger] cache@.contains_key(k) implies all.contains_key(k) && all[k] == cache@[k] by {
                    if before.contains_key(k) {
                        assert(before[k] == all[k]);
                    }
                }
            }
            let (name, path) = match item {
                Some(it) => {
                    let ghost mid = cache@;
                    let path = cache.ancestor_names(it.parent_id.as_str(), &loader, self.items.len());
                    assert(keeps(cache@, all)) by {
                        assert forall|k: Seq<char>| #[trigger] cache@.contains_key(k) implies all.contains_key(k) && all[k] == cache@[k] by {
                            if !mid.contains_key(k) {
                                let w = choose|w: &str| w@ == k && #[trigger] loader.ensures((w,), cache@[k]);
                                assert(cache@[k] == item_by_id(self.items@, k));
                            } else {
                                assert(mid[k] == all[k]);
                            }
                        }
                    }
                    (it.name, path)
                },
                None => ("missing name".to_string(), Vec::new()),
            };
            let t = TestResult {
                test_id: row.test_id.clone(),
                path,
                name,
                trace_id: row.trace_id.clone(),
                date: row.date,
                status: TestStatus::from_i32(row.status),
                duration: row.duration,
                environment: copy_opt(&row.environment),
                components_called: copy_strings(&row.components_called),
                nb_spans: row.nb_spans,
            };
            out.push(t);
            i = i + 1;
        }
        out
    }
}

/// The environment of a stored result, if it has one.
pub open spec fn env_of(r: TestResultDb) -> Option<Seq<char>> {
    match r.environment {
        Some(e) => Some(e@),
        None => None,
    }
}

/// A listing of the distinct environments of the stored results.
pub struct GetEnvironments;

impl Store {
    /// Each environment named by a stored result, once, in the order of
    /// first appearance.
    pub fn get_environments(&self, _msg: &GetEnvironments) -> (r: Vec<String>)
        ensures
            forall|i: int, j: int| 0 <= i < j < r@.len() ==> r@[i]@ != r@[j]@,
            forall|e: Seq<char>|
                str_views(r@).contains(e) <==> exists|k: int|
                    0 <= k < self.results@.len() && env_of(#[trigger] self.results@[k]) == Some(e),
    {
        let mut out: Vec<String> = Vec::new();
        let mut i: usize = 0;
        while i < self.results.len()
            invariant
                i <= self.results@.len(),
                forall|a: int, b: int| 0 <= a < b < out@.len() ==> out@[a]@ != out@[b]@,
                forall|e: Seq<char>|
                    str_views(out@).contains(e) <==> exists|k: int|
                        0 <= k < i && env_of(#[trigger] self.results@[k]) == Some(e),
            decreases self.results@.len() - i,
        {
            let ghost prev = out@;
            match &self.results[i].environment {
                Some(e) => {
                    if !contains_str(&out, e.as_str()) {
                        out.push(e.clone());
                        assert(str_views(out@) =~= str_views(prev).push(e@));
                        assert forall|a: int, b: int| 0 <= a < b < out@.len() implies out@[a]@ != out@[b]@ by {
                            if b == out@.len() - 1 {
                                assert(str_views(prev)[a] == prev[a]@);
                            }
                        }
                    }
                },
                None => {},
            }
            assert forall|e: Seq<char>|
                str_views(out@).contains(e) <==> exists|k: int|
                    0 <= k < i + 1 && env_of(#[trigger] self.results@[k]) == Some(e) by {
                if str_views(out@).contains(e) {
                    if str_views(prev).contains(e) {
                        let k = choose|k: int| 0 <= k < i && env_of(#[trigger] self.results@[k]) == Some(e);
                        assert(0 <= k < i + 1 && env_of(self.results@[k]) == Some(e));
                    } else {
                        assert(env_of(self.results@[i as int]) == Some(e));
                    }
                }
                if exists|k: int| 0 <= k < i + 1 && env_of(#[trigger] self.results@[k]) == Some(e) {
                    let k = choose|k: int| 0 <= k < i + 1 && env_of(#[trigger] self.results@[k]) == Some(e);
                    if k < i {
                        assert(str_views(prev).contains(e));
                    }
                    if str_views(prev).contains(e) {
                        let w = choose|w: int| 0 <= w < prev.len() && str_views(prev)[w] == e;
                        assert(str_views(out@)[w] == e);
                    } else {
                        assert(k == i);
                        assert(str_views(out@)[out@.len() - 1] == e);
                    }
                }
            }
            i = i + 1;
        }
        out
    }
}

} // verus!
