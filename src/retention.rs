//! The retention sweep: expired shells are deleted, stale results with
//! data are demoted to shells and their spans removed, and expired reports
//! are deleted, each parent row after the rows that depend on it.

use vstd::prelude::*;
use crate::store::{
    lemma_filter_pairs_distinct, same_pair, retain_by, take_vec, AnnotationRow, ReportDb, ReportMembership, ResultCleanupStatus, SpanRow, Store,
    TagRow, TestResultDb,
};
use crate::clock::now_micros;
use crate::text::contains_str;

verus! {

broadcast use vstd::seq_lib::group_filter_ensures;

/// Delays of the sweep, in milliseconds.
pub struct CleanupConfig {
    /// Age after which a shell is deleted.
    pub delay_test_results: i64,
    /// Age after which a result with data is demoted to a shell.
    pub delay_spans: i64,
    /// Age after which a report is deleted.
    pub delay_reports: i64,
    /// Period between the end of one cycle and the start of the next.
    pub schedule: u64,
}

/// `now` (microseconds) less `delay_ms` milliseconds, kept within `i64`.
pub open spec fn cutoff(now: i64, delay_ms: i64) -> i64 {
    let c = now as int - delay_ms as int * 1000;
    if c < i64::MIN {
        i64::MIN
    } else if c > i64::MAX {
        i64::MAX
    } else {
        c as i64
    }
}

/// The cut-off times of one cycle, in microseconds since the epoch.
pub struct CleanUp {
    pub shells_before: i64,
    pub spans_before: i64,
    pub reports_before: i64,
}

/// What one cycle removed.
pub struct CleanupCounts {
    /// Shells deleted.
    pub deleted: usize,
    /// Results demoted to shells.
    pub cleaned: usize,
    /// Reports deleted.
    pub reports_removed: usize,
}

/// Schedules the sweep: each cycle starts `schedule_ms` after the previous
/// one finished.
pub struct CleanUpTimer {
    pub schedule_ms: u64,
}

impl CleanUpTimer {
    /// A timer for the period of `config`.
    pub fn new(config: &CleanupConfig) -> (r: CleanUpTimer)
        ensures
            r.schedule_ms == config.schedule,
    {
        CleanUpTimer { schedule_ms: config.schedule }
    }

    /// When the next cycle starts, for a cycle that finished at
    /// `finished_at` (milliseconds); the sum saturates.
    pub fn next_run(&self, finished_at: u64) -> (r: u64)
        ensures
            r as int == if finished_at as int + self.schedule_ms as int > u64::MAX as int {
                u64::MAX as int
            } else {
                finished_at as int + self.schedule_ms as int
            },
    {
        finished_at.saturating_add(self.schedule_ms)
    }
}

/// A shell older than `l`.
pub open spec fn expired_shell(l: i64, r: TestResultDb) -> bool {
    r.cleanup_status == ResultCleanupStatus::Shell && r.date < l
}

/// A result with data older than `l`.
pub open spec fn stale_with_data(l: i64, r: TestResultDb) -> bool {
    r.cleanup_status == ResultCleanupStatus::WithData && r.date < l
}

/// A report last updated before `l`.
pub open spec fn expired_report(l: i64, r: ReportDb) -> bool {
    r.last_update < l
}

/// Results kept by the first phase.
pub open spec fn keep_result(l: i64) -> spec_fn(TestResultDb) -> bool {
    |r: TestResultDb| !expired_shell(l, r)
}

/// Results selected by the second phase.
pub open spec fn demotable(l: i64) -> spec_fn(TestResultDb) -> bool {
    |r: TestResultDb| stale_with_data(l, r)
}

/// A result after the second phase.
pub open spec fn demote(l: i64) -> spec_fn(TestResultDb) -> TestResultDb {
    |r: TestResultDb|
        if stale_with_data(l, r) {
            TestResultDb { cleanup_status: ResultCleanupStatus::Shell, ..r }
        } else {
            r
        }
}

/// Reports kept by the fourth phase.
pub open spec fn keep_report(l: i64) -> spec_fn(ReportDb) -> bool {
    |r: ReportDb| !expired_report(l, r)
}

/// `m` belongs to a result of `rs` that is a shell older than `l`.
pub open spec fn of_expired_result(rs: Seq<TestResultDb>, l: i64, m: ReportMembership) -> bool {
    exists|j: int|
        0 <= j < rs.len() && expired_shell(l, #[trigger] rs[j]) && rs[j].test_id@ == m.test_id@
            && rs[j].trace_id@ == m.trace_id@
}

/// `m` belongs to a report of `rs` older than `l`.
pub open spec fn of_expired_report(rs: Seq<ReportDb>, l: i64, m: ReportMembership) -> bool {
    exists|j: int| 0 <= j < rs.len() && expired_report(l, #[trigger] rs[j]) && rs[j].id@ == m.report_id@
}

/// Memberships kept by the first phase.
pub open spec fn keep_membership_result(rs: Seq<TestResultDb>, l: i64) -> spec_fn(
    ReportMembership,
) -> bool {
    |m: ReportMembership| !of_expired_result(rs, l, m)
}

/// Memberships kept by the fourth phase.
pub open spec fn keep_membership_report(rs: Seq<ReportDb>, l: i64) -> spec_fn(
    ReportMembership,
) -> bool {
    |m: ReportMembership| !of_expired_report(rs, l, m)
}

/// The trace of each result.
pub open spec fn traces_of(rs: Seq<TestResultDb>) -> Seq<Seq<char>> {
    rs.map_values(|r: TestResultDb| r.trace_id@)
}

/// Spans kept by the third phase.
pub open spec fn keep_span(ts: Seq<Seq<char>>) -> spec_fn(SpanRow) -> bool {
    |s: SpanRow| !ts.contains(s.trace_id@)
}

/// Annotations kept by the third phase.
pub open spec fn keep_annotation(ts: Seq<Seq<char>>) -> spec_fn(AnnotationRow) -> bool {
    |a: AnnotationRow| !ts.contains(a.trace_id@)
}

/// Tags kept by the third phase.
pub open spec fn keep_tag(ts: Seq<Seq<char>>) -> spec_fn(TagRow) -> bool {
    |t: TagRow| !ts.contains(t.trace_id@)
}

/// The results left by the first phase.
pub open spec fn results_after_shells(s: Store, c: CleanUp) -> Seq<TestResultDb> {
    s.results@.filter(keep_result(c.shells_before))
}

/// The results that the second phase demotes.
pub open spec fn demoted(s: Store, c: CleanUp) -> Seq<TestResultDb> {
    results_after_shells(s, c).filter(demotable(c.spans_before))
}

/// `after` is `before` once the cycle `c` has run, and `n` says what it
/// removed.
pub open spec fn cycle(before: Store, c: CleanUp, after: Store, n: CleanupCounts) -> bool {
    let kept = results_after_shells(before, c);
    let ts = traces_of(demoted(before, c));
    &&& after.items@ == before.items@
    &&& after.results@ == kept.map_values(demote(c.spans_before))
    &&& after.memberships@ == before.memberships@.filter(
        keep_membership_result(before.results@, c.shells_before),
    ).filter(keep_membership_report(before.reports@, c.reports_before))
    &&& after.spans@ == before.spans@.filter(keep_span(ts))
    &&& after.annotations@ == before.annotations@.filter(keep_annotation(ts))
    &&& after.tags@ == before.tags@.filter(keep_tag(ts))
    &&& after.reports@ == before.reports@.filter(keep_report(c.reports_before))
    &&& n.deleted == before.results@.len() - kept.len()
    &&& n.cleaned == demoted(before, c).len()
    &&& n.reports_removed == before.reports@.len() - after.reports@.len()
}

fn cutoff_exec(now: i64, delay_ms: i64) -> (r: i64)
    ensures
        r == cutoff(now, delay_ms),
{
    let delay_us: i128 = delay_ms as i128 * 1000;
    let c: i128 = now as i128 - delay_us;
    if c < i64::MIN as i128 {
        i64::MIN
    } else if c > i64::MAX as i128 {
        i64::MAX
    } else {
        c as i64
    }
}

fn belongs_to_expired_result(rs: &Vec<TestResultDb>, l: i64, m: &ReportMembership) -> (r: bool)
    ensures
        r == of_expired_result(rs@, l, *m),
{
    let mut j: usize = 0;
    while j < rs.len()
        invariant
            j <= rs@.len(),
            forall|k: int|
                0 <= k < j ==> !(expired_shell(l, #[trigger] rs@[k]) && rs@[k].test_id@
                    == m.test_id@ && rs@[k].trace_id@ == m.trace_id@),
        decreases rs@.len() - j,
    {
        let row = &rs[j];
        if row.cleanup_status == ResultCleanupStatus::Shell && row.date < l && row.test_id
            == m.test_id && row.trace_id == m.trace_id {
            return true;
        }
        j = j + 1;
    }
    false
}

fn belongs_to_expired_report(rs: &Vec<ReportDb>, l: i64, m: &ReportMembership) -> (r: bool)
    ensures
        r == of_expired_report(rs@, l, *m),
{
    let mut j: usize = 0;
    while j < rs.len()
        invariant
            j <= rs@.len(),
            forall|k: int|
                0 <= k < j ==> !(expired_report(l, #[trigger] rs@[k]) && rs@[k].id@
                    == m.report_id@),
        decreases rs@.len() - j,
    {
        if rs[j].last_update < l && rs[j].id == m.report_id {
            return true;
        }
        j = j + 1;
    }
    false
}

/// Demotes the stale results with data; returns the results and the traces
/// of the demoted ones.
fn demote_stale(rs: Vec<TestResultDb>, l: i64) -> (r: (Vec<TestResultDb>, Vec<String>))
    ensures
        r.0@ == rs@.map_values(demote(l)),
        r.1@.map_values(|s: String| s@) == traces_of(rs@.filter(demotable(l))),
{
    let ghost all = rs@;
    let mut out: Vec<TestResultDb> = Vec::new();
    let mut traces: Vec<String> = Vec::new();
    for x in it: rs.into_iter()
        invariant
            it.seq() == all,
            out@ == all.take(it.index() as int).map_values(demote(l)),
            traces@.map_values(|s: String| s@) == traces_of(
                all.take(it.index() as int).filter(demotable(l)),
            ),
    {
        let ghost i = it.index() as int;
        proof {
            assert(all.take(i + 1) =~= all.take(i).push(all[i]));
            all.take(i).lemma_filter_push(all[i], demotable(l));
        }
        let ghost prev = traces@;
        let mut row = x;
        if row.cleanup_status == ResultCleanupStatus::WithData && row.date < l {
            traces.push(row.trace_id.clone());
            row.cleanup_status = ResultCleanupStatus::Shell;
            proof {
                let f = all.take(i).filter(demotable(l));
                assert(traces_of(f.push(all[i])) =~= traces_of(f).push(all[i].trace_id@));
                assert(traces@.map_values(|s: String| s@) =~= prev.map_values(|s: String| s@).push(
                    all[i].trace_id@,
                ));
            }
        }
        out.push(row);
        proof {
            assert(out@ =~= all.take(i + 1).map_values(demote(l)));
        }
    }
    assert(all.take(all.len() as int) =~= all);
    (out, traces)
}

impl CleanUp {
    /// The cut-offs of a cycle run at `now` (microseconds since the epoch).
    pub fn at(now: i64, config: &CleanupConfig) -> (r: CleanUp)
        ensures
            r.shells_before == cutoff(now, config.delay_test_results),
            r.spans_before == cutoff(now, config.delay_spans),
            r.reports_before == cutoff(now, config.delay_reports),
    {
        CleanUp {
            shells_before: cutoff_exec(now, config.delay_test_results),
            spans_before: cutoff_exec(now, config.delay_spans),
            reports_before: cutoff_exec(now, config.delay_reports),
        }
    }

    /// The cut-offs of a cycle run now.
    pub fn now(config: &CleanupConfig) -> (r: CleanUp)
        ensures
            exists|now: i64|
                r.shells_before == cutoff(now, config.delay_test_results) && r.spans_before
                    == cutoff(now, config.delay_spans) && r.reports_before == cutoff(
                    now,
                    config.delay_reports,
                ),
    {
        let now = now_micros();
        CleanUp::at(now, config)
    }

    /// Runs the four phases of one cycle on `store`, in order.
    pub fn handle(&self, store: &mut Store) -> (r: CleanupCounts)
        ensures
            cycle(*old(store), *self, *final(store), r),
            old(store).wf() ==> final(store).wf(),
    {
        let l1 = self.shells_before;
        let l2 = self.spans_before;
        let l3 = self.reports_before;
        let ghost before = *store;

        // Phase one: memberships of the expired shells, then the shells.
        let results = take_vec(&mut store.results);
        let memberships = take_vec(&mut store.memberships);
        let keep_m1 = |m: &ReportMembership| -> (b: bool)
            ensures
                b == keep_membership_result(before.results@, l1)(*m),
            { !belongs_to_expired_result(&results, l1, m) };
        let memberships = retain_by(
            memberships,
            &keep_m1,
            Ghost(keep_membership_result(before.results@, l1)),
        );
        let n_before = results.len();
        let keep_r = |r: &TestResultDb| -> (b: bool)
            ensures
                b == keep_result(l1)(*r),
            { !(r.cleanup_status == ResultCleanupStatus::Shell && r.date < l1) };
        let results = retain_by(results, &keep_r, Ghost(keep_result(l1)));
        let deleted = n_before - results.len();

        // Phase two: demote the stale results with data.
        let (results, traces) = demote_stale(results, l2);
        let cleaned = traces.len();
        store.results = results;

        // Phase three: annotations and tags of the demoted traces, then
        // their spans.
        let ghost ts = traces@.map_values(|s: String| s@);
        let annotations = take_vec(&mut store.annotations);
        let keep_a = |a: &AnnotationRow| -> (b: bool)
            ensures
                b == keep_annotation(traces@.map_values(|s: String| s@))(*a),
            { !contains_str(&traces, a.trace_id.as_str()) };
        store.annotations = retain_by(annotations, &keep_a, Ghost(keep_annotation(ts)));
        let tags = take_vec(&mut store.tags);
        let keep_t = |t: &TagRow| -> (b: bool)
            ensures
                b == keep_tag(traces@.map_values(|s: String| s@))(*t),
            { !contains_str(&traces, t.trace_id.as_str()) };
        store.tags = retain_by(tags, &keep_t, Ghost(keep_tag(ts)));
        let spans = take_vec(&mut store.spans);
        let keep_s = |s: &SpanRow| -> (b: bool)
            ensures
                b == keep_span(traces@.map_values(|s: String| s@))(*s),
            { !contains_str(&traces, s.trace_id.as_str()) };
        store.spans = retain_by(spans, &keep_s, Ghost(keep_span(ts)));

        // Phase four: memberships of the expired reports, then the reports.
        let reports = take_vec(&mut store.reports);
        let keep_m2 = |m: &ReportMembership| -> (b: bool)
            ensures
                b == keep_membership_report(before.reports@, l3)(*m),
            { !belongs_to_expired_report(&reports, l3, m) };
        store.memberships = retain_by(
            memberships,
            &keep_m2,
            Ghost(keep_membership_report(before.reports@, l3)),
        );
        let n_reports = reports.len();
        let keep_rep = |r: &ReportDb| -> (b: bool)
            ensures
                b == keep_report(l3)(*r),
            { !(r.last_update < l3) };
        store.reports = retain_by(reports, &keep_rep, Ghost(keep_report(l3)));
        let reports_removed = n_reports - store.reports.len();
        let r = CleanupCounts { deleted, cleaned, reports_removed };
        proof {
            let c = *self;
            assert(store.items@ == before.items@);
            assert(store.results@ == results_after_shells(before, c).map_values(demote(c.spans_before)));
            assert(store.spans@ == before.spans@.filter(keep_span(traces_of(demoted(before, c)))));
            assert(store.memberships@ == before.memberships@.filter(
                keep_membership_result(before.results@, c.shells_before),
            ).filter(keep_membership_report(before.reports@, c.reports_before)));
            assert(r.deleted == before.results@.len() - results_after_shells(before, c).len());
            assert(traces@.map_values(|s: String| s@).len() == traces@.len());
            assert(traces_of(demoted(before, c)).len() == demoted(before, c).len());
            assert(r.cleaned == demoted(before, c).len());
            if before.wf() {
                lemma_cycle_keeps_wf(before, c, *store, r);
            }
        }
        r
    }
}

proof fn lemma_filter_keeps_all<A>(s: Seq<A>, p: spec_fn(A) -> bool)
    requires
        forall|i: int| 0 <= i < s.len() ==> p(#[trigger] s[i]),
    ensures
        s.filter(p) == s,
    decreases s.len(),
{
    if s.len() > 0 {
        let d = s.drop_last();
        assert(s =~= d.push(s.last()));
        assert forall|i: int| 0 <= i < d.len() implies p(#[trigger] d[i]) by {
            assert(d[i] == s[i]);
        }
        lemma_filter_keeps_all(d, p);
        d.lemma_filter_push(s.last(), p);
    } else {
        assert(s.filter(p).len() <= s.len());
        assert(s.filter(p) =~= s);
    }
}

proof fn lemma_filter_keeps_none<A>(s: Seq<A>, p: spec_fn(A) -> bool)
    requires
        forall|i: int| 0 <= i < s.len() ==> !p(#[trigger] s[i]),
    ensures
        s.filter(p).len() == 0,
    decreases s.len(),
{
    if s.len() > 0 {
        let d = s.drop_last();
        assert(s =~= d.push(s.last()));
        assert forall|i: int| 0 <= i < d.len() implies !p(#[trigger] d[i]) by {
            assert(d[i] == s[i]);
        }
        lemma_filter_keeps_none(d, p);
        d.lemma_filter_push(s.last(), p);
    }
}

/// Running a cycle a second time with the same cut-offs and no new data
/// deletes and demotes nothing and leaves every table as it is, provided no
/// result with data was older than both the shell and the span cut-offs
/// before the first run.
pub proof fn lemma_cycle_idempotent(
    s0: Store,
    c: CleanUp,
    s1: Store,
    n1: CleanupCounts,
    s2: Store,
    n2: CleanupCounts,
)
    requires
        cycle(s0, c, s1, n1),
        cycle(s1, c, s2, n2),
        forall|i: int|
            0 <= i < s0.results@.len() ==> !(stale_with_data(c.spans_before, #[trigger] s0.results@[i])
                && s0.results@[i].date < c.shells_before),
    ensures
        n2.deleted == 0,
        n2.cleaned == 0,
        n2.reports_removed == 0,
        s2.items@ == s1.items@,
        s2.results@ == s1.results@,
        s2.memberships@ == s1.memberships@,
        s2.spans@ == s1.spans@,
        s2.annotations@ == s1.annotations@,
        s2.tags@ == s1.tags@,
        s2.reports@ == s1.reports@,
{
    let l1 = c.shells_before;
    let l2 = c.spans_before;
    let l3 = c.reports_before;
    let kept = results_after_shells(s0, c);
    let r1 = s1.results@;
    assert forall|i: int| 0 <= i < r1.len() implies keep_result(l1)(#[trigger] r1[i])
        && !demotable(l2)(r1[i]) by {
        let k = kept[i];
        s0.results@.lemma_filter_pred(keep_result(l1), i);
        s0.results@.lemma_filter_contains_rev(keep_result(l1), k);
        let j = choose|j: int| 0 <= j < s0.results@.len() && s0.results@[j] == k;
        assert(!(stale_with_data(l2, s0.results@[j]) && s0.results@[j].date < l1));
    }
    lemma_filter_keeps_all(r1, keep_result(l1));
    assert(results_after_shells(s1, c) == r1);
    lemma_filter_keeps_none(r1, demotable(l2));
    assert(demoted(s1, c).len() == 0);
    let ts = traces_of(demoted(s1, c));
    assert(ts.len() == 0);
    assert(r1.map_values(demote(l2)) =~= r1);
    lemma_filter_keeps_all(s1.spans@, keep_span(ts));
    lemma_filter_keeps_all(s1.annotations@, keep_annotation(ts));
    lemma_filter_keeps_all(s1.tags@, keep_tag(ts));
    assert forall|i: int| 0 <= i < s1.reports@.len() implies keep_report(l3)(
        #[trigger] s1.reports@[i],
    ) by {
        s0.reports@.lemma_filter_pred(keep_report(l3), i);
    }
    lemma_filter_keeps_all(s1.reports@, keep_report(l3));
    let m = s1.memberships@;
    assert forall|i: int| 0 <= i < m.len() implies keep_membership_result(r1, l1)(
        #[trigger] m[i],
    ) by {
        if of_expired_result(r1, l1, m[i]) {
            let j = choose|j: int|
                0 <= j < r1.len() && expired_shell(l1, #[trigger] r1[j]) && r1[j].test_id@
                    == m[i].test_id@ && r1[j].trace_id@ == m[i].trace_id@;
            assert(keep_result(l1)(r1[j]));
        }
    }
    lemma_filter_keeps_all(m, keep_membership_result(r1, l1));
    assert forall|i: int| 0 <= i < m.len() implies keep_membership_report(s1.reports@, l3)(
        #[trigger] m[i],
    ) by {
        if of_expired_report(s1.reports@, l3, m[i]) {
            let j = choose|j: int|
                0 <= j < s1.reports@.len() && expired_report(l3, #[trigger] s1.reports@[j])
                    && s1.reports@[j].id@ == m[i].report_id@;
            assert(keep_report(l3)(s1.reports@[j]));
        }
    }
    lemma_filter_keeps_all(m, keep_membership_report(s1.reports@, l3));
}

/// A result with data older than the span cut-off but not older than the
/// shell cut-off survives the cycle as a shell, still found by its
/// identifiers, while every span, annotation and tag of its trace is gone.
pub proof fn lemma_demoted_result_kept(s0: Store, c: CleanUp, s1: Store, n: CleanupCounts, i: int)
    requires
        cycle(s0, c, s1, n),
        0 <= i < s0.results@.len(),
        s0.results@[i].cleanup_status == ResultCleanupStatus::WithData,
        s0.results@[i].date < c.spans_before,
        s0.results@[i].date >= c.shells_before,
        s0.wf(),
    ensures
        exists|j: int|
            0 <= j < s1.results@.len() && #[trigger] s1.results@[j] == (TestResultDb {
                cleanup_status: ResultCleanupStatus::Shell,
                ..s0.results@[i]
            }),
        forall|k: int|
            0 <= k < s0.memberships@.len() && (#[trigger] s0.memberships@[k]).test_id@
                == s0.results@[i].test_id@ && s0.memberships@[k].trace_id@ == s0.results@[i].trace_id@
                && !of_expired_report(s0.reports@, c.reports_before, s0.memberships@[k])
                ==> s1.memberships@.contains(s0.memberships@[k]),
        forall|k: int|
            0 <= k < s1.spans@.len() ==> (#[trigger] s1.spans@[k]).trace_id@
                != s0.results@[i].trace_id@,
        forall|k: int|
            0 <= k < s1.annotations@.len() ==> (#[trigger] s1.annotations@[k]).trace_id@
                != s0.results@[i].trace_id@,
        forall|k: int|
            0 <= k < s1.tags@.len() ==> (#[trigger] s1.tags@[k]).trace_id@
                != s0.results@[i].trace_id@,
{
    let l1 = c.shells_before;
    let l2 = c.spans_before;
    let r = s0.results@[i];
    let kept = results_after_shells(s0, c);
    s0.results@.lemma_filter_contains(keep_result(l1), i);
    let j = choose|j: int| 0 <= j < kept.len() && kept[j] == r;
    assert(s1.results@[j] == demote(l2)(r));
    kept.lemma_filter_contains(demotable(l2), j);
    let d = demoted(s0, c);
    let jd = choose|jd: int| 0 <= jd < d.len() && d[jd] == r;
    let ts = traces_of(d);
    assert(ts[jd] == r.trace_id@);
    assert(ts.contains(r.trace_id@));
    assert forall|k: int| 0 <= k < s1.spans@.len() implies (#[trigger] s1.spans@[k]).trace_id@
        != r.trace_id@ by {
        s0.spans@.lemma_filter_pred(keep_span(ts), k);
    }
    assert forall|k: int| 0 <= k < s1.annotations@.len() implies (
    #[trigger] s1.annotations@[k]).trace_id@ != r.trace_id@ by {
        s0.annotations@.lemma_filter_pred(keep_annotation(ts), k);
    }
    assert forall|k: int| 0 <= k < s1.tags@.len() implies (#[trigger] s1.tags@[k]).trace_id@
        != r.trace_id@ by {
        s0.tags@.lemma_filter_pred(keep_tag(ts), k);
    }
    let l3 = c.reports_before;
    let ms = s0.memberships@;
    let m1 = ms.filter(keep_membership_result(s0.results@, l1));
    assert forall|k: int|
        0 <= k < ms.len() && (#[trigger] ms[k]).test_id@ == r.test_id@ && ms[k].trace_id@
            == r.trace_id@ && !of_expired_report(s0.reports@, l3, ms[k]) implies s1.memberships@.contains(
        ms[k],
    ) by {
        if of_expired_result(s0.results@, l1, ms[k]) {
            let w = choose|w: int|
                0 <= w < s0.results@.len() && expired_shell(l1, #[trigger] s0.results@[w])
                    && s0.results@[w].test_id@ == ms[k].test_id@ && s0.results@[w].trace_id@
                    == ms[k].trace_id@;
            if w < i {
                assert(!same_pair(s0.results@[w], s0.results@[i]));
            } else if w > i {
                assert(!same_pair(s0.results@[i], s0.results@[w]));
            }
        }
        ms.lemma_filter_contains(keep_membership_result(s0.results@, l1), k);
        let q = choose|q: int| 0 <= q < m1.len() && m1[q] == ms[k];
        m1.lemma_filter_contains(keep_membership_report(s0.reports@, l3), q);
    }
}

/// A second cycle with the same cut-offs and no new data demotes nothing,
/// deletes no report, and leaves spans, annotations, tags, reports and
/// items as they are.
pub proof fn lemma_second_cycle_quiet(
    s0: Store,
    c: CleanUp,
    s1: Store,
    n1: CleanupCounts,
    s2: Store,
    n2: CleanupCounts,
)
    requires
        cycle(s0, c, s1, n1),
        cycle(s1, c, s2, n2),
    ensures
        n2.cleaned == 0,
        n2.reports_removed == 0,
        s2.items@ == s1.items@,
        s2.spans@ == s1.spans@,
        s2.annotations@ == s1.annotations@,
        s2.tags@ == s1.tags@,
        s2.reports@ == s1.reports@,
{
    let l1 = c.shells_before;
    let l2 = c.spans_before;
    let l3 = c.reports_before;
    let kept = results_after_shells(s0, c);
    let r1 = s1.results@;
    assert forall|i: int| 0 <= i < r1.len() implies !demotable(l2)(#[trigger] r1[i]) by {
        assert(r1[i] == demote(l2)(kept[i]));
    }
    let k1 = results_after_shells(s1, c);
    assert forall|i: int| 0 <= i < k1.len() implies !demotable(l2)(#[trigger] k1[i]) by {
        assert(k1.contains(k1[i]));
        r1.lemma_filter_contains_rev(keep_result(l1), k1[i]);
    }
    lemma_filter_keeps_none(k1, demotable(l2));
    let ts = traces_of(demoted(s1, c));
    assert(ts.len() == 0);
    lemma_filter_keeps_all(s1.spans@, keep_span(ts));
    lemma_filter_keeps_all(s1.annotations@, keep_annotation(ts));
    lemma_filter_keeps_all(s1.tags@, keep_tag(ts));
    assert forall|i: int| 0 <= i < s1.reports@.len() implies keep_report(l3)(
        #[trigger] s1.reports@[i],
    ) by {
        s0.reports@.lemma_filter_pred(keep_report(l3), i);
    }
    lemma_filter_keeps_all(s1.reports@, keep_report(l3));
}

/// A cycle keeps each test run to at most one result row.
pub proof fn lemma_cycle_keeps_wf(s0: Store, c: CleanUp, s1: Store, n: CleanupCounts)
    requires
        cycle(s0, c, s1, n),
        s0.wf(),
    ensures
        s1.wf(),
{
    let kept = results_after_shells(s0, c);
    lemma_filter_pairs_distinct(s0.results@, keep_result(c.shells_before));
    let r1 = s1.results@;
    assert forall|a: int, b: int| 0 <= a < b < r1.len() implies !same_pair(
        #[trigger] r1[a],
        #[trigger] r1[b],
    ) by {
        assert(r1[a] == demote(c.spans_before)(kept[a]));
        assert(r1[b] == demote(c.spans_before)(kept[b]));
    }
}

} // verus!
