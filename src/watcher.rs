//! The trace-completion watcher: every span ingested for a trace re-arms a
//! delayed completion check, and only the check of the latest arming
//! finalizes the trace.

use vstd::prelude::*;
use crate::assoc::Assoc;
use crate::extract::{missing_tag, extracted_from, KnownTag, TestResult};
use crate::span::{find_root, Span};

verus! {

/// Delay, in milliseconds, after the latest span of a trace before the trace
/// is taken as complete.
pub const DEFAULT_DELAY_MS: u64 = 10000;

/// The most spans read back for one trace when it completes.
pub const TRACE_SPAN_LIMIT: usize = 1000;

/// A span of the trace named here was ingested.
pub struct TraceDoneNow(pub String);

/// The delayed completion check of a trace, carrying the ticket of the
/// arming it belongs to.
pub struct TraceDone(pub String, pub u64);

/// A test result ready to be stored.
pub struct TestExecutionToSave(pub TestResult);

/// The armed checks after one more arming of `id` with ticket `t`.
pub open spec fn arm(m: Map<Seq<char>, u64>, id: Seq<char>, t: u64) -> Map<Seq<char>, u64> {
    m.insert(id, t)
}

/// Whether the check of `id` with ticket `t` finalizes the trace: it does
/// when it belongs to the latest arming.
pub open spec fn finalizes(m: Map<Seq<char>, u64>, id: Seq<char>, t: u64) -> bool {
    m.contains_key(id) && m[id] == t
}

/// How many of the checks of `id` with tickets `ts`, fired in order,
/// finalize the trace.
pub open spec fn finalizations(m: Map<Seq<char>, u64>, id: Seq<char>, ts: Seq<u64>) -> nat
    decreases ts.len(),
{
    if ts.len() == 0 {
        0
    } else if finalizes(m, id, ts[0]) {
        1 + finalizations(m.remove(id), id, ts.drop_first())
    } else {
        finalizations(m, id, ts.drop_first())
    }
}

/// The armed checks after `k` armings of `id` with tickets `n`, `n + 1`, ...
pub open spec fn armed_after(m: Map<Seq<char>, u64>, id: Seq<char>, n: u64, k: nat) -> Map<
    Seq<char>,
    u64,
>
    decreases k,
{
    if k == 0 {
        m
    } else {
        arm(armed_after(m, id, n, (k - 1) as nat), id, (n + k - 1) as u64)
    }
}

/// The tickets `n`, `n + 1`, ..., `n + k - 1`.
pub open spec fn tickets(n: u64, k: nat) -> Seq<u64> {
    Seq::new(k, |i: int| (n + i) as u64)
}

/// Coalesces the completion checks of the traces being ingested.
pub struct TraceParser {
    armed: Assoc<u64>,
    next_ticket: u64,
    delay_ms: u64,
}

impl TraceParser {
    /// The ticket of the latest arming of each trace whose check is pending.
    pub closed spec fn armed(&self) -> Map<Seq<char>, u64> {
        self.armed@
    }

    /// Milliseconds between the latest span of a trace and its check.
    pub closed spec fn delay(&self) -> u64 {
        self.delay_ms
    }

    /// The ticket that the next arming gets.
    pub closed spec fn ticket(&self) -> u64 {
        self.next_ticket
    }

    /// The internal invariant: every pending ticket was handed out already.
    pub closed spec fn wf(&self) -> bool {
        &&& self.armed.wf()
        &&& forall|id: Seq<char>| #[trigger]
            self.armed@.contains_key(id) ==> self.armed@[id] < self.next_ticket
    }

    /// A watcher with nothing pending.
    pub fn new(delay_ms: u64) -> (r: TraceParser)
        ensures
            r.wf(),
            r.armed() == Map::<Seq<char>, u64>::empty(),
            r.ticket() == 0,
            r.delay() == delay_ms,
    {
        TraceParser { armed: Assoc::new(), next_ticket: 0, delay_ms }
    }

    /// Milliseconds between the latest span of a trace and its check.
    pub fn delay_ms(&self) -> (r: u64)
        ensures
            r == self.delay(),
    {
        self.delay_ms
    }

    /// Whether another arming can be given a ticket.
    pub fn can_arm(&self) -> (r: bool)
        ensures
            r == (self.ticket() < u64::MAX),
    {
        self.next_ticket < u64::MAX
    }

    /// Records a span of a trace and returns the check to fire `delay_ms`
    /// later; it supersedes every earlier check of that trace.
    pub fn handle_span(&mut self, msg: TraceDoneNow) -> (r: TraceDone)
        requires
            old(self).wf(),
            old(self).ticket() < u64::MAX,
        ensures
            final(self).wf(),
            r.0@ == msg.0@,
            r.1 == old(self).ticket(),
            final(self).armed() == arm(old(self).armed(), msg.0@, old(self).ticket()),
            final(self).ticket() == old(self).ticket() + 1,
            final(self).delay() == old(self).delay(),
    {
        let ticket = self.next_ticket;
        let id = msg.0;
        let key = id.clone();
        self.armed.insert(key, ticket);
        self.next_ticket = ticket + 1;
        TraceDone(id, ticket)
    }

    /// Fires a check: returns whether it finalizes its trace, which then has
    /// nothing pending any more. A superseded check changes nothing.
    pub fn handle_check(&mut self, msg: &TraceDone) -> (r: bool)
        requires
            old(self).wf(),
        ensures
            final(self).wf(),
            r == finalizes(old(self).armed(), msg.0@, msg.1),
            r ==> final(self).armed() == old(self).armed().remove(msg.0@),
            !r ==> final(self).armed() == old(self).armed(),
            final(self).ticket() == old(self).ticket(),
            final(self).delay() == old(self).delay(),
    {
        let latest = match self.armed.get(msg.0.as_str()) {
            Some(t) => *t == msg.1,
            None => false,
        };
        if latest {
            self.armed.remove(msg.0.as_str());
        }
        latest
    }

    /// Derives the test result of a completed trace from its spans: the
    /// first span without a parent is the root.
    pub fn process_spans(spans: &Vec<Span>) -> (r: Result<TestExecutionToSave, KnownTag>)
        ensures
            match find_root_spec(spans@) {
                None => r matches Err(e) && e.tag@ == "root"@,
                Some(i) => match r {
                    Ok(t) => missing_tag(spans@[i]) is None && extracted_from_trace(
                        t.0,
                        spans@[i],
                        spans@.len(),
                    ),
                    Err(e) => missing_tag(spans@[i]) == Some(e.tag@),
                },
            },
    {
        match find_root(spans) {
            None => Err(KnownTag { tag: "root".to_string() }),
            Some(i) => match TestResult::try_from(&spans[i]) {
                Ok(t) => {
                    let mut t = t;
                    t.nb_spans = spans.len();
                    Ok(TestExecutionToSave(t))
                },
                Err(e) => Err(e),
            },
        }
    }
}

/// The index of the first span without a parent.
pub open spec fn find_root_spec(spans: Seq<Span>) -> Option<int> {
    if exists|i: int| 0 <= i < spans.len() && spans[i].is_root() {
        Some(
            choose|i: int|
                0 <= i < spans.len() && spans[i].is_root() && forall|j: int|
                    0 <= j < i ==> !(#[trigger] spans[j]).is_root(),
        )
    } else {
        None
    }
}

/// `t` is the record of the root span `root` of a trace of `n` spans.
pub open spec fn extracted_from_trace(t: TestResult, root: Span, n: nat) -> bool {
    &&& t.nb_spans == n
    &&& extracted_from(TestResult { nb_spans: 0, ..t }, root)
}

proof fn lemma_no_finalization(m: Map<Seq<char>, u64>, id: Seq<char>, ts: Seq<u64>)
    requires
        !m.contains_key(id),
    ensures
        finalizations(m, id, ts) == 0,
    decreases ts.len(),
{
    if ts.len() > 0 {
        lemma_no_finalization(m, id, ts.drop_first());
    }
}

/// Checks fired after the latest arming of a trace finalize it exactly once,
/// provided the check of that arming is among them.
pub proof fn lemma_finalizes_once(m: Map<Seq<char>, u64>, id: Seq<char>, ts: Seq<u64>)
    requires
        m.contains_key(id),
        ts.contains(m[id]),
    ensures
        finalizations(m, id, ts) == 1,
    decreases ts.len(),
{
    if ts[0] == m[id] {
        lemma_no_finalization(m.remove(id), id, ts.drop_first());
    } else {
        let i = choose|i: int| 0 <= i < ts.len() && ts[i] == m[id];
        assert(ts.drop_first()[i - 1] == m[id]);
        lemma_finalizes_once(m, id, ts.drop_first());
    }
}

proof fn lemma_armed_after(m: Map<Seq<char>, u64>, id: Seq<char>, n: u64, k: nat)
    requires
        k >= 1,
        n + k <= u64::MAX,
    ensures
        armed_after(m, id, n, k).contains_key(id),
        armed_after(m, id, n, k)[id] == n + k - 1,
{
}

/// Debounce coalescing: `k` spans of one trace, ingested before any of their
/// checks fires, arm `k` checks; fired in order, exactly one of them
/// finalizes the trace.
pub proof fn lemma_debounce_coalesces(m: Map<Seq<char>, u64>, id: Seq<char>, n: u64, k: nat)
    requires
        k >= 1,
        n + k <= u64::MAX,
    ensures
        finalizations(armed_after(m, id, n, k), id, tickets(n, k)) == 1,
{
    lemma_armed_after(m, id, n, k);
    let ts = tickets(n, k);
    assert(ts[k - 1] == n + k - 1);
    lemma_finalizes_once(armed_after(m, id, n, k), id, ts);
}

} // verus!
