//! The run report: outcome from the breach list, exit codes, and
//! the aggregate counters.

use vstd::prelude::*;
use crate::stats::{Breach, ClassSummary, Ratio, Severity, calls_sum, error_rate, errors_sum};
use crate::text::str_eq;

verus! {

/// Some breach in `breaches` is fatal.
pub open spec fn any_fatal(breaches: Seq<Breach>) -> bool {
    exists|i: int| 0 <= i < breaches.len() && #[trigger] breaches[i].severity == Severity::Fatal
}

/// The run outcome for a breach list: `FATAL` when any breach is fatal,
/// `PASS` when there is none, `FAIL` otherwise.
pub open spec fn spec_outcome(breaches: Seq<Breach>) -> Seq<char> {
    if any_fatal(breaches) {
        "FATAL"@
    } else if breaches.len() == 0 {
        "PASS"@
    } else {
        "FAIL"@
    }
}

/// The process exit code for an outcome: PASS=0, FATAL=2, anything else 1.
pub open spec fn spec_exit_code(outcome: Seq<char>) -> u8 {
    if outcome == "PASS"@ {
        0
    } else if outcome == "FATAL"@ {
        2
    } else {
        1
    }
}

/// Derive the run outcome from the breach list.
pub fn outcome(breaches: &[Breach]) -> (r: &'static str)
    ensures
        r@ == spec_outcome(breaches@),
{
    let mut i: usize = 0;
    while i < breaches.len()
        invariant
            i <= breaches@.len(),
            forall|k: int| 0 <= k < i ==> #[trigger] breaches@[k].severity != Severity::Fatal,
        decreases breaches@.len() - i,
    {
        if breaches[i].severity == Severity::Fatal {
            return "FATAL";
        }
        i = i + 1;
    }
    if breaches.len() == 0 {
        "PASS"
    } else {
        "FAIL"
    }
}

/// The process exit code for an outcome (PASS=0, FAIL=1, FATAL=2).
pub fn exit_code(outcome: &str) -> (r: u8)
    ensures
        r == spec_exit_code(outcome@),
{
    if str_eq(outcome, "PASS") {
        0
    } else if str_eq(outcome, "FATAL") {
        2
    } else {
        1
    }
}

/// The exit code of a run is 0 exactly when nothing was breached, 2
/// exactly when some breach was fatal, and 1 otherwise.
pub proof fn law_exit_code_follows_breaches(breaches: Seq<Breach>)
    ensures
        (spec_exit_code(spec_outcome(breaches)) == 0) == (breaches.len() == 0),
        (spec_exit_code(spec_outcome(breaches)) == 2) == any_fatal(breaches),
        (spec_exit_code(spec_outcome(breaches)) == 1) == (breaches.len() > 0 && !any_fatal(
            breaches,
        )),
{
    reveal_strlit("PASS");
    reveal_strlit("FAIL");
    reveal_strlit("FATAL");
    assert("FATAL"@[0] != "PASS"@[0]);
    assert("FAIL"@[0] != "PASS"@[0]);
    assert("FAIL"@.len() != "FATAL"@.len());
    if breaches.len() == 0 {
        assert(!any_fatal(breaches));
    }
}

/// Aggregate outcome counters.
pub struct Totals {
    pub recorded_calls: u64,
    pub ok: u64,
    pub expected_conflicts: u64,
    pub errors: u64,
    /// Errors over all calls; deliberate 409s in the denominator only.
    pub error_rate: Ratio,
}

/// Total ok operations over the summaries.
pub open spec fn ok_sum(s: Seq<ClassSummary>) -> nat
    decreases s.len(),
{
    if s.len() == 0 {
        0
    } else {
        ok_sum(s.drop_last()) + s.last().ok as nat
    }
}

/// Total deliberate 409s over the summaries.
pub open spec fn conflicts_sum(s: Seq<ClassSummary>) -> nat
    decreases s.len(),
{
    if s.len() == 0 {
        0
    } else {
        conflicts_sum(s.drop_last()) + s.last().expected_conflicts as nat
    }
}

proof fn lemma_sum_split(s: Seq<ClassSummary>)
    ensures
        calls_sum(s) == ok_sum(s) + conflicts_sum(s) + errors_sum(s),
    decreases s.len(),
{
    if s.len() > 0 {
        lemma_sum_split(s.drop_last());
    }
}

/// Compute the totals from the class summaries.
pub fn totals(summaries: &[ClassSummary]) -> (t: Totals)
    requires
        calls_sum(summaries@) <= u64::MAX,
    ensures
        t.ok == ok_sum(summaries@),
        t.expected_conflicts == conflicts_sum(summaries@),
        t.errors == errors_sum(summaries@),
        t.recorded_calls == calls_sum(summaries@),
        t.error_rate.num == errors_sum(summaries@),
        t.error_rate.den == calls_sum(summaries@),
{
    let rate = error_rate(summaries);
    let mut ok: u64 = 0;
    let mut conflicts: u64 = 0;
    let mut errors: u64 = 0;
    let mut i: usize = 0;
    proof {
        lemma_sum_split(summaries@);
    }
    while i < summaries.len()
        invariant
            i <= summaries@.len(),
            calls_sum(summaries@) <= u64::MAX,
            calls_sum(summaries@) == ok_sum(summaries@) + conflicts_sum(summaries@) + errors_sum(
                summaries@,
            ),
            ok == ok_sum(summaries@.take(i as int)),
            conflicts == conflicts_sum(summaries@.take(i as int)),
            errors == errors_sum(summaries@.take(i as int)),
        decreases summaries@.len() - i,
    {
        proof {
            assert(summaries@.take(i + 1).drop_last() =~= summaries@.take(i as int));
            lemma_prefix_sums(summaries@, i + 1);
            lemma_sum_split(summaries@.take(i + 1));
        }
        ok = ok + summaries[i].ok;
        conflicts = conflicts + summaries[i].expected_conflicts;
        errors = errors + summaries[i].errors;
        i = i + 1;
    }
    assert(summaries@.take(summaries@.len() as int) =~= summaries@);
    Totals {
        recorded_calls: ok + conflicts + errors,
        ok,
        expected_conflicts: conflicts,
        errors,
        error_rate: rate,
    }
}

proof fn lemma_prefix_sums(s: Seq<ClassSummary>, k: int)
    requires
        0 <= k <= s.len(),
    ensures
        ok_sum(s.take(k)) <= ok_sum(s),
        conflicts_sum(s.take(k)) <= conflicts_sum(s),
        errors_sum(s.take(k)) <= errors_sum(s),
    decreases s.len() - k,
{
    if k < s.len() {
        lemma_prefix_sums(s, k + 1);
        assert(s.take(k + 1).drop_last() =~= s.take(k));
    } else {
        assert(s.take(k) =~= s);
    }
}

/// Event-subscriber counters.
pub struct WsReport {
    pub subscribers: u64,
    pub connects: u64,
    pub events_received: u64,
    pub reconnects: u64,
}

/// Bystander-tenant isolation findings.
pub struct BystanderReport {
    pub tenant: String,
    /// `unchanged` | `CHANGED` | `unavailable: <why>`.
    pub status: String,
    pub changed_sections: Vec<String>,
}

} // verus!
