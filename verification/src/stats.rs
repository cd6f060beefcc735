//! Client-side run statistics: per-op-class latency samples and outcome
//! counters, nearest-rank percentiles, and the threshold checks of the
//! continuous-assertion loop. Latencies are whole microseconds; rates are
//! exact ratios and thresholds are given in parts per million.

use vstd::prelude::*;
use vstd::relations::sorted_by;
use crate::config::{Thresholds, spec_p95_budget_us};
use crate::text::{string_clone, views, joined};
use crate::text::{decimal_digits, fixed_point, owned, push_decimal, push_fixed, push_str};

verus! {

broadcast use vstd::seq_lib::group_to_multiset_ensures;

/// The operation classes of the workload mix.
#[derive(Debug, Clone, Copy, PartialEq, Eq, Structural)]
pub enum OpClass {
    Create,
    Edit,
    ConflictEdit,
    Transition,
    Read,
    Search,
    Traverse,
    Mcp,
}

/// The stable name of a class (config keys, reports, breach messages).
pub open spec fn class_name(class: OpClass) -> Seq<char> {
    match class {
        OpClass::Create => "create"@,
        OpClass::Edit => "edit"@,
        OpClass::ConflictEdit => "conflict_edit"@,
        OpClass::Transition => "transition"@,
        OpClass::Read => "read"@,
        OpClass::Search => "search"@,
        OpClass::Traverse => "traverse"@,
        OpClass::Mcp => "mcp"@,
    }
}

/// The position of a class when classes are listed by name.
pub open spec fn name_rank(class: OpClass) -> int {
    match class {
        OpClass::ConflictEdit => 0,
        OpClass::Create => 1,
        OpClass::Edit => 2,
        OpClass::Mcp => 3,
        OpClass::Read => 4,
        OpClass::Search => 5,
        OpClass::Transition => 6,
        OpClass::Traverse => 7,
    }
}

/// The class at position `i` when classes are listed by name.
pub open spec fn class_at_rank(i: int) -> OpClass {
    if i == 0 {
        OpClass::ConflictEdit
    } else if i == 1 {
        OpClass::Create
    } else if i == 2 {
        OpClass::Edit
    } else if i == 3 {
        OpClass::Mcp
    } else if i == 4 {
        OpClass::Read
    } else if i == 5 {
        OpClass::Search
    } else if i == 6 {
        OpClass::Transition
    } else {
        OpClass::Traverse
    }
}

impl OpClass {
    /// Stable name used in config keys, reports, and breach messages.
    pub fn name(self) -> (r: &'static str)
        ensures
            r@ == class_name(self),
    {
        match self {
            OpClass::Create => "create",
            OpClass::Edit => "edit",
            OpClass::ConflictEdit => "conflict_edit",
            OpClass::Transition => "transition",
            OpClass::Read => "read",
            OpClass::Search => "search",
            OpClass::Traverse => "traverse",
            OpClass::Mcp => "mcp",
        }
    }

    /// Position of this class when classes are listed by name.
    pub fn rank(self) -> (r: usize)
        ensures
            r == name_rank(self),
    {
        match self {
            OpClass::ConflictEdit => 0,
            OpClass::Create => 1,
            OpClass::Edit => 2,
            OpClass::Mcp => 3,
            OpClass::Read => 4,
            OpClass::Search => 5,
            OpClass::Transition => 6,
            OpClass::Traverse => 7,
        }
    }

    /// The class at position `i` (`i < 8`) when listed by name.
    pub fn at_rank(i: usize) -> (c: OpClass)
        requires
            i < 8,
        ensures
            c == class_at_rank(i as int),
            name_rank(c) == i,
    {
        match i {
            0 => OpClass::ConflictEdit,
            1 => OpClass::Create,
            2 => OpClass::Edit,
            3 => OpClass::Mcp,
            4 => OpClass::Read,
            5 => OpClass::Search,
            6 => OpClass::Transition,
            _ => OpClass::Traverse,
        }
    }
}

/// How one operation ended.
pub enum Outcome {
    /// Success.
    Success,
    /// A deliberate optimistic-concurrency 409 on a designated collision
    /// item — expected, and excluded from the error rate.
    ExpectedConflict,
    /// Anything else.
    Error(String),
}

/// Aggregated numbers for one op class.
pub struct ClassStats {
    /// Latencies of non-error operations, microseconds, unsorted.
    pub latencies_us: Vec<u64>,
    pub ok: u64,
    pub expected_conflicts: u64,
    pub errors: u64,
}

impl ClassStats {
    /// The recorded latencies, in recording order.
    pub open spec fn latencies(&self) -> Seq<u64> {
        self.latencies_us@
    }

    /// No operation recorded yet.
    pub fn new() -> (s: ClassStats)
        ensures
            s.latencies() == Seq::<u64>::empty(),
            s.ok == 0,
            s.expected_conflicts == 0,
            s.errors == 0,
    {
        ClassStats { latencies_us: Vec::new(), ok: 0, expected_conflicts: 0, errors: 0 }
    }
}

/// A point-in-time percentile summary for one op class (microseconds).
pub struct ClassSummary {
    pub class: String,
    pub ok: u64,
    pub expected_conflicts: u64,
    pub errors: u64,
    pub p50_us: u64,
    pub p95_us: u64,
    pub p99_us: u64,
    pub max_us: u64,
}

/// Severity of an assertion breach: `Fatal` stops the run; `Breach` is
/// reported and fails the run at the end.
#[derive(Debug, Clone, Copy, PartialEq, Eq, Structural)]
pub enum Severity {
    Breach,
    Fatal,
}

/// One attributed assertion breach.
pub struct Breach {
    /// RFC 3339 detection time.
    pub at: String,
    pub severity: Severity,
    /// Which check tripped (`error_rate`, `latency_p95`, ...).
    pub check: String,
    /// Human-readable attribution.
    pub detail: String,
}

/// The current UTC time in RFC 3339 (`chrono::Utc::now().to_rfc3339()`).
/// Nothing is stated of the result: it depends on the clock.
#[verifier::external_body]
pub(crate) fn utc_now_rfc3339() -> String {
    chrono::Utc::now().to_rfc3339()
}

impl Breach {
    /// A breach detected now.
    pub fn now(severity: Severity, check: &str, detail: String) -> (b: Breach)
        ensures
            b.severity == severity,
            b.check@ == check@,
            b.detail@ == detail@,
    {
        Breach { at: utc_now_rfc3339(), severity, check: owned(check), detail }
    }
}

/// Ascending order on latencies.
pub open spec fn ascending() -> spec_fn(u64, u64) -> bool {
    |a: u64, b: u64| a <= b
}

/// The nearest rank (1-based, clamped to `1..=len`) of percentile `pct`
/// over `len` samples: `ceil(pct / 100 * len)`.
pub open spec fn nearest_rank(len: nat, pct: nat) -> int {
    let rank = (pct * len + 99) / 100;
    if rank < 1 {
        1
    } else if rank > len {
        len as int
    } else {
        rank as int
    }
}

/// Nearest-rank percentile over an ascending-sorted sequence (0 when empty).
pub open spec fn spec_percentile(sorted: Seq<u64>, pct: nat) -> u64 {
    if sorted.len() == 0 {
        0
    } else {
        sorted[nearest_rank(sorted.len(), pct) - 1]
    }
}

proof fn lemma_rank_monotone(len: nat, p: nat, q: nat)
    requires
        p <= q,
        len > 0,
    ensures
        nearest_rank(len, p) <= nearest_rank(len, q),
{
    assert(p * len <= q * len) by (nonlinear_arith)
        requires
            p <= q,
    ;
    vstd::arithmetic::div_mod::lemma_div_is_ordered((p * len + 99) as int, (q * len + 99) as int, 100);
    let rp = (p * len + 99) / 100;
    let rq = (q * len + 99) / 100;
    assert(rp <= rq);
}

/// Every reported percentile is a latency that was actually observed, and
/// percentiles never decrease with the percent asked for; none exceeds
/// the maximum.
pub proof fn law_percentiles_are_ordered_observations(lat: Seq<u64>, p: nat, q: nat)
    requires
        p <= q,
    ensures
        spec_percentile(lat.sort_by(ascending()), p) <= spec_percentile(lat.sort_by(ascending()), q),
        lat.len() > 0 ==> lat.contains(spec_percentile(lat.sort_by(ascending()), p)),
        lat.len() > 0 ==> spec_percentile(lat.sort_by(ascending()), q) <= lat.sort_by(
            ascending(),
        ).last(),
        lat.len() > 0 ==> lat.contains(lat.sort_by(ascending()).last()),
{
    let sorted = lat.sort_by(ascending());
    lat.lemma_sort_by_ensures(ascending());
    lat.to_multiset_ensures();
    sorted.to_multiset_ensures();
    if lat.len() > 0 {
        assert(sorted.len() == lat.len());
        lemma_rank_monotone(sorted.len(), p, q);
        let i = nearest_rank(sorted.len(), p) - 1;
        let j = nearest_rank(sorted.len(), q) - 1;
        let n = sorted.len() - 1;
        assert(0 <= i <= j <= n);
        if i < j {
            assert((ascending())(sorted[i], sorted[j]));
        }
        if j < n {
            assert((ascending())(sorted[j], sorted[n]));
        }
        assert(sorted.contains(sorted[i]));
        assert(sorted.contains(sorted[n]));
    }
}

/// Nearest-rank percentile over an ASCENDING-sorted slice (0 for empty);
/// `pct` is in percent.
pub fn percentile_us(sorted: &[u64], pct: u64) -> (r: u64)
    ensures
        r == spec_percentile(sorted@, pct as nat),
{
    if sorted.len() == 0 {
        return 0;
    }
    let len = sorted.len() as u128;
    let pc = pct as u128;
    assert(pc * len + 99 <= 0xffff_ffff_ffff_ffffu128 * 0xffff_ffff_ffff_ffffu128 + 99)
        by (nonlinear_arith)
        requires
            pc <= 0xffff_ffff_ffff_ffffu128,
            len <= 0xffff_ffff_ffff_ffffu128,
    ;
    let rank = (pc * len + 99) / 100;
    let rank = if rank < 1 {
        1
    } else if rank > len {
        len
    } else {
        rank
    };
    sorted[(rank - 1) as usize]
}

/// `v` in ascending order (insertion sort).
pub fn sorted_copy(v: &[u64]) -> (out: Vec<u64>)
    ensures
        out@ == v@.sort_by(ascending()),
{
    let mut out: Vec<u64> = Vec::new();
    let mut i: usize = 0;
    while i < v.len()
        invariant
            i <= v@.len(),
            sorted_by(out@, ascending()),
            out@.to_multiset() == v@.take(i as int).to_multiset(),
        decreases v@.len() - i,
    {
        let x = v[i];
        let mut p: usize = 0;
        while p < out.len() && out[p] <= x
            invariant
                p <= out@.len(),
                forall|k: int| 0 <= k < p ==> out@[k] <= x,
            decreases out@.len() - p,
        {
            p = p + 1;
        }
        let ghost before = out@;
        out.insert(p, x);
        proof {
            assert(out@ == before.insert(p as int, x));
            assert(p == before.len() || before[p as int] > x);
            assert forall|a: int, b: int| 0 <= a < b < out@.len() implies #[trigger] (ascending())(
                out@[a],
                out@[b],
            ) by {
                if b < p {
                    assert(out@[a] == before[a] && out@[b] == before[b]);
                    assert((ascending())(before[a], before[b]));
                } else if b == p {
                    assert(out@[a] == before[a] && out@[b] == x);
                } else if a < p {
                    assert(out@[a] == before[a] && out@[b] == before[b - 1]);
                    assert((ascending())(before[a], before[b - 1]));
                } else if a == p {
                    assert(out@[a] == x && out@[b] == before[b - 1]);
                    if b - 1 > p {
                        assert((ascending())(before[p as int], before[b - 1]));
                    }
                } else {
                    assert(out@[a] == before[a - 1] && out@[b] == before[b - 1]);
                    assert((ascending())(before[a - 1], before[b - 1]));
                }
            }
            assert(v@.take(i + 1) =~= v@.take(i as int).push(x));
        }
        i = i + 1;
    }
    proof {
        assert(v@.take(v@.len() as int) =~= v@);
        v@.lemma_sort_by_ensures(ascending());
        vstd::seq_lib::lemma_sorted_unique(out@, v@.sort_by(ascending()), ascending());
    }
    out
}


/// A summary as plain values: (class, ok, expected conflicts, errors,
/// p50, p95, p99, max).
pub open spec fn summary_view(s: ClassSummary) -> (Seq<char>, u64, u64, u64, u64, u64, u64, u64) {
    (s.class@, s.ok, s.expected_conflicts, s.errors, s.p50_us, s.p95_us, s.p99_us, s.max_us)
}

/// The summary of `class` given what was recorded for it: counts as
/// recorded; nearest-rank p50/p95/p99 and the maximum over the latencies
/// (0 when there are none).
pub open spec fn summary_of(class: OpClass, m: (bool, Seq<u64>, u64, u64, u64)) -> (
    Seq<char>,
    u64,
    u64,
    u64,
    u64,
    u64,
    u64,
    u64,
) {
    let sorted = m.1.sort_by(ascending());
    (
        class_name(class),
        m.2,
        m.3,
        m.4,
        spec_percentile(sorted, 50),
        spec_percentile(sorted, 95),
        spec_percentile(sorted, 99),
        if sorted.len() == 0 {
            0
        } else {
            sorted.last()
        },
    )
}

/// A class's recorded numbers: (recorded at all, latencies, ok,
/// expected conflicts, errors).
pub open spec fn stats_model(s: Option<ClassStats>) -> (bool, Seq<u64>, u64, u64, u64) {
    match s {
        None => (false, Seq::empty(), 0, 0, 0),
        Some(st) => (true, st.latencies_us@, st.ok, st.expected_conflicts, st.errors),
    }
}

/// Cap on retained error sample strings.
pub open spec fn max_error_samples() -> nat {
    50
}

/// The error sample retained for a failed operation: `[class] message`.
pub open spec fn error_sample(class: OpClass, message: Seq<char>) -> Seq<char> {
    "["@ + class_name(class) + "] "@ + message
}

/// Does the counter that `outcome` increments still have room?
pub open spec fn room_for(m: (bool, Seq<u64>, u64, u64, u64), outcome: Outcome) -> bool {
    match outcome {
        Outcome::Success => m.2 < u64::MAX,
        Outcome::ExpectedConflict => m.3 < u64::MAX,
        Outcome::Error(_) => m.4 < u64::MAX,
    }
}

/// The shared recorder all workers write to (one slot per op class, in
/// name order, plus the first error samples).
pub struct Recorder {
    classes: Vec<Option<ClassStats>>,
    error_samples: Vec<String>,
}

impl Recorder {
    /// The recorder's shape is intact.
    pub closed spec fn wf(&self) -> bool {
        self.classes@.len() == 8 && self.error_samples@.len() <= max_error_samples()
    }

    /// What has been recorded for `class`.
    pub closed spec fn model(&self, class: OpClass) -> (bool, Seq<u64>, u64, u64, u64) {
        stats_model(self.classes@[name_rank(class)])
    }

    /// The retained error samples, oldest first.
    pub closed spec fn samples(&self) -> Seq<Seq<char>> {
        views(self.error_samples@)
    }

    /// A recorder never keeps more than fifty error samples: in every state
    /// that `new` and `record` lead to, the retained samples number at
    /// most the cap.
    pub proof fn law_samples_capped(&self)
        requires
            self.wf(),
        ensures
            self.samples().len() <= max_error_samples(),
    {
    }

    /// An empty recorder.
    pub fn new() -> (r: Recorder)
        ensures
            r.wf(),
            forall|c: OpClass| #[trigger] r.model(c) == stats_model(None),
            r.samples() == Seq::<Seq<char>>::empty(),
    {
        let mut classes: Vec<Option<ClassStats>> = Vec::new();
        let mut i: usize = 0;
        while i < 8
            invariant
                i <= 8,
                classes@.len() == i,
                forall|k: int| 0 <= k < i ==> #[trigger] classes@[k] is None,
            decreases 8 - i,
        {
            classes.push(None);
            i = i + 1;
        }
        let r = Recorder { classes, error_samples: Vec::new() };
        assert(r.samples() =~= Seq::<Seq<char>>::empty());
        r
    }

    /// Can `class` take one more operation with this outcome without the
    /// counter it increments overflowing?
    pub fn has_room(&self, class: OpClass, outcome: &Outcome) -> (r: bool)
        requires
            self.wf(),
        ensures
            r == room_for(self.model(class), *outcome),
    {
        match &self.classes[class.rank()] {
            None => true,
            Some(st) => match outcome {
                Outcome::Success => st.ok < u64::MAX,
                Outcome::ExpectedConflict => st.expected_conflicts < u64::MAX,
                Outcome::Error(_) => st.errors < u64::MAX,
            },
        }
    }

    /// Record one completed operation.
    pub fn record(&mut self, class: OpClass, elapsed_us: u64, outcome: Outcome)
        requires
            old(self).wf(),
            room_for(old(self).model(class), outcome),
        ensures
            final(self).wf(),
            forall|c: OpClass| c != class ==> #[trigger] final(self).model(c) == old(self).model(c),
            ({
                let (_, lat, ok, conflicts, errors) = old(self).model(class);
                final(self).model(class) == match outcome {
                    Outcome::Success => (true, lat.push(elapsed_us), (ok + 1) as u64, conflicts, errors),
                    Outcome::ExpectedConflict => (
                        true,
                        lat.push(elapsed_us),
                        ok,
                        (conflicts + 1) as u64,
                        errors,
                    ),
                    Outcome::Error(_) => (true, lat, ok, conflicts, (errors + 1) as u64),
                }
            }),
            final(self).samples() == match outcome {
                Outcome::Error(message) => if old(self).samples().len() < max_error_samples() {
                    old(self).samples().push(error_sample(class, message@))
                } else {
                    old(self).samples()
                },
                _ => old(self).samples(),
            },
    {
        let r = class.rank();
        let slot = self.classes.remove(r);
        let mut stats = match slot {
            Some(st) => st,
            None => ClassStats::new(),
        };
        let ghost before = stats;
        match outcome {
            Outcome::Success => {
                stats.ok = stats.ok + 1;
                stats.latencies_us.push(elapsed_us);
            },
            Outcome::ExpectedConflict => {
                stats.expected_conflicts = stats.expected_conflicts + 1;
                stats.latencies_us.push(elapsed_us);
            },
            Outcome::Error(message) => {
                stats.errors = stats.errors + 1;
                if self.error_samples.len() < 50 {
                    let mut sample = owned("[");
                    push_str(&mut sample, class.name());
                    push_str(&mut sample, "] ");
                    push_str(&mut sample, message.as_str());
                    let ghost old_samples = self.error_samples@;
                    self.error_samples.push(sample);
                    assert(views(self.error_samples@) =~= views(old_samples).push(
                        error_sample(class, message@),
                    ));
                }
            },
        }
        self.classes.insert(r, Some(stats));
        assert forall|c: OpClass| c != class implies #[trigger] self.model(c) == old(self).model(c) by {
            assert(name_rank(c) != name_rank(class));
        }
    }

    /// The classes recorded so far, in name order.
    pub open spec fn recorded_classes(&self) -> Seq<OpClass> {
        Seq::new(8, |i: int| class_at_rank(i)).filter(|c: OpClass| self.model(c).0)
    }

    /// Snapshot every recorded class's summary, in name order.
    pub fn summaries(&self) -> (out: Vec<ClassSummary>)
        requires
            self.wf(),
        ensures
            out@.map_values(|s: ClassSummary| summary_view(s)) == self.recorded_classes().map_values(
                |c: OpClass| summary_of(c, self.model(c)),
            ),
    {
        let ghost all = Seq::new(8, |i: int| class_at_rank(i));
        let ghost pred = |c: OpClass| self.model(c).0;
        let ghost f = |c: OpClass| summary_of(c, self.model(c));
        let mut out: Vec<ClassSummary> = Vec::new();
        let mut i: usize = 0;
        while i < 8
            invariant
                i <= 8,
                self.wf(),
                all == Seq::new(8, |i: int| class_at_rank(i)),
                pred == (|c: OpClass| self.model(c).0),
                f == (|c: OpClass| summary_of(c, self.model(c))),
                out@.map_values(|s: ClassSummary| summary_view(s)) == all.take(i as int).filter(
                    pred,
                ).map_values(f),
            decreases 8 - i,
        {
            let class = OpClass::at_rank(i);
            proof {
                reveal_with_fuel(Seq::<_>::filter, 1);
                assert(all.take(i + 1).drop_last() =~= all.take(i as int));
                assert(all.take(i + 1).last() == class);
            }
            match &self.classes[i] {
                None => {
                    assert(!pred(class));
                },
                Some(stats) => {
                    assert(pred(class));
                    let sorted = sorted_copy(&stats.latencies_us);
                    let max_us = if sorted.len() == 0 {
                        0
                    } else {
                        sorted[sorted.len() - 1]
                    };
                    let summary = ClassSummary {
                        class: owned(class.name()),
                        ok: stats.ok,
                        expected_conflicts: stats.expected_conflicts,
                        errors: stats.errors,
                        p50_us: percentile_us(&sorted, 50),
                        p95_us: percentile_us(&sorted, 95),
                        p99_us: percentile_us(&sorted, 99),
                        max_us,
                    };
                    let ghost before = out@;
                    assert(summary_view(summary) == f(class));
                    out.push(summary);
                    assert(out@.map_values(|s: ClassSummary| summary_view(s)) =~= before.map_values(
                        |s: ClassSummary| summary_view(s),
                    ).push(f(class)));
                    assert(all.take(i as int).filter(pred).push(class).map_values(f) =~= all.take(
                        i as int,
                    ).filter(pred).map_values(f).push(f(class)));
                },
            }
            i = i + 1;
        }
        assert(all.take(8) =~= all);
        out
    }

    /// The retained error samples.
    pub fn error_samples(&self) -> (out: Vec<String>)
        ensures
            views(out@) == self.samples(),
    {
        let mut out: Vec<String> = Vec::new();
        let mut i: usize = 0;
        while i < self.error_samples.len()
            invariant
                i <= self.error_samples@.len(),
                out@.len() == i,
                forall|k: int| 0 <= k < i ==> #[trigger] out@[k]@ == self.error_samples@[k]@,
            decreases self.error_samples@.len() - i,
        {
            out.push(string_clone(&self.error_samples[i]));
            i = i + 1;
        }
        assert(views(out@) =~= views(self.error_samples@));
        out
    }
}


/// Total errors over the summaries.
pub open spec fn errors_sum(s: Seq<ClassSummary>) -> nat
    decreases s.len(),
{
    if s.len() == 0 {
        0
    } else {
        errors_sum(s.drop_last()) + s.last().errors as nat
    }
}

/// Total completed operations over the summaries (ok, deliberate 409s and
/// errors).
pub open spec fn calls_sum(s: Seq<ClassSummary>) -> nat
    decreases s.len(),
{
    if s.len() == 0 {
        0
    } else {
        calls_sum(s.drop_last()) + s.last().ok as nat + s.last().expected_conflicts as nat
            + s.last().errors as nat
    }
}

/// Does the total call count of `summaries` fit in a `u64`?
pub fn calls_fit(summaries: &[ClassSummary]) -> (r: bool)
    ensures
        r == (calls_sum(summaries@) <= u64::MAX),
{
    let mut total: u64 = 0;
    let mut i: usize = 0;
    assert(summaries@.take(0) =~= Seq::<ClassSummary>::empty());
    while i < summaries.len()
        invariant
            i <= summaries@.len(),
            total == calls_sum(summaries@.take(i as int)),
        decreases summaries@.len() - i,
    {
        assert(summaries@.take(i + 1).drop_last() =~= summaries@.take(i as int));
        assert(summaries@.take(i + 1).last() == summaries@[i as int]);
        let s = &summaries[i];
        let a = match total.checked_add(s.ok) {
            Some(v) => v,
            None => {
                proof {
                    lemma_calls_prefix(summaries@, i + 1);
                }
                return false;
            },
        };
        let b = match a.checked_add(s.expected_conflicts) {
            Some(v) => v,
            None => {
                proof {
                    lemma_calls_prefix(summaries@, i + 1);
                }
                return false;
            },
        };
        let c = match b.checked_add(s.errors) {
            Some(v) => v,
            None => {
                proof {
                    lemma_calls_prefix(summaries@, i + 1);
                }
                return false;
            },
        };
        total = c;
        i = i + 1;
    }
    assert(summaries@.take(summaries@.len() as int) =~= summaries@);
    true
}

proof fn lemma_sums_bounded(s: Seq<ClassSummary>)
    ensures
        errors_sum(s) <= calls_sum(s),
        forall|i: int| 0 <= i < s.len() ==> #[trigger] s[i].ok + s[i].expected_conflicts + s[i].errors
            <= calls_sum(s),
    decreases s.len(),
{
    if s.len() > 0 {
        lemma_sums_bounded(s.drop_last());
        assert forall|i: int| 0 <= i < s.len() implies #[trigger] s[i].ok + s[i].expected_conflicts
            + s[i].errors <= calls_sum(s) by {
            if i < s.len() - 1 {
                assert(s[i] == s.drop_last()[i]);
            }
        }
    }
}

/// An exact ratio `num / den` (read as 0 when `den == 0`).
pub struct Ratio {
    pub num: u64,
    pub den: u64,
}

/// The run-wide error rate: errors over ALL completed ops, the deliberate
/// 409s counted in the denominator but never the numerator.
pub fn error_rate(summaries: &[ClassSummary]) -> (r: Ratio)
    requires
        calls_sum(summaries@) <= u64::MAX,
    ensures
        r.num == errors_sum(summaries@),
        r.den == calls_sum(summaries@),
{
    let mut errors: u64 = 0;
    let mut total: u64 = 0;
    let mut i: usize = 0;
    proof {
        lemma_sums_bounded(summaries@);
    }
    while i < summaries.len()
        invariant
            i <= summaries@.len(),
            calls_sum(summaries@) <= u64::MAX,
            errors == errors_sum(summaries@.take(i as int)),
            total == calls_sum(summaries@.take(i as int)),
        decreases summaries@.len() - i,
    {
        proof {
            assert(summaries@.take(i + 1).drop_last() =~= summaries@.take(i as int));
            lemma_sums_bounded(summaries@.take(i + 1));
            let k = i as int;
            lemma_calls_prefix(summaries@, k + 1);
        }
        let s = &summaries[i];
        errors = errors + s.errors;
        total = total + s.ok + s.expected_conflicts + s.errors;
        i = i + 1;
    }
    assert(summaries@.take(summaries@.len() as int) =~= summaries@);
    Ratio { num: errors, den: total }
}

proof fn lemma_calls_prefix(s: Seq<ClassSummary>, k: int)
    requires
        0 <= k <= s.len(),
    ensures
        calls_sum(s.take(k)) <= calls_sum(s),
    decreases s.len() - k,
{
    if k < s.len() {
        lemma_calls_prefix(s, k + 1);
        assert(s.take(k + 1).drop_last() =~= s.take(k));
    } else {
        assert(s.take(k) =~= s);
    }
}

/// A breach as plain values: (severity, check, detail).
pub open spec fn breach_view(b: Breach) -> (Severity, Seq<char>, Seq<char>) {
    (b.severity, b.check@, b.detail@)
}

/// The error rate `num / den` is above `ppm` parts per million.
pub open spec fn rate_exceeds(num: nat, den: nat, ppm: nat) -> bool {
    den > 0 && num * 1_000_000 > ppm * den
}

/// `class=errors` for one summary.
pub open spec fn class_errors_entry(s: ClassSummary) -> Seq<char> {
    s.class@ + "="@ + decimal_digits(s.errors as nat)
}

/// The error-rate breach detail.
pub open spec fn error_rate_detail(summaries: Seq<ClassSummary>, ppm: nat) -> Seq<char> {
    "error rate "@ + fixed_point(errors_sum(summaries), calls_sum(summaries), 10000, 4)
        + " exceeds max "@ + fixed_point(ppm, 1_000_000, 10000, 4) + " (errors by class: "@
        + joined(
        summaries.filter(|s: ClassSummary| s.errors > 0).map_values(
            |s: ClassSummary| class_errors_entry(s),
        ),
        ", "@,
    ) + "; deliberate 409s excluded)"@
}

/// The class's p95 is asserted (enough samples) and over its budget.
pub open spec fn latency_trips(s: ClassSummary, t: Thresholds) -> bool {
    s.ok + s.expected_conflicts >= t.min_samples_for_latency && s.p95_us > spec_p95_budget_us(
        t.p95_budget_us@,
        s.class@,
    )
}

/// The latency breach for one summary.
pub open spec fn latency_breach(s: ClassSummary, t: Thresholds) -> (Severity, Seq<char>, Seq<char>) {
    (
        Severity::Breach,
        "latency_p95"@,
        s.class@ + ": p95 "@ + fixed_point(s.p95_us as nat, 1000, 10, 1) + "ms exceeds budget "@
            + fixed_point(spec_p95_budget_us(t.p95_budget_us@, s.class@) as nat, 1000, 10, 1)
            + "ms over "@ + decimal_digits((s.ok + s.expected_conflicts) as nat)
            + " samples (client-side: includes network + serialization)"@,
    )
}

/// The breaches `check_snapshot` reports for a snapshot.
pub open spec fn snapshot_breaches(summaries: Seq<ClassSummary>, t: Thresholds) -> Seq<
    (Severity, Seq<char>, Seq<char>),
> {
    (if rate_exceeds(errors_sum(summaries), calls_sum(summaries), t.max_error_rate_ppm as nat) {
        seq![(Severity::Breach, "error_rate"@, error_rate_detail(summaries, t.max_error_rate_ppm as nat))]
    } else {
        Seq::empty()
    }) + summaries.filter(|s: ClassSummary| latency_trips(s, t)).map_values(
        |s: ClassSummary| latency_breach(s, t),
    )
}

/// Apply the error-rate and per-class p95 checks to a snapshot; every
/// breach returned has severity `Breach`.
pub fn check_snapshot(summaries: &[ClassSummary], thresholds: &Thresholds) -> (out: Vec<Breach>)
    requires
        calls_sum(summaries@) <= u64::MAX,
    ensures
        out@.map_values(|b: Breach| breach_view(b)) == snapshot_breaches(summaries@, *thresholds),
{
    let mut breaches: Vec<Breach> = Vec::new();
    let rate = error_rate(summaries);
    let ppm = thresholds.max_error_rate_ppm;
    let p128 = ppm as u128;
    let d128 = rate.den as u128;
    assert(p128 * d128 <= 0xffff_ffff_ffff_ffffu128 * 0xffff_ffff_ffff_ffffu128) by (nonlinear_arith)
        requires
            p128 <= 0xffff_ffff_ffff_ffffu128,
            d128 <= 0xffff_ffff_ffff_ffffu128,
    ;
    let exceeds = rate.den > 0 && (rate.num as u128) * 1_000_000 > p128 * d128;
    if exceeds {
        let mut detail = owned("error rate ");
        push_fixed(&mut detail, rate.num, rate.den, 10000, 4);
        push_str(&mut detail, " exceeds max ");
        push_fixed(&mut detail, ppm, 1_000_000, 10000, 4);
        push_str(&mut detail, " (errors by class: ");
        push_error_counts(&mut detail, summaries);
        push_str(&mut detail, "; deliberate 409s excluded)");
        breaches.push(Breach::now(Severity::Breach, "error_rate", detail));
    }
    let ghost head = breaches@.map_values(|b: Breach| breach_view(b));
    let ghost pred = |s: ClassSummary| latency_trips(s, *thresholds);
    let ghost f = |s: ClassSummary| latency_breach(s, *thresholds);
    proof {
        lemma_sums_bounded(summaries@);
    }
    let mut i: usize = 0;
    while i < summaries.len()
        invariant
            i <= summaries@.len(),
            calls_sum(summaries@) <= u64::MAX,
            forall|k: int| 0 <= k < summaries@.len() ==> #[trigger] summaries@[k].ok
                + summaries@[k].expected_conflicts + summaries@[k].errors <= calls_sum(summaries@),
            pred == (|s: ClassSummary| latency_trips(s, *thresholds)),
            f == (|s: ClassSummary| latency_breach(s, *thresholds)),
            breaches@.map_values(|b: Breach| breach_view(b)) == head + summaries@.take(
                i as int,
            ).filter(pred).map_values(f),
        decreases summaries@.len() - i,
    {
        let s = &summaries[i];
        proof {
            reveal_with_fuel(Seq::<_>::filter, 1);
            assert(summaries@.take(i + 1).drop_last() =~= summaries@.take(i as int));
            assert(summaries@.take(i + 1).last() == *s);
            assert(s.ok + s.expected_conflicts + s.errors <= calls_sum(summaries@));
        }
        let samples = s.ok + s.expected_conflicts;
        if samples >= thresholds.min_samples_for_latency {
            let budget = thresholds.p95_budget(s.class.as_str());
            if s.p95_us > budget {
                let mut detail = string_clone(&s.class);
                push_str(&mut detail, ": p95 ");
                push_fixed(&mut detail, s.p95_us, 1000, 10, 1);
                push_str(&mut detail, "ms exceeds budget ");
                push_fixed(&mut detail, budget, 1000, 10, 1);
                push_str(&mut detail, "ms over ");
                push_decimal(&mut detail, samples);
                push_str(&mut detail, " samples (client-side: includes network + serialization)");
                let b = Breach::now(Severity::Breach, "latency_p95", detail);
                let ghost before = breaches@;
                assert(pred(*s));
                assert(breach_view(b) == f(*s));
                breaches.push(b);
                assert(breaches@.map_values(|b: Breach| breach_view(b)) =~= before.map_values(
                    |b: Breach| breach_view(b),
                ).push(f(*s)));
                assert(summaries@.take(i as int).filter(pred).push(*s).map_values(f) =~= summaries@.take(
                    i as int,
                ).filter(pred).map_values(f).push(f(*s)));
                assert((head + summaries@.take(i as int).filter(pred).map_values(f)).push(f(*s))
                    =~= head + summaries@.take(i as int).filter(pred).map_values(f).push(f(*s)));
            } else {
                assert(!pred(*s));
            }
        } else {
            assert(!pred(*s));
        }
        i = i + 1;
    }
    assert(summaries@.take(summaries@.len() as int) =~= summaries@);
    breaches
}

/// Whether a breach counts mid-run: during the warm-up grace the latency
/// budget is not yet asserted; every other check always is.
pub open spec fn armed(b: (Severity, Seq<char>, Seq<char>), in_warmup: bool) -> bool {
    !(in_warmup && b.1 == "latency_p95"@)
}

/// The snapshot checks of the continuous-assertion loop: the error-rate
/// and p95 breaches of `check_snapshot`, without the latency ones while
/// the run is still warming up.
pub fn mid_run_breaches(summaries: &[ClassSummary], thresholds: &Thresholds, in_warmup: bool) -> (out:
    Vec<Breach>)
    requires
        calls_sum(summaries@) <= u64::MAX,
    ensures
        out@.map_values(|b: Breach| breach_view(b)) == snapshot_breaches(summaries@, *thresholds).filter(
            |b: (Severity, Seq<char>, Seq<char>)| armed(b, in_warmup),
        ),
{
    let all = check_snapshot(summaries, thresholds);
    let ghost av = all@.map_values(|b: Breach| breach_view(b));
    let ghost pred = |b: (Severity, Seq<char>, Seq<char>)| armed(b, in_warmup);
    let mut out: Vec<Breach> = Vec::new();
    let ghost snapshot = all@;
    let mut i: usize = 0;
    assert(av.take(0).filter(pred) =~= Seq::<(Severity, Seq<char>, Seq<char>)>::empty());
    while i < all.len()
        invariant
            i <= all@.len(),
            all@ == snapshot,
            av == snapshot.map_values(|b: Breach| breach_view(b)),
            pred == (|b: (Severity, Seq<char>, Seq<char>)| armed(b, in_warmup)),
            out@.map_values(|b: Breach| breach_view(b)) == av.take(i as int).filter(pred),
        decreases all@.len() - i,
    {
        let b = &all[i];
        let keep = !(in_warmup && crate::text::str_eq(b.check.as_str(), "latency_p95"));
        proof {
            reveal_with_fuel(Seq::<_>::filter, 1);
            assert(av.take(i + 1).drop_last() =~= av.take(i as int));
            assert(av.take(i + 1).last() == breach_view(*b));
            assert(keep == pred(breach_view(*b)));
        }
        if keep {
            let copy = Breach {
                at: string_clone(&b.at),
                severity: b.severity,
                check: string_clone(&b.check),
                detail: string_clone(&b.detail),
            };
            let ghost before = out@;
            out.push(copy);
            assert(out@.map_values(|b: Breach| breach_view(b)) =~= before.map_values(
                |b: Breach| breach_view(b),
            ).push(breach_view(copy)));
        }
        i = i + 1;
    }
    assert(av.take(all@.len() as int) =~= av);
    out
}

/// Appends `class=errors` for every summary with errors, comma-separated.
fn push_error_counts(out: &mut String, summaries: &[ClassSummary])
    ensures
        final(out)@ == old(out)@ + joined(
            summaries@.filter(|s: ClassSummary| s.errors > 0).map_values(
                |s: ClassSummary| class_errors_entry(s),
            ),
            ", "@,
        ),
{
    let ghost pred = |s: ClassSummary| s.errors > 0;
    let ghost f = |s: ClassSummary| class_errors_entry(s);
    let ghost start = out@;
    let mut count: usize = 0;
    let mut i: usize = 0;
    while i < summaries.len()
        invariant
            i <= summaries@.len(),
            pred == (|s: ClassSummary| s.errors > 0),
            f == (|s: ClassSummary| class_errors_entry(s)),
            count == summaries@.take(i as int).filter(pred).len(),
            out@ == start + joined(summaries@.take(i as int).filter(pred).map_values(f), ", "@),
        decreases summaries@.len() - i,
    {
        let s = &summaries[i];
        proof {
            reveal_with_fuel(Seq::<_>::filter, 1);
            assert(summaries@.take(i + 1).drop_last() =~= summaries@.take(i as int));
            assert(summaries@.take(i + 1).last() == *s);
        }
        if s.errors > 0 {
            let ghost parts = summaries@.take(i as int).filter(pred).map_values(f);
            let ghost next = summaries@.take(i as int).filter(pred).push(*s).map_values(f);
            assert(next =~= parts.push(f(*s)));
            assert(next.drop_last() =~= parts);
            if count > 0 {
                push_str(out, ", ");
            }
            push_str(out, s.class.as_str());
            push_str(out, "=");
            push_decimal(out, s.errors);
            proof {
                if parts.len() == 0 {
                    assert(out@ =~= start + joined(next, ", "@));
                } else {
                    assert(out@ =~= start + joined(next, ", "@));
                }
            }
            count = count + 1;
        }
        i = i + 1;
    }
    assert(summaries@.take(summaries@.len() as int) =~= summaries@);
}

/// The latency budget is asserted on every class with enough samples,
/// deliberate 409s included: a class whose ok calls plus expected
/// conflicts reach the minimum and whose p95 exceeds its budget always
/// yields a `latency_p95` breach naming it; when no class meets both
/// conditions, no `latency_p95` breach is reported.
pub proof fn law_latency_checked_on_all_samples(summaries: Seq<ClassSummary>, t: Thresholds)
    ensures
        forall|i: int|
            0 <= i < summaries.len() && #[trigger] summaries[i].ok + summaries[i].expected_conflicts
                >= t.min_samples_for_latency && summaries[i].p95_us > spec_p95_budget_us(
                t.p95_budget_us@,
                summaries[i].class@,
            ) ==> exists|k: int|
                0 <= k < snapshot_breaches(summaries, t).len() && #[trigger] snapshot_breaches(
                    summaries,
                    t,
                )[k].1 == "latency_p95"@ && snapshot_breaches(summaries, t)[k].0 == Severity::Breach
                    && snapshot_breaches(summaries, t)[k].2.take(summaries[i].class@.len() as int)
                    == summaries[i].class@,
        (forall|i: int|
            0 <= i < summaries.len() ==> !(#[trigger] summaries[i].ok + summaries[i].expected_conflicts
                >= t.min_samples_for_latency && summaries[i].p95_us > spec_p95_budget_us(
                t.p95_budget_us@,
                summaries[i].class@,
            ))) ==> forall|k: int|
            0 <= k < snapshot_breaches(summaries, t).len() ==> #[trigger] snapshot_breaches(
                summaries,
                t,
            )[k].1 != "latency_p95"@,
{
    let pred = |s: ClassSummary| latency_trips(s, t);
    let f = |s: ClassSummary| latency_breach(s, t);
    let head = if rate_exceeds(errors_sum(summaries), calls_sum(summaries), t.max_error_rate_ppm as nat) {
        seq![(Severity::Breach, "error_rate"@, error_rate_detail(summaries, t.max_error_rate_ppm as nat))]
    } else {
        Seq::<(Severity, Seq<char>, Seq<char>)>::empty()
    };
    let kept = summaries.filter(pred);
    let tail = kept.map_values(f);
    let all = snapshot_breaches(summaries, t);
    assert(all == head + tail);
    reveal_strlit("latency_p95");
    reveal_strlit("error_rate");
    assert("error_rate"@ != "latency_p95"@) by {
        assert("error_rate"@[0] != "latency_p95"@[0]);
    }
    assert forall|i: int|
        0 <= i < summaries.len() && #[trigger] summaries[i].ok + summaries[i].expected_conflicts
            >= t.min_samples_for_latency && summaries[i].p95_us > spec_p95_budget_us(
            t.p95_budget_us@,
            summaries[i].class@,
        ) implies exists|k: int|
            0 <= k < all.len() && #[trigger] all[k].1 == "latency_p95"@ && all[k].0 == Severity::Breach
                && all[k].2.take(summaries[i].class@.len() as int) == summaries[i].class@ by {
        assert(pred(summaries[i]));
        summaries.lemma_filter_contains(pred, i);
        let m = choose|m: int| 0 <= m < kept.len() && kept[m] == summaries[i];
        let k = head.len() + m;
        assert(all[k] == tail[m]);
        assert(tail[m] == latency_breach(summaries[i], t));
        let c = summaries[i].class@;
        assert(latency_breach(summaries[i], t).2.take(c.len() as int) =~= c);
        assert(all[k].1 == "latency_p95"@ && all[k].0 == Severity::Breach && all[k].2.take(
            c.len() as int,
        ) == c);
    }
    if forall|i: int|
        0 <= i < summaries.len() ==> !(#[trigger] summaries[i].ok + summaries[i].expected_conflicts
            >= t.min_samples_for_latency && summaries[i].p95_us > spec_p95_budget_us(
            t.p95_budget_us@,
            summaries[i].class@,
        )) {
        assert(kept.len() == 0) by {
            if kept.len() > 0 {
                summaries.lemma_filter_pred(pred, 0);
                assert(kept.contains(kept[0]));
                summaries.lemma_filter_contains_rev(pred, kept[0]);
                let i = choose|i: int| 0 <= i < summaries.len() && summaries[i] == kept[0];
                assert(pred(summaries[i]));
            }
        }
        assert forall|k: int| 0 <= k < all.len() implies #[trigger] all[k].1 != "latency_p95"@ by {
            assert(all[k] == head[k]);
        }
    }
}

} // verus!
