//! Soak-run configuration: durations, the weighted operation mix, and the
//! continuous-assertion thresholds.

use vstd::prelude::*;
use std::time::Duration;
use crate::text::{
    chars_of, owned, push_str, seq_eq, str_eq, string_from_chars, trim_chars, trimmed,
};

verus! {

/// `format!("{:?}", s)`: the Rust debug rendering of a string (quoted,
/// with escapes).
pub uninterp spec fn debug_str(s: Seq<char>) -> Seq<char>;

/// The debug rendering of `s` (`format!("{:?}", s)`); its result is named
/// `debug_str`, a function of `s` alone.
#[verifier::external_body]
pub(crate) fn debug_quoted(s: &str) -> (r: String)
    ensures
        r@ == debug_str(s@),
{
    format!("{:?}", s)
}

/// `Duration::from_secs(secs)`; its result is named `duration_of_secs`.
pub uninterp spec fn duration_of_secs(secs: u64) -> Duration;

/// `Duration::from_secs`.
#[verifier::external_body]
fn duration_from_secs(secs: u64) -> (d: Duration)
    ensures
        d == duration_of_secs(secs),
{
    Duration::from_secs(secs)
}

/// An ASCII decimal digit.
pub open spec fn is_digit(c: char) -> bool {
    '0' <= c && c <= '9'
}

/// Number of leading ASCII digits of `s`.
pub open spec fn digit_prefix_len(s: Seq<char>) -> nat
    decreases s.len(),
{
    if s.len() == 0 {
        0
    } else if is_digit(s[0]) {
        1 + digit_prefix_len(s.drop_first())
    } else {
        0
    }
}

/// The value of a numeral of ASCII digits (big-endian).
pub open spec fn digits_value(s: Seq<char>) -> nat
    decreases s.len(),
{
    if s.len() == 0 {
        0
    } else {
        digits_value(s.drop_last()) * 10 + ((s.last() as u32) - ('0' as u32)) as nat
    }
}

/// Seconds per unit for the accepted unit spellings.
pub open spec fn unit_seconds(unit: Seq<char>) -> Option<nat> {
    if unit == "s"@ || unit == "sec"@ || unit == "secs"@ {
        Some(1)
    } else if unit == "m"@ || unit == "min"@ || unit == "mins"@ {
        Some(60)
    } else if unit == "h"@ || unit == "hr"@ || unit == "hrs"@ {
        Some(3600)
    } else {
        None
    }
}

/// The numeral part of a trimmed duration (everything before the first
/// non-digit).
pub open spec fn duration_number(r: Seq<char>) -> Seq<char> {
    r.take(digit_prefix_len(r) as int)
}

/// The unit part of a trimmed duration (`s` when there is none).
pub open spec fn duration_unit(r: Seq<char>) -> Seq<char> {
    if digit_prefix_len(r) == r.len() {
        "s"@
    } else {
        r.skip(digit_prefix_len(r) as int)
    }
}

/// `"duration " + debug(r)`.
pub open spec fn duration_prefix(r: Seq<char>) -> Seq<char> {
    "duration "@ + debug_str(r)
}

/// What `parse_duration` yields for `raw`: seconds, or the error message.
pub open spec fn duration_outcome(raw: Seq<char>) -> Result<nat, Seq<char>> {
    let r = trimmed(raw);
    let number = duration_number(r);
    let unit = trimmed(duration_unit(r));
    if r.len() == 0 {
        Err("duration is empty"@)
    } else if number.len() == 0 {
        Err(duration_prefix(r) + ": bad number (cannot parse integer from empty string)"@)
    } else if digits_value(number) > u64::MAX {
        Err(duration_prefix(r) + ": bad number (number too large to fit in target type)"@)
    } else {
        match unit_seconds(unit) {
            None => Err(
                duration_prefix(r) + ": unknown unit "@ + debug_str(unit) + " (use s/m/h)"@,
            ),
            Some(per) => if digits_value(number) * per == 0 {
                Err(duration_prefix(r) + " must be positive"@)
            } else {
                Ok(digits_value(number) * per)
            },
        }
    }
}

/// The seconds of a well-formed duration do not fit in a `u64` (the
/// multiplication by the unit would overflow).
pub open spec fn duration_overflows(raw: Seq<char>) -> bool {
    match duration_outcome(raw) {
        Ok(secs) => secs > u64::MAX,
        Err(_) => false,
    }
}

proof fn lemma_digit_prefix_len_bound(s: Seq<char>)
    ensures
        digit_prefix_len(s) <= s.len(),
        forall|i: int| 0 <= i < digit_prefix_len(s) ==> is_digit(#[trigger] s[i]),
        digit_prefix_len(s) < s.len() ==> !is_digit(s[digit_prefix_len(s) as int]),
    decreases s.len(),
{
    if s.len() > 0 && is_digit(s[0]) {
        lemma_digit_prefix_len_bound(s.drop_first());
        assert forall|i: int| 0 <= i < digit_prefix_len(s) implies is_digit(#[trigger] s[i]) by {
            if i > 0 {
                assert(s[i] == s.drop_first()[i - 1]);
            }
        }
    }
}

proof fn lemma_digits_value_monotone(s: Seq<char>, j: int, k: int)
    requires
        0 <= j <= k <= s.len(),
    ensures
        digits_value(s.take(j)) <= digits_value(s.take(k)),
    decreases k - j,
{
    if j < k {
        lemma_digits_value_monotone(s, j, k - 1);
        assert(s.take(k).drop_last() =~= s.take(k - 1));
    }
}

/// Index of the first non-digit of `s` (or its length).
fn digit_prefix(s: &[char]) -> (n: usize)
    ensures
        n == digit_prefix_len(s@),
{
    let mut i: usize = 0;
    assert(s@.skip(0) =~= s@);
    while i < s.len() && '0' <= s[i] && s[i] <= '9'
        invariant
            i <= s@.len(),
            digit_prefix_len(s@) == i + digit_prefix_len(s@.skip(i as int)),
        decreases s@.len() - i,
    {
        assert(s@.skip(i as int).drop_first() =~= s@.skip(i + 1));
        i = i + 1;
    }
    proof {
        if i < s@.len() {
            assert(s@.skip(i as int)[0] == s@[i as int]);
        }
    }
    i
}

/// The value of the digit run `s[..n]`, or `None` when it exceeds `u64`.
fn numeral_value(s: &[char], n: usize) -> (r: Option<u64>)
    requires
        n <= s@.len(),
        forall|i: int| 0 <= i < n ==> is_digit(#[trigger] s@[i]),
    ensures
        match r {
            Some(v) => v == digits_value(s@.take(n as int)),
            None => digits_value(s@.take(n as int)) > u64::MAX,
        },
{
    let mut acc: u64 = 0;
    let mut i: usize = 0;
    assert(s@.take(0) =~= Seq::<char>::empty());
    while i < n
        invariant
            i <= n <= s@.len(),
            forall|k: int| 0 <= k < n ==> is_digit(#[trigger] s@[k]),
            acc == digits_value(s@.take(i as int)),
        decreases n - i,
    {
        let d = (s[i] as u32 - '0' as u32) as u64;
        proof {
            assert(s@.take(i + 1).drop_last() =~= s@.take(i as int));
            assert(s@.take(i + 1).last() == s@[i as int]);
        }
        match acc.checked_mul(10) {
            None => {
                proof {
                    lemma_digits_value_monotone(s@, i + 1, n as int);
                }
                return None;
            },
            Some(m) => match m.checked_add(d) {
                None => {
                    proof {
                        lemma_digits_value_monotone(s@, i + 1, n as int);
                    }
                    return None;
                },
                Some(v) => {
                    acc = v;
                },
            },
        }
        i = i + 1;
    }
    Some(acc)
}

/// Seconds per unit for `unit`, if it is an accepted spelling.
fn unit_multiplier(unit: &[char]) -> (r: Option<u64>)
    ensures
        match unit_seconds(unit@) {
            Some(per) => r == Some(per as u64),
            None => r is None,
        },
{
    if seq_eq(unit, &chars_of("s")) || seq_eq(unit, &chars_of("sec")) || seq_eq(
        unit,
        &chars_of("secs"),
    ) {
        Some(1)
    } else if seq_eq(unit, &chars_of("m")) || seq_eq(unit, &chars_of("min")) || seq_eq(
        unit,
        &chars_of("mins"),
    ) {
        Some(60)
    } else if seq_eq(unit, &chars_of("h")) || seq_eq(unit, &chars_of("hr")) || seq_eq(
        unit,
        &chars_of("hrs"),
    ) {
        Some(3600)
    } else {
        None
    }
}

/// Do the seconds of `raw` fit in a `u64`? Parsing is defined exactly on
/// the durations that do (and on every malformed one).
pub fn duration_fits(raw: &str) -> (r: bool)
    ensures
        r == !duration_overflows(raw@),
{
    let all = chars_of(raw);
    let r = trim_chars(&all);
    if r.len() == 0 {
        return true;
    }
    let n = digit_prefix(&r);
    proof {
        lemma_digit_prefix_len_bound(r@);
    }
    if n == 0 {
        assert(duration_number(r@) =~= Seq::<char>::empty());
        return true;
    }
    let value = match numeral_value(&r, n) {
        Some(v) => v,
        None => {
            return true;
        },
    };
    let unit_raw: Vec<char> = if n == r.len() {
        chars_of("s")
    } else {
        let mut u: Vec<char> = Vec::new();
        let mut k = n;
        while k < r.len()
            invariant
                n <= k <= r@.len(),
                u@ == r@.subrange(n as int, k as int),
            decreases r@.len() - k,
        {
            u.push(r[k]);
            k = k + 1;
            assert(u@ =~= r@.subrange(n as int, k as int));
        }
        assert(u@ =~= r@.skip(n as int));
        u
    };
    let unit = trim_chars(&unit_raw);
    match unit_multiplier(&unit) {
        None => true,
        Some(per) => value.checked_mul(per).is_some(),
    }
}

/// Parse a human duration into seconds: `45s`, `10m`, `4h`, or bare
/// seconds (`600`).
pub fn parse_duration_secs(raw: &str) -> (r: Result<u64, String>)
    requires
        !duration_overflows(raw@),
    ensures
        match (r, duration_outcome(raw@)) {
            (Ok(secs), Ok(expected)) => secs == expected,
            (Err(msg), Err(expected)) => msg@ == expected,
            _ => false,
        },
{
    let all = chars_of(raw);
    let r = trim_chars(&all);
    if r.len() == 0 {
        return Err(owned("duration is empty"));
    }
    let rs = string_from_chars(&r);
    let n = digit_prefix(&r);
    proof {
        lemma_digit_prefix_len_bound(r@);
    }
    let mut prefix = owned("duration ");
    push_str(&mut prefix, debug_quoted(rs.as_str()).as_str());
    if n == 0 {
        assert(duration_number(r@) =~= Seq::<char>::empty());
        push_str(&mut prefix, ": bad number (cannot parse integer from empty string)");
        return Err(prefix);
    }
    let value = match numeral_value(&r, n) {
        Some(v) => v,
        None => {
            push_str(&mut prefix, ": bad number (number too large to fit in target type)");
            return Err(prefix);
        },
    };
    let unit_raw: Vec<char> = if n == r.len() {
        chars_of("s")
    } else {
        let mut u: Vec<char> = Vec::new();
        let mut k = n;
        while k < r.len()
            invariant
                n <= k <= r@.len(),
                u@ == r@.subrange(n as int, k as int),
            decreases r@.len() - k,
        {
            u.push(r[k]);
            k = k + 1;
            assert(u@ =~= r@.subrange(n as int, k as int));
        }
        assert(u@ =~= r@.skip(n as int));
        u
    };
    let unit = trim_chars(&unit_raw);
    match unit_multiplier(&unit) {
        None => {
            push_str(&mut prefix, ": unknown unit ");
            let us = string_from_chars(&unit);
            push_str(&mut prefix, debug_quoted(us.as_str()).as_str());
            push_str(&mut prefix, " (use s/m/h)");
            Err(prefix)
        },
        Some(per) => {
            assert(value * per <= u64::MAX);
            let secs = value * per;
            if secs == 0 {
                push_str(&mut prefix, " must be positive");
                Err(prefix)
            } else {
                Ok(secs)
            }
        },
    }
}

/// Parse a human duration: `45s`, `10m`, `4h`, or bare seconds (`600`).
pub fn parse_duration(raw: &str) -> (r: Result<Duration, String>)
    requires
        !duration_overflows(raw@),
    ensures
        match (r, duration_outcome(raw@)) {
            (Ok(d), Ok(expected)) => d == duration_of_secs(expected as u64),
            (Err(msg), Err(expected)) => msg@ == expected,
            _ => false,
        },
{
    match parse_duration_secs(raw) {
        Ok(secs) => Ok(duration_from_secs(secs)),
        Err(e) => Err(e),
    }
}

/// Per-class p95 latency budget defaults, in microseconds: 250ms for a
/// whole MCP session; 100ms for create, conflict_edit, search and
/// traverse; 50ms for the common operations (read, transition) and edit.
pub open spec fn default_budget_us(class: Seq<char>) -> u64 {
    if class == "mcp"@ {
        250_000
    } else if class == "create"@ || class == "conflict_edit"@ || class == "search"@ || class
        == "traverse"@ {
        100_000
    } else {
        50_000
    }
}

/// The first override for `class`, if any.
pub open spec fn override_for(overrides: Seq<(String, u64)>, class: Seq<char>) -> Option<u64>
    decreases overrides.len(),
{
    if overrides.len() == 0 {
        None
    } else if overrides[0].0@ == class {
        Some(overrides[0].1)
    } else {
        override_for(overrides.drop_first(), class)
    }
}

/// The p95 budget for `class`: the configured override, else the default.
pub open spec fn spec_p95_budget_us(overrides: Seq<(String, u64)>, class: Seq<char>) -> u64 {
    match override_for(overrides, class) {
        Some(us) => us,
        None => default_budget_us(class),
    }
}

/// Continuous-assertion thresholds. Breach policy: a tenant-isolation
/// breach is fatal; every other breach is reported and fails the run at
/// the end.
pub struct Thresholds {
    /// Maximum tolerated error ratio, in parts per million (deliberate 409s
    /// excluded from the numerator).
    pub max_error_rate_ppm: u64,
    /// Per-class p95 budget overrides, in microseconds.
    pub p95_budget_us: Vec<(String, u64)>,
    /// Minimum samples in a class before its p95 is asserted.
    pub min_samples_for_latency: u64,
    /// Grace period before the mid-run latency assertions arm.
    pub warmup_secs: u64,
    /// Fail if `/metrics` is missing.
    pub require_metrics: bool,
    /// Hard cap on history rows per item.
    pub max_history_rows_per_item: i64,
    /// Fail if the bystander tenant cannot be provisioned/read.
    pub require_bystander: bool,
}

impl Thresholds {
    /// The defaults: 1% error rate, no budget overrides, 20 samples before
    /// latency is asserted, 60s warm-up, metrics optional, 500 history rows
    /// per item, bystander required.
    pub fn default_thresholds() -> (t: Thresholds)
        ensures
            t.max_error_rate_ppm == 10_000,
            t.p95_budget_us@.len() == 0,
            t.min_samples_for_latency == 20,
            t.warmup_secs == 60,
            !t.require_metrics,
            t.max_history_rows_per_item == 500,
            t.require_bystander,
    {
        Thresholds {
            max_error_rate_ppm: 10_000,
            p95_budget_us: Vec::new(),
            min_samples_for_latency: 20,
            warmup_secs: 60,
            require_metrics: false,
            max_history_rows_per_item: 500,
            require_bystander: true,
        }
    }

    /// The p95 budget for an op class in microseconds (override or default).
    pub fn p95_budget(&self, class: &str) -> (us: u64)
        ensures
            us == spec_p95_budget_us(self.p95_budget_us@, class@),
    {
        let mut i: usize = 0;
        assert(self.p95_budget_us@.skip(0) =~= self.p95_budget_us@);
        while i < self.p95_budget_us.len()
            invariant
                i <= self.p95_budget_us@.len(),
                override_for(self.p95_budget_us@, class@) == override_for(
                    self.p95_budget_us@.skip(i as int),
                    class@,
                ),
            decreases self.p95_budget_us@.len() - i,
        {
            proof {
                let rest = self.p95_budget_us@.skip(i as int);
                assert(rest.drop_first() =~= self.p95_budget_us@.skip(i + 1));
                assert(rest[0] == self.p95_budget_us@[i as int]);
            }
            if str_eq(self.p95_budget_us[i].0.as_str(), class) {
                return self.p95_budget_us[i].1;
            }
            i = i + 1;
        }
        if str_eq(class, "mcp") {
            250_000
        } else if str_eq(class, "create") || str_eq(class, "conflict_edit") || str_eq(
            class,
            "search",
        ) || str_eq(class, "traverse") {
            100_000
        } else {
            50_000
        }
    }
}

/// The weighted operation mix (weights are relative).
pub struct OpMix {
    pub create: u32,
    pub edit: u32,
    pub conflict_edit: u32,
    pub transition: u32,
    pub read: u32,
    pub search: u32,
    pub traverse: u32,
    pub mcp: u32,
}

/// The sum of all weights of a mix.
pub open spec fn mix_total(m: OpMix) -> int {
    m.create + m.edit + m.conflict_edit + m.transition + m.read + m.search + m.traverse + m.mcp
}

impl OpMix {
    /// The default "realistic operation mix" (total weight 100).
    pub fn default_mix() -> (m: OpMix)
        ensures
            m.create == 10 && m.edit == 20 && m.conflict_edit == 5 && m.transition == 12
                && m.read == 25 && m.search == 12 && m.traverse == 8 && m.mcp == 8,
    {
        OpMix {
            create: 10,
            edit: 20,
            conflict_edit: 5,
            transition: 12,
            read: 25,
            search: 12,
            traverse: 8,
            mcp: 8,
        }
    }

    /// Total weight (an all-zero mix is a configuration error).
    pub fn total(&self) -> (t: u32)
        requires
            mix_total(*self) <= u32::MAX,
        ensures
            t == mix_total(*self),
    {
        self.create + self.edit + self.conflict_edit + self.transition + self.read + self.search
            + self.traverse + self.mcp
    }
}

/// A configured budget wins: when some override names the class, the
/// budget is the value of the first override that names it; the default
/// tier (250 ms for `mcp`, 100 ms for create, conflict_edit, search and
/// traverse, 50 ms otherwise) applies only when no override names it.
pub proof fn law_first_override_wins(overrides: Seq<(String, u64)>, class: Seq<char>)
    ensures
        forall|i: int|
            0 <= i < overrides.len() && #[trigger] overrides[i].0@ == class && (forall|k: int|
                0 <= k < i ==> overrides[k].0@ != class) ==> spec_p95_budget_us(overrides, class)
                == overrides[i].1,
        (forall|k: int| 0 <= k < overrides.len() ==> #[trigger] overrides[k].0@ != class)
            ==> spec_p95_budget_us(overrides, class) == if class == "mcp"@ {
            250_000u64
        } else if class == "create"@ || class == "conflict_edit"@ || class == "search"@ || class
            == "traverse"@ {
            100_000u64
        } else {
            50_000u64
        },
    decreases overrides.len(),
{
    if overrides.len() > 0 {
        law_first_override_wins(overrides.drop_first(), class);
        assert forall|i: int|
            0 <= i < overrides.len() && #[trigger] overrides[i].0@ == class && (forall|k: int|
                0 <= k < i ==> overrides[k].0@ != class) implies spec_p95_budget_us(overrides, class)
            == overrides[i].1 by {
            if i > 0 {
                assert(overrides[0].0@ != class);
                let rest = overrides.drop_first();
                assert(rest[i - 1] == overrides[i]);
                assert forall|k: int| 0 <= k < i - 1 implies rest[k].0@ != class by {
                    assert(rest[k] == overrides[k + 1]);
                }
            }
        }
        if forall|k: int| 0 <= k < overrides.len() ==> #[trigger] overrides[k].0@ != class {
            assert(overrides[0].0@ != class);
            assert forall|k: int| 0 <= k < overrides.drop_first().len() implies #[trigger] overrides.drop_first()[k].0@ != class by {
                assert(overrides.drop_first()[k] == overrides[k + 1]);
            }
        }
    }
}

} // verus!
