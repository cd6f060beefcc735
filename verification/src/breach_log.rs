//! The breach ledger: every breach is recorded, and each
//! (check, subject) pair is announced at most three times so a persistent
//! breach does not flood the console.

use vstd::prelude::*;
use crate::report::any_fatal;
use crate::stats::{Breach, Severity};
use crate::text::{before_char, push_str, str_eq, take_before};

verus! {

/// The console de-duplication key of a breach: `check|subject`, where the
/// subject is the detail up to its first `:`.
pub open spec fn breach_key(b: Breach) -> Seq<char> {
    b.check@ + "|"@ + before_char(b.detail@, ':')
}

/// How often `key` has been announced so far.
pub open spec fn count_of(printed: Seq<(String, u32)>, key: Seq<char>) -> nat
    decreases printed.len(),
{
    if printed.len() == 0 {
        0
    } else if printed[0].0@ == key {
        printed[0].1 as nat
    } else {
        count_of(printed.drop_first(), key)
    }
}

/// Times one (check, subject) pair is printed before it is suppressed.
pub open spec fn max_prints_per_key() -> nat {
    3
}

/// No key is counted twice.
pub open spec fn distinct_keys(printed: Seq<(String, u32)>) -> bool {
    forall|a: int, b: int| 0 <= a < b < printed.len() ==> #[trigger] printed[a].0@ != #[trigger] printed[b].0@
}

/// What the caller should print for one recorded breach.
pub struct BreachNotice {
    /// The de-duplication key of the breach.
    pub key: String,
    /// Announce the breach itself.
    pub print: bool,
    /// Also say that further breaches with this key are suppressed.
    pub suppressed_from_now: bool,
}

/// The breach ledger.
pub struct BreachLog {
    printed: Vec<(String, u32)>,
    all: Vec<Breach>,
    fatal: bool,
}

impl BreachLog {
    /// Announcements per key so far.
    pub closed spec fn counts(&self) -> Seq<(String, u32)> {
        self.printed@
    }

    /// The ledger is consistent: each key is counted in one place, and the
    /// fatal flag says whether some recorded breach is fatal.
    pub closed spec fn wf(&self) -> bool {
        distinct_keys(self.printed@) && self.fatal == any_fatal(self.all@)
    }

    /// Every recorded breach, oldest first.
    pub closed spec fn records(&self) -> Seq<Breach> {
        self.all@
    }

    /// Some recorded breach was fatal.
    pub closed spec fn saw_fatal(&self) -> bool {
        self.fatal
    }

    /// An empty ledger.
    pub fn new() -> (l: BreachLog)
        ensures
            l.wf(),
            forall|k: Seq<char>| #[trigger] count_of(l.counts(), k) == 0,
            l.records().len() == 0,
            !l.saw_fatal(),
    {
        BreachLog { printed: Vec::new(), all: Vec::new(), fatal: false }
    }

    /// Every recorded breach.
    pub fn records_ref(&self) -> (r: &Vec<Breach>)
        ensures
            r@ == self.records(),
    {
        &self.all
    }

    /// Whether some recorded breach was fatal.
    pub fn fatal(&self) -> (r: bool)
        requires
            self.wf(),
        ensures
            r == self.saw_fatal(),
            r == any_fatal(self.records()),
    {
        self.fatal
    }

    /// The de-duplication key of a breach (`check|subject`).
    pub fn key_of(breach: &Breach) -> (k: String)
        ensures
            k@ == breach_key(*breach),
    {
        let subject = take_before(breach.detail.as_str(), ':');
        let mut key = string_clone_of(&breach.check);
        push_str(&mut key, "|");
        push_str(&mut key, subject.as_str());
        key
    }

    /// How often `key` has been announced so far.
    pub fn count(&self, key: &str) -> (c: u32)
        ensures
            c == count_of(self.counts(), key@),
    {
        let mut i: usize = 0;
        assert(self.printed@.skip(0) =~= self.printed@);
        while i < self.printed.len()
            invariant
                i <= self.printed@.len(),
                count_of(self.printed@, key@) == count_of(self.printed@.skip(i as int), key@),
            decreases self.printed@.len() - i,
        {
            proof {
                let rest = self.printed@.skip(i as int);
                assert(rest.drop_first() =~= self.printed@.skip(i + 1));
                assert(rest[0] == self.printed@[i as int]);
            }
            if str_eq(self.printed[i].0.as_str(), key) {
                return self.printed[i].1;
            }
            i = i + 1;
        }
        0
    }

    /// Record one breach; says whether (and how) to announce it.
    pub fn record(&mut self, breach: Breach) -> (n: BreachNotice)
        requires
            old(self).wf(),
            count_of(old(self).counts(), breach_key(breach)) < u32::MAX,
        ensures
            final(self).wf(),
            n.key@ == breach_key(breach),
            count_of(final(self).counts(), breach_key(breach)) == count_of(
                old(self).counts(),
                breach_key(breach),
            ) + 1,
            forall|k: Seq<char>|
                k != breach_key(breach) ==> #[trigger] count_of(final(self).counts(), k) == count_of(
                    old(self).counts(),
                    k,
                ),
            n.print == (count_of(final(self).counts(), breach_key(breach)) <= max_prints_per_key()),
            n.suppressed_from_now == (count_of(final(self).counts(), breach_key(breach))
                == max_prints_per_key()),
            final(self).saw_fatal() == (old(self).saw_fatal() || breach.severity == Severity::Fatal),
            final(self).records() == old(self).records().push(breach),
    {
        let subject = take_before(breach.detail.as_str(), ':');
        let mut key = string_clone_of(&breach.check);
        push_str(&mut key, "|");
        push_str(&mut key, subject.as_str());
        let count = self.bump(&key);
        let notice = BreachNotice { key, print: count <= 3, suppressed_from_now: count == 3 };
        let ghost before = self.all@;
        if breach.severity == Severity::Fatal {
            self.fatal = true;
        }
        self.all.push(breach);
        proof {
            if breach.severity == Severity::Fatal {
                assert(self.all@[before.len() as int].severity == Severity::Fatal);
            } else {
                assert forall|i: int| 0 <= i < self.all@.len() && #[trigger] self.all@[i].severity
                    == Severity::Fatal implies 0 <= i < before.len() && before[i].severity
                    == Severity::Fatal by {
                    assert(i != before.len());
                }
                if any_fatal(before) {
                    let i = choose|i: int| 0 <= i < before.len() && #[trigger] before[i].severity == Severity::Fatal;
                    assert(self.all@[i].severity == Severity::Fatal);
                }
            }
        }
        notice
    }

    /// Increment the announcement count of `key`; returns the new count.
    fn bump(&mut self, key: &String) -> (c: u32)
        requires
            count_of(old(self).printed@, key@) < u32::MAX,
            distinct_keys(old(self).printed@),
        ensures
            distinct_keys(final(self).printed@),
            c == count_of(final(self).printed@, key@),
            c == count_of(old(self).printed@, key@) + 1,
            forall|k: Seq<char>| k != key@ ==> #[trigger] count_of(final(self).printed@, k) == count_of(
                old(self).printed@,
                k,
            ),
            final(self).all == old(self).all,
            final(self).fatal == old(self).fatal,
    {
        let mut i: usize = 0;
        assert(self.printed@.skip(0) =~= self.printed@);
        while i < self.printed.len()
            invariant
                i <= self.printed@.len(),
                self.printed@ == old(self).printed@,
                self.all == old(self).all,
                self.fatal == old(self).fatal,
                distinct_keys(self.printed@),
                count_of(self.printed@, key@) < u32::MAX,
                count_of(self.printed@, key@) == count_of(self.printed@.skip(i as int), key@),
                forall|k: int| 0 <= k < i ==> #[trigger] self.printed@[k].0@ != key@,
            decreases self.printed@.len() - i,
        {
            proof {
                let rest = self.printed@.skip(i as int);
                assert(rest.drop_first() =~= self.printed@.skip(i + 1));
                assert(rest[0] == self.printed@[i as int]);
            }
            if str_eq(self.printed[i].0.as_str(), key.as_str()) {
                let name = string_clone_of(&self.printed[i].0);
                let c = self.printed[i].1 + 1;
                let ghost before = self.printed@;
                self.printed.set(i, (name, c));
                proof {
                    lemma_count_update(before, i as int, key@, (name, c));
                    assert forall|a: int, b: int| 0 <= a < b < self.printed@.len() implies #[trigger] self.printed@[a].0@
                        != #[trigger] self.printed@[b].0@ by {
                        assert(before[a].0@ != before[b].0@);
                    }
                }
                return c;
            }
            i = i + 1;
        }
        let ghost before = self.printed@;
        self.printed.push((string_clone_of(key), 1));
        proof {
            assert(self.printed@.skip(before.len() as int) =~= seq![self.printed@[before.len() as int]]);
            lemma_count_append(before, key@, self.printed@[before.len() as int]);
            assert forall|a: int, b: int| 0 <= a < b < self.printed@.len() implies #[trigger] self.printed@[a].0@
                != #[trigger] self.printed@[b].0@ by {
                if b < before.len() {
                    assert(before[a].0@ != before[b].0@);
                } else {
                    assert(before[a].0@ != key@);
                }
            }
        }
        1
    }
}

/// A copy of `s`.
fn string_clone_of(s: &String) -> (r: String)
    ensures
        r@ == s@,
{
    crate::text::string_clone(s)
}

proof fn lemma_count_update(p: Seq<(String, u32)>, i: int, key: Seq<char>, n: (String, u32))
    requires
        0 <= i < p.len(),
        p[i].0@ == key,
        n.0@ == key,
        forall|k: int| 0 <= k < i ==> #[trigger] p[k].0@ != key,
    ensures
        count_of(p, key) == p[i].1,
        count_of(p.update(i, n), key) == n.1,
        forall|k: Seq<char>| k != key ==> #[trigger] count_of(p.update(i, n), k) == count_of(p, k),
    decreases i,
{
    let q = p.update(i, n);
    if i > 0 {
        assert(p[0].0@ != key);
        assert(q.drop_first() =~= p.drop_first().update(i - 1, n));
        lemma_count_update(p.drop_first(), i - 1, key, n);
        assert forall|k: Seq<char>| k != key implies #[trigger] count_of(q, k) == count_of(p, k) by {
            assert(p[0] == q[0]);
            if q[0].0@ != k {
                assert(count_of(q, k) == count_of(q.drop_first(), k));
                assert(count_of(p.drop_first().update(i - 1, n), k) == count_of(p.drop_first(), k));
            }
        }
    } else {
        assert(q.drop_first() =~= p.drop_first());
        assert(q[0] == n);
        assert forall|k: Seq<char>| k != key implies #[trigger] count_of(q, k) == count_of(p, k) by {
            assert(q[0].0@ != k);
            assert(p[0].0@ != k);
            assert(count_of(q, k) == count_of(q.drop_first(), k));
            assert(count_of(p, k) == count_of(p.drop_first(), k));
            assert(q.drop_first() =~= p.drop_first());
            assert(count_of(q, k) == count_of(p, k));
        }
    }
}

proof fn lemma_count_append(p: Seq<(String, u32)>, key: Seq<char>, n: (String, u32))
    requires
        n.0@ == key,
        forall|k: int| 0 <= k < p.len() ==> #[trigger] p[k].0@ != key,
    ensures
        count_of(p, key) == 0,
        count_of(p.push(n), key) == n.1,
        forall|k: Seq<char>| k != key ==> #[trigger] count_of(p.push(n), k) == count_of(p, k),
    decreases p.len(),
{
    let q = p.push(n);
    if p.len() > 0 {
        assert(p[0].0@ != key);
        assert(q.drop_first() =~= p.drop_first().push(n));
        lemma_count_append(p.drop_first(), key, n);
        assert forall|k: Seq<char>| k != key implies #[trigger] count_of(q, k) == count_of(p, k) by {
            assert(q[0] == p[0]);
            if q[0].0@ != k {
                assert(count_of(q, k) == count_of(q.drop_first(), k));
                assert(count_of(p.drop_first().push(n), k) == count_of(p.drop_first(), k));
            }
        }
    } else {
        assert(q.drop_first() =~= p);
        assert(q[0] == n);
        assert forall|k: Seq<char>| k != key implies #[trigger] count_of(q, k) == count_of(p, k) by {
            assert(q[0].0@ != k);
            assert(count_of(q, k) == count_of(q.drop_first(), k));
            assert(q.drop_first() =~= p);
            assert(count_of(p, k) == 0);
        }
    }
}

/// How many of `keys` are `k`.
pub open spec fn occurrences(keys: Seq<Seq<char>>, k: Seq<char>) -> nat
    decreases keys.len(),
{
    if keys.len() == 0 {
        0
    } else {
        occurrences(keys.drop_last(), k) + if keys.last() == k {
            1nat
        } else {
            0nat
        }
    }
}

/// How often `k` is announced when breaches with `keys` are recorded in
/// order into an empty ledger: a record is announced while its key's
/// count, itself included, is within the limit.
pub open spec fn announcements(keys: Seq<Seq<char>>, k: Seq<char>) -> nat
    decreases keys.len(),
{
    if keys.len() == 0 {
        0
    } else {
        announcements(keys.drop_last(), k) + if keys.last() == k && occurrences(keys, k)
            <= max_prints_per_key() {
            1nat
        } else {
            0nat
        }
    }
}

/// However many breaches are recorded, each (check, subject) key is
/// announced at most three times: exactly as often as it occurred, up to
/// three.
pub proof fn law_each_key_announced_at_most_thrice(keys: Seq<Seq<char>>, k: Seq<char>)
    ensures
        announcements(keys, k) == if occurrences(keys, k) <= max_prints_per_key() {
            occurrences(keys, k)
        } else {
            max_prints_per_key()
        },
        announcements(keys, k) <= max_prints_per_key(),
    decreases keys.len(),
{
    if keys.len() > 0 {
        law_each_key_announced_at_most_thrice(keys.drop_last(), k);
    }
}

} // verus!
