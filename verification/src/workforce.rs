//! The standing event subscribers' bookkeeping: what each observation does
//! to the shared counters and what the subscriber does next.

use vstd::prelude::*;
use crate::report::WsReport;
use crate::rng::{scramble, xorshift, SmallRng};
use crate::stats::Outcome;
use crate::text::{decimal_digits, owned, push_decimal, push_signed, push_str, signed_digits, str_eq, string_clone};
use crate::world::{board_targets, lemma_board_targets_first, lemma_board_targets_none, lookup_targets, World};

verus! {

/// What a subscriber observed.
#[derive(Clone, Copy, Debug, PartialEq, Eq, Structural)]
pub enum WsEvent {
    /// The event stream was opened.
    Connected,
    /// One event arrived on the stream.
    Delivered,
    /// The stream failed.
    StreamFailed,
    /// Nothing arrived within the idle timeout.
    Idle,
    /// Opening the stream failed.
    ConnectFailed,
}

/// What the subscriber does next.
#[derive(Clone, Copy, Debug, PartialEq, Eq, Structural)]
pub enum WsAction {
    /// Keep listening on the open stream.
    Listen,
    /// Open the stream again at once.
    Reconnect,
    /// Wait a second, then open the stream again.
    PauseThenReconnect,
}

/// Counters shared by the subscribers (each wraps at `u64::MAX`, as an
/// atomic add does).
pub struct WsCounters {
    pub connects: u64,
    pub events: u64,
    pub reconnects: u64,
}

/// `x + 1`, wrapping at `u64::MAX`.
pub open spec fn bump(x: u64) -> u64 {
    if x == u64::MAX {
        0
    } else {
        (x + 1) as u64
    }
}

/// The action that follows an observation.
pub open spec fn next_action(e: WsEvent) -> WsAction {
    match e {
        WsEvent::Connected | WsEvent::Delivered | WsEvent::Idle => WsAction::Listen,
        WsEvent::StreamFailed => WsAction::Reconnect,
        WsEvent::ConnectFailed => WsAction::PauseThenReconnect,
    }
}

impl WsCounters {
    /// All counters at zero.
    pub fn new() -> (c: WsCounters)
        ensures
            c.connects == 0 && c.events == 0 && c.reconnects == 0,
    {
        WsCounters { connects: 0, events: 0, reconnects: 0 }
    }

    /// Count one observation and say what the subscriber does next: a
    /// connect counts a connect, a delivered event counts an event, and any
    /// failure counts a reconnect; idling counts nothing.
    pub fn observe(&mut self, e: WsEvent) -> (a: WsAction)
        ensures
            a == next_action(e),
            final(self).connects == if e == WsEvent::Connected {
                bump(old(self).connects)
            } else {
                old(self).connects
            },
            final(self).events == if e == WsEvent::Delivered {
                bump(old(self).events)
            } else {
                old(self).events
            },
            final(self).reconnects == if e == WsEvent::StreamFailed || e == WsEvent::ConnectFailed {
                bump(old(self).reconnects)
            } else {
                old(self).reconnects
            },
    {
        match e {
            WsEvent::Connected => {
                self.connects = self.connects.wrapping_add(1);
                WsAction::Listen
            },
            WsEvent::Delivered => {
                self.events = self.events.wrapping_add(1);
                WsAction::Listen
            },
            WsEvent::Idle => WsAction::Listen,
            WsEvent::StreamFailed => {
                self.reconnects = self.reconnects.wrapping_add(1);
                WsAction::Reconnect
            },
            WsEvent::ConnectFailed => {
                self.reconnects = self.reconnects.wrapping_add(1);
                WsAction::PauseThenReconnect
            },
        }
    }

    /// The report section for these counters.
    pub fn report(&self, subscribers: u64) -> (r: WsReport)
        ensures
            r.subscribers == subscribers,
            r.connects == self.connects,
            r.events_received == self.events,
            r.reconnects == self.reconnects,
    {
        WsReport {
            subscribers,
            connects: self.connects,
            events_received: self.events,
            reconnects: self.reconnects,
        }
    }
}

/// Cap on each worker's created-item pool.
pub const POOL_CAP: usize = 200;

/// The pool after adding `code` with the generator at `state`: appended
/// while under the cap, otherwise written over the slot the generator's
/// next draw picks.
pub open spec fn pool_after(pool: Seq<String>, code: String, state: u64) -> Seq<String> {
    if pool.len() < 200 {
        pool.push(code)
    } else {
        pool.update((scramble(xorshift(state)) % 200) as int, code)
    }
}

/// Add a created item to the worker's pool: appended while the pool is
/// under its cap, otherwise written over a random slot.
pub fn pool_insert(pool: &mut Vec<String>, code: String, rng: &mut SmallRng)
    ensures
        final(pool)@ == pool_after(old(pool)@, code, old(rng).state()),
        final(rng).state() == if old(pool)@.len() < 200 {
            old(rng).state()
        } else {
            xorshift(old(rng).state())
        },
{
    if pool.len() >= POOL_CAP {
        let slot = rng.below(200) as usize;
        pool.set(slot, code);
    } else {
        pool.push(code);
    }
}

/// A worker's pool never grows past its cap, and the item just created is
/// always in it afterwards.
pub proof fn law_pool_stays_capped(pool: Seq<String>, code: String, state: u64)
    requires
        pool.len() <= 200,
    ensures
        pool_after(pool, code, state).len() <= 200,
        pool_after(pool, code, state).contains(code),
        pool.len() < 200 ==> pool_after(pool, code, state).len() == pool.len() + 1,
{
    let after = pool_after(pool, code, state);
    if pool.len() < 200 {
        assert(after[pool.len() as int] == code);
    } else {
        let slot = (scramble(xorshift(state)) % 200) as int;
        assert(after[slot] == code);
    }
}

/// How a client call failed, as the worker tells them apart.
pub enum CallError {
    /// A 409 conflict (with the error's text).
    Conflict(String),
    /// Any other failure (with the error's text).
    Other(String),
}

/// The outcome recorded for a call: success; a conflict where one is by
/// design; an error with the failure's text otherwise.
pub open spec fn call_outcome_spec(error: Option<CallError>, conflict_expected: bool) -> Outcome {
    match error {
        None => Outcome::Success,
        Some(CallError::Conflict(m)) => if conflict_expected {
            Outcome::ExpectedConflict
        } else {
            Outcome::Error(m)
        },
        Some(CallError::Other(m)) => Outcome::Error(m),
    }
}

/// The view of an outcome.
pub open spec fn outcome_view(o: Outcome) -> (int, Seq<char>) {
    match o {
        Outcome::Success => (0int, Seq::empty()),
        Outcome::ExpectedConflict => (1int, Seq::empty()),
        Outcome::Error(m) => (2int, m@),
    }
}

/// The outcome to record for one client call.
pub fn call_outcome(error: Option<&CallError>, conflict_expected: bool) -> (o: Outcome)
    ensures
        outcome_view(o) == outcome_view(
            call_outcome_spec(
                match error {
                    Some(e) => Some(*e),
                    None => None,
                },
                conflict_expected,
            ),
        ),
{
    match error {
        None => Outcome::Success,
        Some(CallError::Conflict(m)) => if conflict_expected {
            Outcome::ExpectedConflict
        } else {
            Outcome::Error(string_clone(m))
        },
        Some(CallError::Other(m)) => Outcome::Error(string_clone(m)),
    }
}

/// The message when replaying a stale version is accepted.
pub open spec fn stale_accepted(code: Seq<char>, version: i32) -> Seq<char> {
    code + ": stale-version PATCH (v"@ + signed_digits(version as int)
        + ") unexpectedly succeeded \u{2014} optimistic concurrency (A-0004) not enforced?"@
}

/// The outcome of replaying an edit at an already-used version: the
/// conflict is the designed result; acceptance means optimistic
/// concurrency is not enforced.
pub fn replay_outcome(code: &str, version: i32, error: Option<&CallError>) -> (o: Outcome)
    ensures
        outcome_view(o) == match error {
            None => (2int, stale_accepted(code@, version)),
            Some(CallError::Conflict(_)) => (1int, Seq::<char>::empty()),
            Some(CallError::Other(m)) => (2int, m@),
        },
{
    match error {
        None => {
            let mut m = owned(code);
            push_str(&mut m, ": stale-version PATCH (v");
            push_signed(&mut m, version as i64);
            push_str(&mut m, ") unexpectedly succeeded \u{2014} optimistic concurrency (A-0004) not enforced?");
            Outcome::Error(m)
        },
        Some(CallError::Conflict(_)) => Outcome::ExpectedConflict,
        Some(CallError::Other(m)) => Outcome::Error(string_clone(m)),
    }
}

/// The target a roll picks among `ts` for a generator in `state`.
pub open spec fn picked(ts: Seq<String>, state: u64) -> Seq<char> {
    ts[(scramble(xorshift(state)) % (ts.len() as u64)) as int]@
}

/// Pick where a transition goes: a random target of the item's current
/// column on its board; `None` (drawing nothing) for an unknown board, an
/// unlisted column or a terminal column.
pub fn transition_target(world: &World, board_id: &str, column_id: &str, rng: &mut SmallRng) -> (r:
    Option<String>)
    ensures
        match board_targets(world.delivery_boards@, board_id@, column_id@) {
            Some(ts) => if ts.len() > 0 {
                r matches Some(t) && t@ == picked(ts, old(rng).state()) && final(rng).state()
                    == xorshift(old(rng).state())
            } else {
                r is None && final(rng).state() == old(rng).state()
            },
            None => r is None && final(rng).state() == old(rng).state(),
        },
{
    let board = match world.board_by_id(board_id) {
        Some(b) => b,
        None => {
            proof {
                lemma_board_targets_none(world.delivery_boards@, board_id@, column_id@);
            }
            return None;
        },
    };
    proof {
        let i = choose|i: int|
            0 <= i < world.delivery_boards@.len() && world.delivery_boards@[i] == *board
                && board.id@ == board_id@ && forall|k: int|
                0 <= k < i ==> #[trigger] world.delivery_boards@[k].id@ != board_id@;
        lemma_board_targets_first(world.delivery_boards@, i, board_id@, column_id@);
    }
    let targets = match lookup_targets(&board.targets, column_id) {
        Some(t) => t,
        None => {
            return None;
        },
    };
    if targets.len() == 0 {
        return None;
    }
    let k = rng.below(targets.len() as u64) as usize;
    Some(string_clone(&targets[k]))
}

/// The title of a created workload item.
pub fn create_title(worker: &str, counter: u64) -> (r: String)
    ensures
        r@ == "Soak "@ + worker@ + " #"@ + decimal_digits(counter as nat),
{
    let mut r = owned("Soak ");
    push_str(&mut r, worker);
    push_str(&mut r, " #");
    push_decimal(&mut r, counter);
    r
}

/// The content of a created workload item.
pub fn create_content(worker: &str, initiative: &str) -> (r: String)
    ensures
        r@ == "Soak workload item for "@ + worker@ + " (initiative "@ + initiative@ + ")."@,
{
    let mut r = owned("Soak workload item for ");
    push_str(&mut r, worker);
    push_str(&mut r, " (initiative ");
    push_str(&mut r, initiative);
    push_str(&mut r, ").");
    r
}

/// The content of a contended edit.
pub fn collision_content(worker: &str, counter: u64) -> (r: String)
    ensures
        r@ == "Soak collision #"@ + decimal_digits(counter as nat) + " by "@ + worker@ + "."@,
{
    let mut r = owned("Soak collision #");
    push_decimal(&mut r, counter);
    push_str(&mut r, " by ");
    push_str(&mut r, worker);
    push_str(&mut r, ".");
    r
}

/// The content of an own-pool edit, stamped with the current time: the
/// stamp sits between `at ` and the final `.`.
pub fn edit_content(worker: &str, counter: u64) -> (r: String)
    ensures
        exists|stamp: Seq<char>|
            r@ == "Soak edit #"@ + decimal_digits(counter as nat) + " by "@ + worker@ + " at "@ + stamp
                + "."@,
{
    let mut r = owned("Soak edit #");
    push_decimal(&mut r, counter);
    push_str(&mut r, " by ");
    push_str(&mut r, worker);
    push_str(&mut r, " at ");
    let stamp = crate::stats::utc_now_rfc3339();
    push_str(&mut r, stamp.as_str());
    push_str(&mut r, ".");
    r
}

/// What a read operation fetches.
pub enum ReadPlan {
    /// One contended item, by index into the collision codes.
    Collision(usize),
    /// One of the worker's own items, by pool index.
    Pool(usize),
    /// The home board's items.
    BoardItems,
    /// The first page of tasks.
    ListTasks,
}

/// The draw below `bound` the generator at `state` makes next.
pub open spec fn draw(state: u64, bound: u64) -> u64 {
    scramble(xorshift(state)) % bound
}

/// The read planned with the generator at `state`, and the generator's
/// state afterwards: the first draw below 3 chooses a single item (0), the
/// home board's items (1) or a task page (2); for a single item, a second
/// draw below 2 chooses the contended set (0) or the pool (1), skipped
/// while the pool is empty; a last draw picks the index.
pub open spec fn read_plan_spec(state: u64, pool_len: usize, collisions: usize) -> (ReadPlan, u64) {
    let s1 = xorshift(state);
    let kind = draw(state, 3);
    if kind == 0 {
        if pool_len == 0 {
            (ReadPlan::Collision(draw(s1, collisions as u64) as usize), xorshift(s1))
        } else {
            let s2 = xorshift(s1);
            if draw(s1, 2) == 0 {
                (ReadPlan::Collision(draw(s2, collisions as u64) as usize), xorshift(s2))
            } else {
                (ReadPlan::Pool(draw(s2, pool_len as u64) as usize), xorshift(s2))
            }
        }
    } else if kind == 1 {
        (ReadPlan::BoardItems, s1)
    } else {
        (ReadPlan::ListTasks, s1)
    }
}

/// Plan a read: a third each fetch one item, the home board's items, or a
/// task page; a single item comes from the contended set half the time
/// (always, while the pool is empty). Every index is in range.
pub fn plan_read(rng: &mut SmallRng, pool_len: usize, collisions: usize) -> (p: ReadPlan)
    requires
        collisions > 0,
    ensures
        (p, final(rng).state()) == read_plan_spec(old(rng).state(), pool_len, collisions),
        match p {
            ReadPlan::Collision(i) => i < collisions,
            ReadPlan::Pool(i) => i < pool_len,
            _ => true,
        },
{
    match rng.below(3) {
        0 => {
            if pool_len == 0 || rng.below(2) == 0 {
                ReadPlan::Collision(rng.below(collisions as u64) as usize)
            } else {
                ReadPlan::Pool(rng.below(pool_len as u64) as usize)
            }
        },
        1 => ReadPlan::BoardItems,
        _ => ReadPlan::ListTasks,
    }
}

} // verus!
