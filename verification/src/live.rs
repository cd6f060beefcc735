//! Live board updates over `/ws/events`: the reconnect backoff, the
//! connection URL, the subscribe message, and the connection's decisions
//! as a state machine (the socket itself lives with the caller).

use vstd::prelude::*;
use crate::text::{push_char, push_str, str_eq};

verus! {

/// First reconnect delay (milliseconds).
pub const BACKOFF_INITIAL_MS: u64 = 1_000;

/// Reconnect delay cap (milliseconds).
pub const BACKOFF_MAX_MS: u64 = 15_000;

/// The reconnect delay after `attempt` consecutive failures: doubling from
/// one second, capped at fifteen.
pub open spec fn backoff_spec(attempt: u32) -> u64 {
    if attempt == 0 {
        1_000
    } else if attempt == 1 {
        2_000
    } else if attempt == 2 {
        4_000
    } else if attempt == 3 {
        8_000
    } else {
        15_000
    }
}

/// The reconnect delay after `attempt` consecutive failures
/// (`(1000 << min(attempt, 4)).min(15000)`).
pub fn backoff_delay_ms(attempt: u32) -> (d: u64)
    ensures
        d == backoff_spec(attempt),
        BACKOFF_INITIAL_MS <= d <= BACKOFF_MAX_MS,
{
    let shift: u32 = if attempt < 4 {
        attempt
    } else {
        4
    };
    let raw: u64 = BACKOFF_INITIAL_MS << shift;
    assert(shift == 0 ==> raw == 1000) by (bit_vector)
        requires
            raw == 1000u64 << shift,
    ;
    assert(shift == 1 ==> raw == 2000) by (bit_vector)
        requires
            raw == 1000u64 << shift,
    ;
    assert(shift == 2 ==> raw == 4000) by (bit_vector)
        requires
            raw == 1000u64 << shift,
    ;
    assert(shift == 3 ==> raw == 8000) by (bit_vector)
        requires
            raw == 1000u64 << shift,
    ;
    assert(shift == 4 ==> raw == 16000) by (bit_vector)
        requires
            raw == 1000u64 << shift,
    ;
    if raw < BACKOFF_MAX_MS {
        raw
    } else {
        BACKOFF_MAX_MS
    }
}

/// The events URL for the page's origin: `wss` under `https:`, `ws`
/// otherwise; the token travels as the `access_token` query parameter.
pub open spec fn events_url_spec(protocol: Seq<char>, host: Seq<char>, token: Seq<char>) -> Seq<
    char,
> {
    (if protocol == "https:"@ {
        "wss"@
    } else {
        "ws"@
    }) + "://"@ + host + "/ws/events?access_token="@ + token
}

/// The `ws(s)://{host}/ws/events?access_token={token}` URL for a page
/// served over `protocol` from `host`.
pub fn events_url_for(protocol: &str, host: &str, token: &str) -> (r: String)
    ensures
        r@ == events_url_spec(protocol@, host@, token@),
{
    let mut r = String::new();
    if str_eq(protocol, "https:") {
        push_str(&mut r, "wss");
    } else {
        push_str(&mut r, "ws");
    }
    push_str(&mut r, "://");
    push_str(&mut r, host);
    push_str(&mut r, "/ws/events?access_token=");
    push_str(&mut r, token);
    r
}

/// The hexadecimal digit of `d < 16` (lower case).
pub open spec fn hex_digit(d: nat) -> char {
    if d < 10 {
        (('0' as u32) + d) as char
    } else {
        (('a' as u32) + d - 10) as char
    }
}

/// One character as it appears inside a JSON string.
pub open spec fn json_char(c: char) -> Seq<char> {
    if c == '"' {
        seq!['\\', '"']
    } else if c == '\\' {
        seq!['\\', '\\']
    } else if c == '\n' {
        seq!['\\', 'n']
    } else if c == '\r' {
        seq!['\\', 'r']
    } else if c == '\t' {
        seq!['\\', 't']
    } else if c == '\u{8}' {
        seq!['\\', 'b']
    } else if c == '\u{c}' {
        seq!['\\', 'f']
    } else if (c as u32) < 0x20 {
        seq!['\\', 'u', '0', '0', hex_digit((c as u32 / 16) as nat), hex_digit((c as u32 % 16) as nat)]
    } else {
        seq![c]
    }
}

/// The body of a JSON string holding `s`.
pub open spec fn json_escaped(s: Seq<char>) -> Seq<char>
    decreases s.len(),
{
    if s.len() == 0 {
        Seq::empty()
    } else {
        json_escaped(s.drop_last()) + json_char(s.last())
    }
}

/// The exec form of `hex_digit`.
fn hex(d: u32) -> (c: char)
    requires
        d < 16,
    ensures
        c == hex_digit(d as nat),
{
    if d < 10 {
        crate::text::digit(d as u64)
    } else {
        match d {
            10 => 'a',
            11 => 'b',
            12 => 'c',
            13 => 'd',
            14 => 'e',
            _ => 'f',
        }
    }
}

/// Append the JSON string body of `s`.
pub fn push_json_escaped(out: &mut String, s: &str)
    ensures
        final(out)@ == old(out)@ + json_escaped(s@),
{
    let cs = crate::text::chars_of(s);
    let ghost start = out@;
    let mut i: usize = 0;
    assert(cs@.take(0) =~= Seq::<char>::empty());
    while i < cs.len()
        invariant
            i <= cs@.len(),
            cs@ == s@,
            out@ == start + json_escaped(cs@.take(i as int)),
        decreases cs@.len() - i,
    {
        let c = cs[i];
        let ghost before = out@;
        if c == '"' {
            push_str(out, "\\\"");
        } else if c == '\\' {
            push_str(out, "\\\\");
        } else if c == '\n' {
            push_str(out, "\\n");
        } else if c == '\r' {
            push_str(out, "\\r");
        } else if c == '\t' {
            push_str(out, "\\t");
        } else if c == '\u{8}' {
            push_str(out, "\\b");
        } else if c == '\u{c}' {
            push_str(out, "\\f");
        } else if (c as u32) < 0x20 {
            push_str(out, "\\u00");
            push_char(out, hex((c as u32) / 16));
            push_char(out, hex((c as u32) % 16));
        } else {
            push_char(out, c);
        }
        proof {
            reveal_strlit("\\\"");
            reveal_strlit("\\\\");
            reveal_strlit("\\n");
            reveal_strlit("\\r");
            reveal_strlit("\\t");
            reveal_strlit("\\b");
            reveal_strlit("\\f");
            reveal_strlit("\\u00");
            assert(cs@.take(i + 1).drop_last() =~= cs@.take(i as int));
            assert(cs@.take(i + 1).last() == c);
            assert(out@ =~= before + json_char(c));
        }
        i = i + 1;
    }
    assert(cs@.take(cs@.len() as int) =~= cs@);
}

/// The subscribe message sent on open: filtered to one board, or the
/// whole tenant stream.
pub open spec fn subscribe_spec(board_id: Option<Seq<char>>) -> Seq<char> {
    match board_id {
        Some(id) => "{\"subscribe\":{\"board_id\":\""@ + json_escaped(id) + "\"}}"@,
        None => "{\"subscribe\":{}}"@,
    }
}

/// The subscribe message for `board_id` (`None`: the whole stream).
pub fn subscribe_message(board_id: Option<&str>) -> (r: String)
    ensures
        r@ == subscribe_spec(
            match board_id {
                Some(id) => Some(id@),
                None => None,
            },
        ),
{
    let mut r = String::new();
    match board_id {
        Some(id) => {
            push_str(&mut r, "{\"subscribe\":{\"board_id\":\"");
            push_json_escaped(&mut r, id);
            push_str(&mut r, "\"}}");
        },
        None => {
            push_str(&mut r, "{\"subscribe\":{}}");
        },
    }
    r
}

/// The connection's bookkeeping between socket callbacks.
pub struct LiveState {
    /// The guard dropped: no further reconnects, handlers inert.
    pub closed: bool,
    /// Consecutive failed or closed connections.
    pub attempts: u32,
    /// Some connection ever opened.
    pub ever_opened: bool,
}

/// What to do when a socket opens.
pub struct OnOpen {
    /// Send the subscribe message.
    pub subscribe: bool,
    /// Re-fetch once to reconcile what a reconnect missed.
    pub reconcile: bool,
}

/// `attempts + 1`, saturating at `u32::MAX`.
pub open spec fn sat_inc(a: u32) -> u32 {
    if a == u32::MAX {
        a
    } else {
        (a + 1) as u32
    }
}

/// What can happen to a connection between socket callbacks.
pub enum LiveOp {
    /// A socket opened.
    Open,
    /// A socket closed or could not be opened; a reconnect is scheduled.
    Reconnect,
    /// The guard dropped.
    Close,
}

/// The bookkeeping after `op`. Once closed, nothing but `Close` applies,
/// and that leaves it as it is.
pub open spec fn step(s: LiveState, op: LiveOp) -> LiveState {
    match op {
        LiveOp::Open => if s.closed {
            s
        } else {
            LiveState { closed: false, attempts: 0, ever_opened: true }
        },
        LiveOp::Reconnect => if s.closed {
            s
        } else {
            LiveState { closed: false, attempts: sat_inc(s.attempts), ever_opened: s.ever_opened }
        },
        LiveOp::Close => LiveState { closed: true, attempts: s.attempts, ever_opened: s.ever_opened },
    }
}

/// The bookkeeping after `ops`, in order, starting from `s`.
pub open spec fn run_ops(s: LiveState, ops: Seq<LiveOp>) -> LiveState
    decreases ops.len(),
{
    if ops.len() == 0 {
        s
    } else {
        step(run_ops(s, ops.drop_last()), ops.last())
    }
}

/// Some socket opened during `ops` while the connection was live.
pub open spec fn opened_during(s: LiveState, ops: Seq<LiveOp>) -> bool {
    exists|j: int|
        0 <= j < ops.len() && #[trigger] ops[j] == LiveOp::Open && !run_ops(s, ops.take(j)).closed
}

impl LiveState {
    /// A fresh connection state.
    pub fn new() -> (s: LiveState)
        ensures
            !s.closed && s.attempts == 0 && !s.ever_opened,
    {
        LiveState { closed: false, attempts: 0, ever_opened: false }
    }

    /// A socket opened: reset the backoff; subscribe; reconcile when this
    /// is a re-open. Inert once closed.
    pub fn on_open(&mut self) -> (r: OnOpen)
        ensures
            *final(self) == step(*old(self), LiveOp::Open),
            r.subscribe == !old(self).closed,
            r.reconcile == (!old(self).closed && old(self).ever_opened),
    {
        if self.closed {
            return OnOpen { subscribe: false, reconcile: false };
        }
        self.attempts = 0;
        let reopened = self.ever_opened;
        self.ever_opened = true;
        OnOpen { subscribe: true, reconcile: reopened }
    }

    /// An event arrived: re-fetch when it parses as an event and the
    /// connection is live.
    pub fn on_message(&self, is_event: bool) -> (refetch: bool)
        ensures
            refetch == (!self.closed && is_event),
    {
        !self.closed && is_event
    }

    /// The connection closed or could not be opened: the delay before the
    /// next attempt (`None` once closed), counting the attempt.
    pub fn schedule_reconnect(&mut self) -> (delay: Option<u64>)
        ensures
            *final(self) == step(*old(self), LiveOp::Reconnect),
            delay == if old(self).closed {
                None
            } else {
                Some(backoff_spec(old(self).attempts))
            },
    {
        if self.closed {
            return None;
        }
        let attempt = self.attempts;
        self.attempts = attempt.saturating_add(1);
        Some(backoff_delay_ms(attempt))
    }

    /// The guard dropped: stop for good.
    pub fn close(&mut self)
        ensures
            *final(self) == step(*old(self), LiveOp::Close),
    {
        self.closed = true;
    }
}

/// The reconnect delay doubles from one second with each consecutive
/// failure until it reaches the fifteen-second cap, and never shrinks as
/// failures accumulate.
pub proof fn law_backoff_doubles_then_caps(a: u32, b: u32)
    ensures
        backoff_spec(0) == 1_000,
        a < u32::MAX ==> backoff_spec((a + 1) as u32) == if 2 * backoff_spec(a) < 15_000 {
            2 * backoff_spec(a)
        } else {
            15_000
        },
        a <= b ==> backoff_spec(a) <= backoff_spec(b),
        1_000 <= backoff_spec(a) <= 15_000,
{
}

proof fn lemma_closed_is_fixed(s: LiveState, ops: Seq<LiveOp>)
    requires
        s.closed,
    ensures
        run_ops(s, ops) == s,
    decreases ops.len(),
{
    if ops.len() > 0 {
        lemma_closed_is_fixed(s, ops.drop_last());
    }
}

/// Once the guard has dropped, nothing that happens to the connection
/// changes its bookkeeping: it stays closed, so it never reconnects,
/// subscribes or re-fetches again.
pub proof fn law_dropped_connection_stays_inert(s: LiveState, ops: Seq<LiveOp>)
    requires
        s.closed,
    ensures
        forall|k: int| 0 <= k <= ops.len() ==> #[trigger] run_ops(s, ops.take(k)) == s,
{
    assert forall|k: int| 0 <= k <= ops.len() implies #[trigger] run_ops(s, ops.take(k)) == s by {
        lemma_closed_is_fixed(s, ops.take(k));
    }
}

proof fn lemma_opened_during_last(s: LiveState, ops: Seq<LiveOp>)
    requires
        ops.len() > 0,
    ensures
        opened_during(s, ops) == (opened_during(s, ops.drop_last()) || (ops.last() == LiveOp::Open
            && !run_ops(s, ops.drop_last()).closed)),
{
    let init = ops.drop_last();
    let n = init.len() as int;
    if opened_during(s, init) {
        let j = choose|j: int|
            0 <= j < init.len() && #[trigger] init[j] == LiveOp::Open && !run_ops(s, init.take(j)).closed;
        assert(init.take(j) =~= ops.take(j));
        assert(ops[j] == LiveOp::Open);
    }
    if ops.last() == LiveOp::Open && !run_ops(s, init).closed {
        assert(ops.take(n) =~= init);
        assert(ops[n] == LiveOp::Open);
    }
    if opened_during(s, ops) {
        let j = choose|j: int|
            0 <= j < ops.len() && #[trigger] ops[j] == LiveOp::Open && !run_ops(s, ops.take(j)).closed;
        if j < n {
            assert(init.take(j) =~= ops.take(j));
            assert(init[j] == LiveOp::Open);
        } else {
            assert(ops.take(j) =~= init);
        }
    }
}

/// A connection counts as having opened exactly when it had before, or a
/// socket opened while it was live: so the first open never reconciles
/// and every later live open does.
pub proof fn law_reconcile_only_on_reopen(s: LiveState, ops: Seq<LiveOp>)
    ensures
        run_ops(s, ops).ever_opened == (s.ever_opened || opened_during(s, ops)),
    decreases ops.len(),
{
    if ops.len() > 0 {
        law_reconcile_only_on_reopen(s, ops.drop_last());
        lemma_opened_during_last(s, ops);
    } else {
        assert(!opened_during(s, ops));
    }
}

} // verus!
