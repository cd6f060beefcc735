//! A tiny deterministic xorshift64* generator for op-mix selection, and the
//! weighted choice of the next operation.

use vstd::prelude::*;
use crate::config::{OpMix, mix_total};
use crate::stats::OpClass;

verus! {

/// One xorshift64 state transition.
pub open spec fn xorshift(x: u64) -> u64 {
    let a = x ^ (x >> 12u64);
    let b = a ^ ((a << 25u64) as u64);
    b ^ (b >> 27u64)
}

/// The output for a post-transition state (the `*` of xorshift64*).
pub open spec fn scramble(x: u64) -> u64 {
    ((x as int * 0x2545_F491_4F6C_DD1Dint) % 0x1_0000_0000_0000_0000int) as u64
}

/// The transition never reaches the absorbing all-zero state from a
/// non-zero one.
pub proof fn law_xorshift_keeps_state_nonzero(x: u64)
    requires
        x != 0,
    ensures
        xorshift(x) != 0,
{
    let a = x ^ (x >> 12u64);
    assert(x != 0 ==> (x ^ (x >> 12u64)) != 0) by (bit_vector);
    assert(a != 0 ==> (a ^ ((a << 25u64) as u64)) != 0) by (bit_vector);
    let b = a ^ ((a << 25u64) as u64);
    assert(b != 0 ==> (b ^ (b >> 27u64)) != 0) by (bit_vector);
}

/// A deterministic xorshift64* generator; its state is never zero.
pub struct SmallRng(u64);

impl SmallRng {
    /// The current state.
    pub closed spec fn state(&self) -> u64 {
        self.0
    }

    /// A generator seeded with `seed` (a zero seed counts as 1).
    pub fn new(seed: u64) -> (r: SmallRng)
        ensures
            r.state() == if seed == 0 {
                1
            } else {
                seed
            },
    {
        SmallRng(if seed > 1 { seed } else { 1 })
    }

    /// Advance the state and return the next output.
    pub fn next_u64(&mut self) -> (r: u64)
        ensures
            final(self).state() == xorshift(old(self).state()),
            r == scramble(xorshift(old(self).state())),
    {
        let mut x = self.0;
        x = x ^ (x >> 12u64);
        x = x ^ (x << 25u64);
        x = x ^ (x >> 27u64);
        self.0 = x;
        let r = x.wrapping_mul(0x2545_F491_4F6C_DD1D);
        r
    }

    /// The top 53 bits of the next output: `unit_bits() / 2^53` is uniform in
    /// `[0, 1)`.
    pub fn unit_bits(&mut self) -> (r: u64)
        ensures
            final(self).state() == xorshift(old(self).state()),
            r == scramble(xorshift(old(self).state())) >> 11u64,
            r < 0x20_0000_0000_0000,
    {
        let x = self.next_u64();
        let r = x >> 11u64;
        assert(r < 0x20_0000_0000_0000) by (bit_vector)
            requires
                r == x >> 11u64,
        ;
        r
    }

    /// Uniform-ish in `0..bound` (`bound > 0`).
    pub fn below(&mut self, bound: u64) -> (r: u64)
        requires
            bound > 0,
        ensures
            final(self).state() == xorshift(old(self).state()),
            r == scramble(xorshift(old(self).state())) % bound,
            r < bound,
    {
        self.next_u64() % bound
    }
}

/// The weight of each class in table order.
pub open spec fn weights(m: OpMix) -> Seq<u32> {
    seq![m.create, m.edit, m.conflict_edit, m.transition, m.read, m.search, m.traverse, m.mcp]
}

/// The class of each table slot.
pub open spec fn table_class(i: int) -> OpClass {
    if i == 0 {
        OpClass::Create
    } else if i == 1 {
        OpClass::Edit
    } else if i == 2 {
        OpClass::ConflictEdit
    } else if i == 3 {
        OpClass::Transition
    } else if i == 4 {
        OpClass::Read
    } else if i == 5 {
        OpClass::Search
    } else if i == 6 {
        OpClass::Traverse
    } else {
        OpClass::Mcp
    }
}

/// Sum of the first `n` weights.
pub open spec fn cumulative(w: Seq<u32>, n: int) -> int
    decreases n,
{
    if n <= 0 {
        0
    } else {
        cumulative(w, n - 1) + w[n - 1]
    }
}

/// The table slot a roll lands in: the first slot whose cumulative weight
/// exceeds the roll (8 when none does).
pub open spec fn slot_for(w: Seq<u32>, roll: int, from: int) -> int
    decreases 8 - from,
{
    if from >= 8 {
        8
    } else if roll < cumulative(w, from + 1) {
        from
    } else {
        slot_for(w, roll, from + 1)
    }
}

/// The class a roll selects before pool degradation (Read if no slot).
pub open spec fn rolled_class(m: OpMix, roll: int) -> OpClass {
    let s = slot_for(weights(m), roll, 0);
    if s < 8 {
        table_class(s)
    } else {
        OpClass::Read
    }
}

/// Ops that need the worker's own pool degrade to Create while it is empty.
pub open spec fn degrade(class: OpClass, pool_empty: bool) -> OpClass {
    if pool_empty && (class == OpClass::Edit || class == OpClass::Transition) {
        OpClass::Create
    } else {
        class
    }
}

/// Weighted op selection; ops that need the worker's own pool degrade to
/// `create` until the pool has items.
pub fn choose_op(mix: &OpMix, rng: &mut SmallRng, pool_empty: bool) -> (c: OpClass)
    requires
        0 < mix_total(*mix) <= u32::MAX,
    ensures
        final(rng).state() == xorshift(old(rng).state()),
        c == degrade(
            rolled_class(*mix, (scramble(xorshift(old(rng).state())) % (mix_total(*mix) as u64)) as int),
            pool_empty,
        ),
{
    let total = mix.total();
    let roll = rng.below(total as u64) as u32;
    let ghost w = weights(*mix);
    let table: [(u32, OpClass); 8] = [
        (mix.create, OpClass::Create),
        (mix.edit, OpClass::Edit),
        (mix.conflict_edit, OpClass::ConflictEdit),
        (mix.transition, OpClass::Transition),
        (mix.read, OpClass::Read),
        (mix.search, OpClass::Search),
        (mix.traverse, OpClass::Traverse),
        (mix.mcp, OpClass::Mcp),
    ];
    proof {
        assert(cumulative(w, 8) == mix_total(*mix)) by {
            reveal_with_fuel(cumulative, 9);
        }
        assert(forall|k: int| 0 <= k < 8 ==> #[trigger] table[k].0 == w[k] && table[k].1 == table_class(k));
    }
    let mut cumul: u64 = 0;
    let mut chosen = OpClass::Read;
    let mut i: usize = 0;
    while i < 8
        invariant_except_break
            i <= 8,
            w == weights(*mix),
            forall|k: int| 0 <= k < 8 ==> #[trigger] table[k].0 == w[k] && table[k].1 == table_class(k),
            cumul == cumulative(w, i as int),
            cumulative(w, 8) == mix_total(*mix),
            cumulative(w, 8) <= u32::MAX,
            slot_for(w, roll as int, 0) == slot_for(w, roll as int, i as int),
            chosen == OpClass::Read,
        ensures
            chosen == rolled_class(*mix, roll as int),
        decreases 8 - i,
    {
        proof {
            lemma_cumulative_monotone(w, i as int + 1, 8);
            assert(w[i as int] == table[i as int].0);
            assert(table[i as int].1 == table_class(i as int));
        }
        cumul = cumul + table[i].0 as u64;
        if (roll as u64) < cumul {
            chosen = table[i].1;
            break;
        }
        i = i + 1;
    }
    if pool_empty && (chosen == OpClass::Edit || chosen == OpClass::Transition) {
        OpClass::Create
    } else {
        chosen
    }
}

proof fn lemma_cumulative_monotone(w: Seq<u32>, a: int, b: int)
    requires
        0 <= a <= b,
    ensures
        cumulative(w, a) <= cumulative(w, b),
    decreases b - a,
{
    if a < b {
        lemma_cumulative_monotone(w, a, b - 1);
    }
}

/// With a non-empty mix, every roll below the total lands in a slot whose
/// weight is positive: zero-weight classes are never chosen.
pub proof fn law_roll_lands_on_weighted_class(m: OpMix, roll: int)
    requires
        0 <= roll < mix_total(m),
    ensures
        slot_for(weights(m), roll, 0) < 8,
        weights(m)[slot_for(weights(m), roll, 0)] > 0,
{
    let w = weights(m);
    assert(cumulative(w, 8) == mix_total(m)) by {
        reveal_with_fuel(cumulative, 9);
    }
    lemma_slot_found(w, roll, 0);
}

proof fn lemma_slot_found(w: Seq<u32>, roll: int, from: int)
    requires
        0 <= from <= 8,
        w.len() == 8,
        0 <= roll,
        cumulative(w, from) <= roll < cumulative(w, 8),
    ensures
        from <= slot_for(w, roll, from) < 8,
        w[slot_for(w, roll, from)] > 0,
    decreases 8 - from,
{
    if from < 8 {
        if roll < cumulative(w, from + 1) {
        } else {
            lemma_slot_found(w, roll, from + 1);
        }
    }
}

} // verus!
