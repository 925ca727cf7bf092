//! A timing wheel: a fixed ring of buckets, advanced one bucket per tick,
//! that hands back the values whose delay has run out.
use vstd::prelude::*;

verus! {

/// Number of buckets of a wheel made by `default`.
pub const MAX_TICKS: usize = 60;

/// A value waiting in a bucket, with the number of full laps left before it
/// becomes due.
#[derive(PartialEq, Debug)]
pub struct Slotted<T> {
    pub val: T,
    pub counter: usize,
}

/// A ring of buckets and the bucket the wheel stands on. A value added with a
/// delay of `d` ticks is returned by the `d`-th following `tick`, whatever `d`
/// is next to the number of buckets.
pub struct TimingWheel<T> {
    current_tick: usize,
    slots: Vec<Vec<Slotted<T>>>,
}

/// The bucket that a value added with `delay` at position `pos` goes to.
pub open spec fn slot_for(n: nat, pos: nat, delay: nat) -> nat
    recommends
        n > 0,
{
    (pos + delay) % n
}

/// The lap counter that a value added with `delay` starts with: whole laps of
/// the delay, one less when the delay is a non-zero multiple of `n`.
pub open spec fn laps_for(n: nat, delay: nat) -> nat
    recommends
        n > 0,
{
    if delay > 0 && delay % n == 0 {
        (delay / n - 1) as nat
    } else {
        delay / n
    }
}

/// The position after one tick.
pub open spec fn next_pos(n: nat, pos: nat) -> nat {
    if pos + 1 >= n {
        0
    } else {
        pos + 1
    }
}

/// The buckets after adding `val` with `delay` at position `pos`.
pub open spec fn added<T>(buckets: Seq<Seq<Slotted<T>>>, pos: nat, val: T, delay: nat) -> Seq<
    Seq<Slotted<T>>,
> {
    let n = buckets.len();
    let b = slot_for(n, pos, delay) as int;
    buckets.update(b, buckets[b].push(Slotted { val, counter: laps_for(n, delay) as usize }))
}

/// The values of the entries of `s` whose lap counter is zero, the last such
/// entry first.
pub open spec fn fired<T>(s: Seq<Slotted<T>>) -> Seq<T>
    decreases s.len(),
{
    if s.len() == 0 {
        seq![]
    } else {
        let rest = fired(s.drop_first());
        if s[0].counter == 0 {
            rest.push(s[0].val)
        } else {
            rest
        }
    }
}

/// The entries of `s` whose lap counter is not zero, in their order, each
/// with one lap fewer.
pub open spec fn kept<T>(s: Seq<Slotted<T>>) -> Seq<Slotted<T>>
    decreases s.len(),
{
    if s.len() == 0 {
        seq![]
    } else {
        let rest = kept(s.drop_first());
        if s[0].counter == 0 {
            rest
        } else {
            seq![Slotted { val: s[0].val, counter: (s[0].counter - 1) as usize }] + rest
        }
    }
}

impl<T> TimingWheel<T> {
    /// The position of the wheel.
    pub closed spec fn position(&self) -> nat {
        self.current_tick as nat
    }

    /// The contents of each bucket.
    pub closed spec fn buckets(&self) -> Seq<Seq<Slotted<T>>> {
        self.slots@.map_values(|b: Vec<Slotted<T>>| b@)
    }

    /// At least one bucket, and the position names one of them.
    pub open spec fn wf(&self) -> bool {
        &&& self.buckets().len() > 0
        &&& self.position() < self.buckets().len()
    }

    /// Places `t` in the bucket `seconds_from_now` ticks ahead of the current
    /// position, with the laps that remain before it is due.
    pub fn add(&mut self, t: T, seconds_from_now: usize)
        requires
            old(self).wf(),
        ensures
            final(self).wf(),
            final(self).position() == old(self).position(),
            final(self).buckets() == added(
                old(self).buckets(),
                old(self).position(),
                t,
                seconds_from_now as nat,
            ),
    {
        let n = self.slots.len();
        let cur = self.current_tick;
        let rem = seconds_from_now % n;
        let index: usize = if rem >= n - cur {
            rem - (n - cur)
        } else {
            cur + rem
        };
        let mut counter: usize = seconds_from_now / n;
        if rem == 0 && seconds_from_now > 0 {
            counter = counter - 1;
        }
        proof {
            let d = seconds_from_now as int;
            vstd::arithmetic::div_mod::lemma_fundamental_div_mod(d, n as int);
            vstd::arithmetic::div_mod::lemma_add_mod_noop(cur as int, d, n as int);
            vstd::arithmetic::div_mod::lemma_small_mod(cur as nat, n as nat);
            if rem < n - cur {
                vstd::arithmetic::div_mod::lemma_small_mod((cur + rem) as nat, n as nat);
            } else {
                vstd::arithmetic::div_mod::lemma_mod_add_multiples_vanish(cur as int + rem - n, n as int);
                vstd::arithmetic::div_mod::lemma_small_mod((cur + rem - n) as nat, n as nat);
            }
        }
        let mut bucket: Vec<Slotted<T>> = Vec::new();
        std::mem::swap(&mut bucket, &mut self.slots[index]);
        bucket.push(Slotted { val: t, counter });
        std::mem::swap(&mut bucket, &mut self.slots[index]);
        assert(self.buckets() =~= added(
            old(self).buckets(),
            old(self).position(),
            t,
            seconds_from_now as nat,
        ));
    }

    /// Advances the wheel by one bucket and visits only that bucket: entries
    /// with laps left lose one lap and stay, the others leave and their values
    /// are returned, the last visited first.
    pub fn tick(&mut self) -> (r: Vec<T>)
        requires
            old(self).wf(),
        ensures
            final(self).wf(),
            final(self).position() == next_pos(old(self).buckets().len(), old(self).position()),
            r@ == fired(old(self).buckets()[final(self).position() as int]),
            final(self).buckets() == old(self).buckets().update(
                final(self).position() as int,
                kept(old(self).buckets()[final(self).position() as int]),
            ),
            old(self).buckets()[final(self).position() as int].len() == 0 ==> r@.len() == 0,
    {
        let n = self.slots.len();
        if self.current_tick == n - 1 {
            self.current_tick = 0;
        } else {
            self.current_tick = self.current_tick + 1;
        }
        let cur = self.current_tick;
        let mut bucket: Vec<Slotted<T>> = Vec::new();
        std::mem::swap(&mut bucket, &mut self.slots[cur]);
        let ghost s = bucket@;
        let mut done: Vec<T> = Vec::new();
        let mut i: usize = bucket.len();
        while i > 0
            invariant
                i <= s.len(),
                bucket@ == s.take(i as int) + kept(s.skip(i as int)),
                done@ == fired(s.skip(i as int)),
            decreases i,
        {
            i = i - 1;
            proof {
                assert(s.skip(i as int).drop_first() =~= s.skip(i + 1));
                assert(s.skip(i as int)[0] == s[i as int]);
            }
            let e = bucket.remove(i);
            if e.counter == 0 {
                done.push(e.val);
            } else {
                bucket.insert(i, Slotted { val: e.val, counter: e.counter - 1 });
            }
            assert(bucket@ =~= s.take(i as int) + kept(s.skip(i as int)));
        }
        assert(s.skip(0) =~= s);
        assert(s.take(0) + kept(s) =~= kept(s));
        std::mem::swap(&mut bucket, &mut self.slots[cur]);
        assert(self.buckets() =~= old(self).buckets().update(cur as int, kept(s)));
        done
    }
}

/// Ticks from position `pos` until the wheel next stands on bucket `b`:
/// between 1 and `n`.
pub open spec fn offset(n: nat, pos: nat, b: nat) -> nat {
    if b > pos {
        (b - pos) as nat
    } else {
        (b + n - pos) as nat
    }
}

/// The number of ticks after which an entry of bucket `b` with `laps` laps
/// left is returned, the wheel standing at `pos`.
pub open spec fn countdown(n: nat, pos: nat, b: nat, laps: nat) -> nat {
    offset(n, pos, b) + laps * n
}

/// A value added with delay `d > 0` is due after exactly `d` ticks; with
/// delay 0 it is due after one full lap of `n` ticks.
pub proof fn lemma_add_fires_after_delay(n: nat, pos: nat, d: nat)
    requires
        n > 0,
        pos < n,
    ensures
        countdown(n, pos, slot_for(n, pos, d), laps_for(n, d)) == if d == 0 {
            n
        } else {
            d
        },
{
    let q = d / n;
    let r = d % n;
    vstd::arithmetic::div_mod::lemma_fundamental_div_mod(d as int, n as int);
    vstd::arithmetic::div_mod::lemma_add_mod_noop(pos as int, d as int, n as int);
    vstd::arithmetic::div_mod::lemma_small_mod(pos, n);
    vstd::arithmetic::div_mod::lemma_small_mod(r, n);
    if pos + r < n {
        vstd::arithmetic::div_mod::lemma_small_mod(pos + r, n);
    } else {
        vstd::arithmetic::div_mod::lemma_mod_add_multiples_vanish(pos + r - n, n as int);
        vstd::arithmetic::div_mod::lemma_small_mod((pos + r - n) as nat, n);
    }
    assert(q * n == n * q) by (nonlinear_arith);
    if d > 0 && r == 0 {
        assert(q >= 1) by (nonlinear_arith)
            requires
                d == n * q,
                d > 0,
                n > 0,
        ;
        assert(((q - 1) as nat) * n == q * n - n) by (nonlinear_arith)
            requires
                q >= 1,
        ;
    }
}

/// One tick brings every entry one tick closer: an entry is returned by the
/// tick exactly when its countdown is 1, and every entry that stays (in
/// another bucket, or in the visited one with a lap taken off) has a countdown
/// one less than before.
pub proof fn lemma_tick_counts_down(n: nat, pos: nat, b: nat, laps: nat)
    requires
        n > 0,
        pos < n,
        b < n,
    ensures
        countdown(n, pos, b, laps) >= 1,
        (b == next_pos(n, pos) && laps == 0) <==> countdown(n, pos, b, laps) == 1,
        b != next_pos(n, pos) ==> countdown(n, next_pos(n, pos), b, laps) + 1 == countdown(
            n,
            pos,
            b,
            laps,
        ),
        b == next_pos(n, pos) && laps > 0 ==> countdown(n, next_pos(n, pos), b, (laps - 1) as nat)
            + 1 == countdown(n, pos, b, laps),
{
    assert(laps * n >= 0) by (nonlinear_arith);
    if laps > 0 {
        assert(laps * n >= n) by (nonlinear_arith)
            requires
                laps > 0,
        ;
        assert(((laps - 1) as nat) * n == laps * n - n) by (nonlinear_arith)
            requires
                laps > 0,
        ;
    }
}

/// Re-adding a value with interval `k > 0` at the position where it fired keeps
/// a stable period: fired at position `pos + j*k`, it is due again after exactly
/// `k` ticks, at position `pos + (j+1)*k` (all modulo `n`).
pub proof fn lemma_rearm_keeps_period(n: nat, pos: nat, k: nat, j: nat)
    requires
        n > 0,
        pos < n,
        k > 0,
    ensures
        countdown(n, (pos + j * k) % n, slot_for(n, (pos + j * k) % n, k), laps_for(n, k)) == k,
        slot_for(n, (pos + j * k) % n, k) == (pos + (j + 1) * k) % n,
{
    let p = (pos + j * k) % n;
    vstd::arithmetic::div_mod::lemma_mod_bound((pos + j * k) as int, n as int);
    lemma_add_fires_after_delay(n, p, k);
    assert((j + 1) * k == j * k + k) by (nonlinear_arith);
    vstd::arithmetic::div_mod::lemma_add_mod_noop((pos + j * k) as int, k as int, n as int);
    vstd::arithmetic::div_mod::lemma_add_mod_noop(p as int, k as int, n as int);
    vstd::arithmetic::div_mod::lemma_mod_twice((pos + j * k) as int, n as int);
}

/// Where the wheel stands, and how many laps an entry of bucket `b` has left,
/// after `j` ticks from position `pos` with `laps` laps left, while the entry
/// stays in the wheel.
pub open spec fn after_ticks(n: nat, pos: nat, b: nat, laps: nat, j: nat) -> (nat, nat)
    decreases j,
{
    if j == 0 {
        (pos, laps)
    } else {
        let (p, l) = after_ticks(n, pos, b, laps, (j - 1) as nat);
        let p2 = next_pos(n, p);
        if b == p2 && l > 0 {
            (p2, (l - 1) as nat)
        } else {
            (p2, l)
        }
    }
}

/// Whether the `j`-th tick (counting from 1) returns an entry of bucket `b`
/// with `laps` laps left, the wheel standing at `pos` before the first tick.
pub open spec fn fires_on(n: nat, pos: nat, b: nat, laps: nat, j: nat) -> bool {
    let (p, l) = after_ticks(n, pos, b, laps, (j - 1) as nat);
    b == next_pos(n, p) && l == 0
}

proof fn lemma_after_ticks_countdown(n: nat, pos: nat, b: nat, laps: nat, j: nat)
    requires
        n > 0,
        pos < n,
        b < n,
        j < countdown(n, pos, b, laps),
    ensures
        after_ticks(n, pos, b, laps, j).0 < n,
        countdown(n, after_ticks(n, pos, b, laps, j).0, b, after_ticks(n, pos, b, laps, j).1) + j
            == countdown(n, pos, b, laps),
    decreases j,
{
    if j > 0 {
        lemma_after_ticks_countdown(n, pos, b, laps, (j - 1) as nat);
        let (p, l) = after_ticks(n, pos, b, laps, (j - 1) as nat);
        lemma_tick_counts_down(n, p, b, l);
    }
}

/// A value added with delay `d > 0` is returned by the `d`-th tick after the
/// `add`, and by none of the ticks before it (after it, it has left the wheel).
pub proof fn lemma_added_value_fires_exactly_after_delay(n: nat, pos: nat, d: nat, j: nat)
    requires
        n > 0,
        pos < n,
        d > 0,
        1 <= j <= d,
    ensures
        fires_on(n, pos, slot_for(n, pos, d), laps_for(n, d), j) <==> j == d,
{
    let b = slot_for(n, pos, d);
    let laps = laps_for(n, d);
    vstd::arithmetic::div_mod::lemma_mod_bound((pos + d) as int, n as int);
    lemma_add_fires_after_delay(n, pos, d);
    lemma_after_ticks_countdown(n, pos, b, laps, (j - 1) as nat);
    let (p, l) = after_ticks(n, pos, b, laps, (j - 1) as nat);
    lemma_tick_counts_down(n, p, b, l);
}

impl<T> TimingWheel<T> {
    /// A wheel of `buckets` empty buckets at position 0.
    pub fn with_buckets(buckets: usize) -> (r: Self)
        requires
            buckets > 0,
        ensures
            r.wf(),
            r.position() == 0,
            r.buckets() == Seq::new(buckets as nat, |i: int| Seq::<Slotted<T>>::empty()),
    {
        let mut slots: Vec<Vec<Slotted<T>>> = Vec::new();
        let mut i: usize = 0;
        while i < buckets
            invariant
                i <= buckets,
                slots@.len() == i,
                forall|j: int| 0 <= j < i ==> (#[trigger] slots@[j])@.len() == 0,
            decreases buckets - i,
        {
            slots.push(Vec::new());
            i = i + 1;
        }
        let r = TimingWheel { current_tick: 0, slots };
        assert forall|j: int| 0 <= j < buckets implies #[trigger] r.buckets()[j] =~= Seq::<
            Slotted<T>,
        >::empty() by {
            assert(r.buckets()[j] == slots@[j]@);
        }
        assert(r.buckets() =~= Seq::new(buckets as nat, |i: int| Seq::<Slotted<T>>::empty()));
        r
    }

    /// The current position.
    pub fn current_tick(&self) -> (r: usize)
        ensures
            r == self.position(),
    {
        self.current_tick
    }

    /// The number of buckets.
    pub fn bucket_count(&self) -> (r: usize)
        ensures
            r == self.buckets().len(),
    {
        self.slots.len()
    }

    /// The entries waiting in bucket `i`, in the order they were added.
    pub fn slot(&self, i: usize) -> (r: &Vec<Slotted<T>>)
        requires
            i < self.buckets().len(),
        ensures
            r@ == self.buckets()[i as int],
    {
        &self.slots[i]
    }
}

impl<T> Default for TimingWheel<T> {
    /// A wheel of `MAX_TICKS` empty buckets at position 0.
    fn default() -> (r: Self)
        ensures
            r.wf(),
            r.position() == 0,
            r.buckets() == Seq::new(MAX_TICKS as nat, |i: int| Seq::<Slotted<T>>::empty()),
    {
        Self::with_buckets(MAX_TICKS)
    }
}

} // verus!
