use vstd::prelude::*;

verus! {

/// `a` reduced once by `n`: the slot that follows `a` steps after a start below `n`.
pub open spec fn wrap(a: int, n: int) -> int {
    if a < n {
        a
    } else {
        a - n
    }
}

/// `n` zero samples.
pub open spec fn zeros(n: nat) -> Seq<u64> {
    Seq::new(n, |i: int| 0u64)
}

/// The most recent samples after `value` is pushed onto `recent` in a buffer
/// of `capacity` slots: the oldest sample is dropped once the buffer is full.
pub open spec fn window_push(recent: Seq<u64>, capacity: nat, value: u64) -> Seq<u64> {
    if capacity == 0 {
        recent
    } else if recent.len() < capacity {
        recent.push(value)
    } else {
        recent.drop_first().push(value)
    }
}

/// What a buffer of `capacity` slots reads out, oldest first: the recent
/// samples, then zeros for the slots never written.
pub open spec fn window(recent: Seq<u64>, capacity: nat) -> Seq<u64> {
    recent + zeros((capacity - recent.len()) as nat)
}

/// The slots of a buffer, the slot the next sample goes to, and whether
/// every slot has been written.
pub struct RingState {
    pub slots: Seq<u64>,
    pub next: nat,
    pub full: bool,
}

impl RingState {
    /// A buffer of `size` zero slots, writing first into slot 0.
    pub open spec fn fresh(size: nat) -> Self {
        RingState { slots: zeros(size), next: 0, full: false }
    }

    /// After pushing `value`: it is written into the next slot, the next slot
    /// advances by one modulo the number of slots, and the buffer is full once
    /// the position wraps to 0. Without slots nothing changes.
    pub open spec fn pushed(self, value: u64) -> Self {
        let n = self.slots.len();
        if n == 0 {
            self
        } else {
            let next = (self.next + 1) % n;
            RingState {
                slots: self.slots.update(self.next as int, value),
                next: next as nat,
                full: self.full || next == 0,
            }
        }
    }

    /// The samples held, oldest first.
    pub open spec fn recent(self) -> Seq<u64> {
        if self.full {
            Seq::new(
                self.slots.len(),
                |i: int| self.slots[wrap(self.next + i, self.slots.len() as int)],
            )
        } else {
            self.slots.take(self.next as int)
        }
    }

    /// The position lies among the slots, and slots not yet written are zero.
    pub open spec fn wf(self) -> bool {
        &&& self.slots.len() == 0 ==> self.next == 0 && !self.full
        &&& self.slots.len() > 0 ==> self.next < self.slots.len()
        &&& !self.full ==> forall|i: int|
            self.next <= i < self.slots.len() ==> #[trigger] self.slots[i] == 0
    }

    /// Pushing keeps a buffer well formed and moves its samples as
    /// `window_push` says.
    pub proof fn lemma_pushed(self, value: u64)
        requires
            self.wf(),
        ensures
            self.pushed(value).wf(),
            self.pushed(value).slots.len() == self.slots.len(),
            self.pushed(value).recent() == window_push(
                self.recent(),
                self.slots.len(),
                value,
            ),
    {
        let n = self.slots.len();
        if n > 0 {
            let cur = self.next as int;
            assert((cur + 1) % (n as int) == if cur + 1 == n { 0 } else { cur + 1 })
                by (nonlinear_arith)
                requires
                    0 <= cur < n,
            ;
            let after = self.pushed(value);
            let old_recent = self.recent();
            if self.full {
                assert(old_recent.len() == n);
                assert forall|i: int| 0 <= i < n implies #[trigger] after.recent()[i]
                    == old_recent.drop_first().push(value)[i] by {
                    if i < n - 1 {
                        assert(old_recent[i + 1] == self.slots[wrap(cur + i + 1, n as int)]);
                    }
                }
                assert(after.recent() =~= old_recent.drop_first().push(value));
            } else if after.next == 0 {
                assert(cur == n - 1);
                assert forall|i: int| 0 <= i < n implies #[trigger] after.recent()[i]
                    == old_recent.push(value)[i] by {}
                assert(after.recent() =~= old_recent.push(value));
            } else {
                assert(after.recent() =~= old_recent.push(value));
            }
        }
    }
}

/// The state after pushing each of `values` in turn.
pub open spec fn ring_pushes(state: RingState, values: Seq<u64>) -> RingState
    decreases values.len(),
{
    if values.len() == 0 {
        state
    } else {
        ring_pushes(state, values.drop_last()).pushed(values.last())
    }
}

/// The remainder of `k + 1` follows from the remainder of `k`.
proof fn lemma_mod_succ(k: int, s: int)
    requires
        k >= 0,
        s > 0,
    ensures
        (k % s + 1) % s == (k + 1) % s,
        (k + 1) % s == 0 <==> (k % s + 1 == s),
{
    vstd::arithmetic::div_mod::lemma_fundamental_div_mod(k, s);
    vstd::arithmetic::div_mod::lemma_mod_pos_bound(k, s);
    let q = k / s;
    let r = k % s;
    assert(k == q * s + r) by (nonlinear_arith)
        requires
            k == s * q + r,
    ;
    if r + 1 < s {
        vstd::arithmetic::div_mod::lemma_fundamental_div_mod_converse(k + 1, s, q, r + 1);
        vstd::arithmetic::div_mod::lemma_fundamental_div_mod_converse(r + 1, s, 0, r + 1);
    } else {
        assert((q + 1) * s == q * s + s) by (nonlinear_arith);
        vstd::arithmetic::div_mod::lemma_fundamental_div_mod_converse(k + 1, s, q + 1, 0);
        vstd::arithmetic::div_mod::lemma_fundamental_div_mod_converse(r + 1, s, 1, 0);
    }
}

/// After `n` pushes into a buffer of `size > 0` slots, the next slot is
/// `n % size`, the buffer is full exactly when `n >= size`, and it holds the
/// last `size` values pushed (all of them while fewer), oldest first.
pub proof fn lemma_ring_after_pushes(size: nat, values: Seq<u64>)
    requires
        size > 0,
    ensures
        ({
            let st = ring_pushes(RingState::fresh(size), values);
            &&& st.wf()
            &&& st.slots.len() == size
            &&& st.next == values.len() % size
            &&& st.full == (values.len() >= size)
            &&& st.recent() == pushed_all(Seq::empty(), size, values)
        }),
    decreases values.len(),
{
    let n = values.len() as int;
    let s = size as int;
    if values.len() == 0 {
        assert(0int % s == 0) by (nonlinear_arith)
            requires
                s > 0,
        ;
        assert(RingState::fresh(size).recent() =~= Seq::<u64>::empty());
    } else {
        let prev = values.drop_last();
        lemma_ring_after_pushes(size, prev);
        let st0 = ring_pushes(RingState::fresh(size), prev);
        st0.lemma_pushed(values.last());
        lemma_mod_succ(n - 1, s);
        vstd::arithmetic::div_mod::lemma_fundamental_div_mod(n - 1, s);
        if n - 1 < s {
            vstd::arithmetic::div_mod::lemma_fundamental_div_mod_converse(n - 1, s, 0, n - 1);
        }
    }
}

/// A buffer without slots ignores every push.
pub proof fn lemma_ring_without_slots(values: Seq<u64>)
    ensures
        ring_pushes(RingState::fresh(0), values) == RingState::fresh(0),
    decreases values.len(),
{
    if values.len() > 0 {
        lemma_ring_without_slots(values.drop_last());
    }
}

/// A fixed-capacity buffer of samples that overwrites the oldest one when full.
pub struct RingBuffer {
    data: Vec<u64>,
    index: usize,
    filled: bool,
}

impl RingBuffer {
    /// The slots, the next slot and the fill flag.
    pub closed spec fn state(&self) -> RingState {
        RingState { slots: self.data@, next: self.index as nat, full: self.filled }
    }

    /// Number of slots.
    pub closed spec fn capacity(&self) -> nat {
        self.data@.len()
    }

    /// The samples still held, oldest first (at most `capacity` of them).
    pub closed spec fn recent(&self) -> Seq<u64> {
        self.state().recent()
    }

    /// Internal consistency of the slots, the write position and the fill flag.
    pub closed spec fn wf(&self) -> bool {
        self.state().wf()
    }

    /// A well-formed buffer holds no more samples than it has slots.
    pub proof fn lemma_recent_fits(&self)
        requires
            self.wf(),
        ensures
            self.recent().len() <= self.capacity(),
    {
    }

    /// An empty buffer of `size` slots, all zero.
    pub fn new(size: usize) -> (r: Self)
        ensures
            r.wf(),
            r.capacity() == size,
            r.state() == RingState::fresh(size as nat),
            r.recent() == Seq::<u64>::empty(),
    {
        let data: Vec<u64> = vec![0; size];
        let r = RingBuffer { data, index: 0, filled: false };
        assert(r.state().slots =~= zeros(size as nat));
        assert(r.recent() =~= Seq::<u64>::empty());
        r
    }

    /// Writes `value` into the next slot, advances the slot by one modulo the
    /// capacity and marks the buffer full once it wraps, so the oldest sample
    /// is overwritten once full. A buffer without slots ignores the value.
    pub fn push(&mut self, value: u64)
        requires
            old(self).wf(),
        ensures
            final(self).wf(),
            final(self).capacity() == old(self).capacity(),
            final(self).state() == old(self).state().pushed(value),
            final(self).recent() == window_push(old(self).recent(), old(self).capacity(), value),
    {
        proof {
            self.state().lemma_pushed(value);
        }
        if self.data.len() == 0 {
            return;
        }
        let n = self.data.len();
        self.data.set(self.index, value);
        self.index = (self.index + 1) % n;
        if self.index == 0 {
            self.filled = true;
        }
        assert(self.state() =~= old(self).state().pushed(value));
    }

    /// Replaces the contents of `out` with the samples oldest first, followed
    /// by zeros for the slots never written.
    pub fn write_ordered(&self, out: &mut Vec<u64>)
        requires
            self.wf(),
        ensures
            final(out)@ == window(self.recent(), self.capacity()),
            final(out)@.len() == self.capacity(),
    {
        out.clear();
        let n = self.data.len();
        if n == 0 {
            assert(out@ =~= window(self.recent(), self.capacity()));
            return;
        }
        if self.filled {
            let mut i = self.index;
            while i < n
                invariant
                    self.wf(),
                    self.filled,
                    n == self.data@.len(),
                    self.index <= i <= n,
                    out@ == self.data@.subrange(self.index as int, i as int),
                decreases n - i,
            {
                out.push(self.data[i]);
                i = i + 1;
                assert(out@ =~= self.data@.subrange(self.index as int, i as int));
            }
            let mut j: usize = 0;
            while j < self.index
                invariant
                    self.wf(),
                    n == self.data@.len(),
                    j <= self.index < n,
                    out@ == self.data@.subrange(self.index as int, n as int) + self.data@.subrange(
                        0,
                        j as int,
                    ),
                decreases self.index - j,
            {
                out.push(self.data[j]);
                j = j + 1;
                assert(out@ =~= self.data@.subrange(self.index as int, n as int)
                    + self.data@.subrange(0, j as int));
            }
            assert(out@ =~= window(self.recent(), self.capacity()));
        } else {
            let mut i: usize = 0;
            while i < n
                invariant
                    self.wf(),
                    n == self.data@.len(),
                    i <= n,
                    out@ == self.data@.subrange(0, i as int),
                decreases n - i,
            {
                out.push(self.data[i]);
                i = i + 1;
                assert(out@ =~= self.data@.subrange(0, i as int));
            }
            assert(out@ =~= window(self.recent(), self.capacity()));
        }
    }
}

/// The samples held after pushing each of `values` in turn onto `recent`.
pub open spec fn pushed_all(recent: Seq<u64>, capacity: nat, values: Seq<u64>) -> Seq<u64>
    decreases values.len(),
{
    if values.len() == 0 {
        recent
    } else {
        window_push(pushed_all(recent, capacity, values.drop_last()), capacity, values.last())
    }
}

/// A buffer keeps exactly the last `capacity` values pushed into it (all of
/// them while fewer have been pushed), oldest first.
pub proof fn lemma_keeps_latest(capacity: nat, values: Seq<u64>)
    requires
        capacity > 0,
    ensures
        pushed_all(Seq::empty(), capacity, values) == values.subrange(
            if values.len() > capacity {
                values.len() - capacity
            } else {
                0
            },
            values.len() as int,
        ),
    decreases values.len(),
{
    if values.len() > 0 {
        let prev = values.drop_last();
        lemma_keeps_latest(capacity, prev);
        let start: int = if prev.len() > capacity {
            prev.len() - capacity
        } else {
            0
        };
        let held = prev.subrange(start, prev.len() as int);
        let new_start: int = if values.len() > capacity {
            values.len() - capacity
        } else {
            0
        };
        if held.len() < capacity {
            assert(held.push(values.last()) =~= values.subrange(new_start, values.len() as int));
        } else {
            assert(held.drop_first().push(values.last()) =~= values.subrange(
                new_start,
                values.len() as int,
            ));
        }
    }
}

/// Pushing a value of at most `b` onto at most `capacity` values of at most
/// `b` keeps both bounds.
pub proof fn lemma_window_push_fits(recent: Seq<u64>, capacity: nat, value: u64, b: u64)
    ensures
        recent.len() <= capacity && value <= b && (forall|i: int|
            0 <= i < recent.len() ==> #[trigger] recent[i] <= b) ==> {
            let next = window_push(recent, capacity, value);
            &&& next.len() <= capacity
            &&& forall|i: int| 0 <= i < next.len() ==> #[trigger] next[i] <= b
        },
{
    if recent.len() <= capacity && value <= b && (forall|i: int|
        0 <= i < recent.len() ==> #[trigger] recent[i] <= b) {
        let next = window_push(recent, capacity, value);
        if capacity > 0 && recent.len() >= capacity {
            assert forall|i: int| 0 <= i < next.len() implies #[trigger] next[i] <= b by {
                if i < next.len() - 1 {
                    assert(next[i] == recent[i + 1]);
                }
            }
        }
    }
}

/// The last `size` values, or all of them followed by zeros up to `size`.
pub open spec fn latest(values: Seq<u64>, size: nat) -> Seq<u64> {
    if values.len() >= size {
        values.subrange(values.len() - size, values.len() as int)
    } else {
        values + zeros((size - values.len()) as nat)
    }
}

/// A buffer without slots never holds a sample.
proof fn lemma_pushed_all_empty(values: Seq<u64>)
    ensures
        pushed_all(Seq::empty(), 0, values) == Seq::<u64>::empty(),
    decreases values.len(),
{
    if values.len() > 0 {
        lemma_pushed_all_empty(values.drop_last());
    }
}

/// The window read out after pushing `values` is `latest(values, size)`.
pub proof fn lemma_window_after(size: nat, values: Seq<u64>)
    ensures
        window(pushed_all(Seq::empty(), size, values), size) == latest(values, size),
{
    let n = values.len();
    if size == 0 {
        lemma_pushed_all_empty(values);
        assert(window(Seq::<u64>::empty(), 0) =~= latest(values, 0));
    } else {
        lemma_keeps_latest(size, values);
        if n >= size {
            assert(window(values.subrange(n - size, n as int), size) =~= latest(values, size));
        } else {
            assert(values.subrange(0, n as int) =~= values);
            assert(window(values, size) =~= latest(values, size));
        }
    }
}

/// After `n` pushes, a buffer reads out the last `size` values oldest first,
/// or all of them followed by zeros up to `size` while fewer were pushed
/// (nothing when it has no slots).
pub proof fn lemma_read_out_after_pushes(size: nat, values: Seq<u64>)
    ensures
        window(ring_pushes(RingState::fresh(size), values).recent(), size) == latest(values, size),
{
    if size > 0 {
        lemma_ring_after_pushes(size, values);
    } else {
        lemma_ring_without_slots(values);
        assert(RingState::fresh(0).recent() =~= Seq::<u64>::empty());
    }
    lemma_window_after(size, values);
}

} // verus!
