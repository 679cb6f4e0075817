use vstd::prelude::*;
use vstd::arithmetic::div_mod::{lemma_fundamental_div_mod, lemma_fundamental_div_mod_converse};
use crate::ring::{RingBuffer, window, window_push, zeros, pushed_all, latest, lemma_window_after, lemma_window_push_fits};

verus! {

/// Samples laid out for a sparkline: a zero follows every `gap`-th sample.
pub open spec fn spaced(s: Seq<u64>, gap: nat) -> Seq<u64>
    decreases s.len(),
{
    if s.len() == 0 {
        Seq::empty()
    } else {
        let with_last = spaced(s.drop_last(), gap).push(s.last());
        if s.len() % gap == 0 {
            with_last.push(0u64)
        } else {
            with_last
        }
    }
}

/// The largest sample, or 1 when there is none.
pub open spec fn peak(s: Seq<u64>) -> u64
    decreases s.len(),
{
    if s.len() == 0 {
        1
    } else if s.len() == 1 {
        s[0]
    } else {
        let p = peak(s.drop_last());
        if s.last() > p {
            s.last()
        } else {
            p
        }
    }
}

/// A percentage reading held as a whole number, capped at 100.
pub open spec fn capped(pct: u64) -> u64 {
    if pct > 100 {
        100
    } else {
        pct
    }
}

/// Every element of `s` is at most `b`.
pub open spec fn bounded_by(s: Seq<u64>, b: u64) -> bool {
    forall|i: int| 0 <= i < s.len() ==> #[trigger] s[i] <= b
}

/// The peak of a non-empty sequence is one of its elements and no element exceeds it.
pub proof fn lemma_peak_bounds(s: Seq<u64>)
    requires
        s.len() > 0,
    ensures
        bounded_by(s, peak(s)),
        exists|i: int| 0 <= i < s.len() && s[i] == peak(s),
    decreases s.len(),
{
    if s.len() == 1 {
        assert(s[0] == peak(s));
    } else {
        let t = s.drop_last();
        lemma_peak_bounds(t);
        let j = choose|j: int| 0 <= j < t.len() && t[j] == peak(t);
        assert(forall|i: int| 0 <= i < t.len() ==> t[i] == s[i]);
        if s.last() > peak(t) {
            assert(s[s.len() - 1] == peak(s));
        } else {
            assert(s[j] == peak(s));
        }
    }
}

/// Spacing keeps every sample and adds one separator per full group.
pub proof fn lemma_spaced_len(s: Seq<u64>, gap: nat)
    requires
        gap >= 1,
    ensures
        spaced(s, gap).len() == s.len() + s.len() / gap,
    decreases s.len(),
{
    if s.len() > 0 {
        lemma_spaced_len(s.drop_last(), gap);
        let m = s.len() - 1;
        let g = gap as int;
        lemma_fundamental_div_mod(m, g);
        let q = m / g;
        let r = m % g;
        if r + 1 < g {
            lemma_fundamental_div_mod_converse(m + 1, g, q, r + 1);
        } else {
            assert((q + 1) * g == q * g + g) by (nonlinear_arith);
            lemma_fundamental_div_mod_converse(m + 1, g, q + 1, 0);
        }
    }
}

/// Where the `i`-th sample stands once spaced every `gap` samples.
pub open spec fn sample_slot(i: int, gap: nat) -> int {
    i + i / (gap as int)
}

/// Where the separator after the `j`-th full group of `gap` samples stands.
pub open spec fn gap_slot(j: int, gap: nat) -> int {
    j * (gap + 1) - 1
}

/// Spacing keeps every sample in order, the `i`-th one after the `i / gap`
/// separators before it, and puts a zero after each full group of `gap`
/// samples.
pub proof fn lemma_spaced_positions(s: Seq<u64>, gap: nat)
    requires
        gap >= 1,
    ensures
        forall|i: int| 0 <= i < s.len() ==> spaced(s, gap)[#[trigger] sample_slot(i, gap)] == s[i],
        forall|j: int| 1 <= j <= (s.len() as int) / (gap as int) ==> spaced(s, gap)[#[trigger] gap_slot(j, gap)] == 0,
    decreases s.len(),
{
    if s.len() > 0 {
        let t = s.drop_last();
        let n = s.len() as int;
        let g = gap as int;
        lemma_spaced_positions(t, gap);
        lemma_spaced_len(t, gap);
        lemma_spaced_len(s, gap);
        let st = spaced(t, gap);
        let ss = spaced(s, gap);
        assert(forall|k: int| 0 <= k < st.len() ==> ss[k] == st[k]);
        assert forall|i: int| 0 <= i < s.len() implies ss[#[trigger] sample_slot(i, gap)] == s[i] by {
            if i < n - 1 {
                vstd::arithmetic::div_mod::lemma_div_is_ordered(i, n - 1, g);
                assert(t[i] == s[i]);
                assert(st[sample_slot(i, gap)] == t[i]);
            } else {
                assert(sample_slot(i, gap) == st.len());
            }
        }
        assert forall|j: int| 1 <= j <= n / g implies ss[#[trigger] gap_slot(j, gap)] == 0 by {
            lemma_fundamental_div_mod(n - 1, g);
            lemma_fundamental_div_mod(n, g);
            if j <= (n - 1) / g {
                let q = (n - 1) / g;
                assert(j * g <= q * g) by (nonlinear_arith)
                    requires
                        j <= q,
                        g >= 1,
                ;
                assert(gap_slot(j, gap) == j * g + j - 1) by (nonlinear_arith)
                    requires
                        g == gap,
                ;
                assert(st[gap_slot(j, gap)] == 0);
            } else {
                let q = (n - 1) / g;
                let r = (n - 1) % g;
                vstd::arithmetic::div_mod::lemma_mod_pos_bound(n - 1, g);
                vstd::arithmetic::div_mod::lemma_div_is_ordered(n - 1, n, g);
                if r + 1 < g {
                    lemma_fundamental_div_mod_converse(n, g, q, r + 1);
                } else {
                    assert((q + 1) * g == q * g + g) by (nonlinear_arith);
                    lemma_fundamental_div_mod_converse(n, g, q + 1, 0);
                }
                assert(j == q + 1);
                assert(n % g == 0);
                assert(gap_slot(j, gap) == q * g + g + q) by (nonlinear_arith)
                    requires
                        g == gap,
                        j == q + 1,
                ;
                assert(ss == st.push(s.last()).push(0u64));
            }
        }
    }
}

/// The `j`-th sample stands in the spaced sequence.
proof fn lemma_sample_kept(s: Seq<u64>, gap: nat, j: int)
    requires
        gap >= 1,
        0 <= j < s.len(),
    ensures
        0 <= sample_slot(j, gap) < spaced(s, gap).len(),
        spaced(s, gap)[sample_slot(j, gap)] == s[j],
{
    lemma_spaced_positions(s, gap);
    lemma_spaced_len(s, gap);
    vstd::arithmetic::div_mod::lemma_div_is_ordered(j, s.len() as int, gap as int);
    vstd::arithmetic::div_mod::lemma_div_pos_is_pos(j, gap as int);
}

/// Spacing adds only zeros, so a bound on the samples bounds the spaced sequence.
pub proof fn lemma_spaced_bounded(s: Seq<u64>, gap: nat, b: u64)
    requires
        bounded_by(s, b),
    ensures
        bounded_by(spaced(s, gap), b),
    decreases s.len(),
{
    if s.len() > 0 {
        let t = s.drop_last();
        assert(bounded_by(t, b));
        lemma_spaced_bounded(t, gap, b);
        assert(s.last() == s[s.len() - 1]);
    }
}

/// The largest value of `values`, or 1 when it is empty.
pub fn max_value(values: &[u64]) -> (r: u64)
    ensures
        r == peak(values@),
{
    if values.len() == 0 {
        return 1;
    }
    let mut best = values[0];
    let mut i: usize = 1;
    while i < values.len()
        invariant
            1 <= i <= values@.len(),
            best == peak(values@.take(i as int)),
        decreases values@.len() - i,
    {
        let v = values[i];
        assert(values@.take(i as int + 1).drop_last() =~= values@.take(i as int));
        if v > best {
            best = v;
        }
        i = i + 1;
    }
    assert(values@.take(i as int) =~= values@);
    best
}

/// Replaces `out` with `ordered` spaced every `gap` samples.
fn fill_spaced(ordered: &Vec<u64>, gap: usize, out: &mut Vec<u64>)
    requires
        gap >= 1,
    ensures
        final(out)@ == spaced(ordered@, gap as nat),
{
    out.clear();
    let mut i: usize = 0;
    while i < ordered.len()
        invariant
            gap >= 1,
            i <= ordered@.len(),
            out@ == spaced(ordered@.take(i as int), gap as nat),
        decreases ordered@.len() - i,
    {
        let value = ordered[i];
        proof {
            let t = ordered@.take(i as int + 1);
            assert(t.drop_last() =~= ordered@.take(i as int));
            assert(t.last() == value);
        }
        out.push(value);
        if (i + 1) % gap == 0 {
            out.push(0);
        }
        i = i + 1;
    }
    assert(ordered@.take(i as int) =~= ordered@);
}

/// The gap actually used for a requested one: 0 counts as 1.
pub open spec fn normal_gap(gap: nat) -> nat {
    if gap > 1 {
        gap
    } else {
        1
    }
}

/// What a history holds: slots per series, samples between separators, the
/// samples of each series oldest first, and whether any pair was recorded.
pub struct HistoryView {
    pub capacity: nat,
    pub gap: nat,
    pub cpu: Seq<u64>,
    pub ram: Seq<u64>,
    pub sampled: bool,
}

impl HistoryView {
    /// A new history of `size` slots spaced every `gap` samples.
    pub open spec fn fresh(size: nat, gap: nat) -> Self {
        HistoryView {
            capacity: size,
            gap: normal_gap(gap),
            cpu: Seq::empty(),
            ram: Seq::empty(),
            sampled: false,
        }
    }

    /// The history after recording one pair of percentages, each capped at 100.
    pub open spec fn pushed(self, cpu_pct: u64, ram_pct: u64) -> Self {
        HistoryView {
            capacity: self.capacity,
            gap: self.gap,
            cpu: window_push(self.cpu, self.capacity, capped(cpu_pct)),
            ram: window_push(self.ram, self.capacity, capped(ram_pct)),
            sampled: true,
        }
    }

    /// The spaced CPU series: empty before the first pair, afterwards the
    /// whole window (unwritten slots as zeros) spaced every `gap` samples.
    pub open spec fn cpu_series(self) -> Seq<u64> {
        if self.sampled {
            spaced(window(self.cpu, self.capacity), self.gap)
        } else {
            Seq::empty()
        }
    }

    /// The spaced RAM series, laid out as the CPU series.
    pub open spec fn ram_series(self) -> Seq<u64> {
        if self.sampled {
            spaced(window(self.ram, self.capacity), self.gap)
        } else {
            Seq::empty()
        }
    }

    /// The CPU sparkline scale: the window's peak once sampled, at least 1.
    pub open spec fn cpu_scale(self) -> u64 {
        let p = if self.sampled {
            peak(window(self.cpu, self.capacity))
        } else {
            1
        };
        if p > 1 {
            p
        } else {
            1
        }
    }

    /// The RAM sparkline scale, as the CPU one.
    pub open spec fn ram_scale(self) -> u64 {
        let p = if self.sampled {
            peak(window(self.ram, self.capacity))
        } else {
            1
        };
        if p > 1 {
            p
        } else {
            1
        }
    }

    /// A gap of at least 1, at most `capacity` samples per series, all percentages.
    pub open spec fn valid(self) -> bool {
        &&& self.gap >= 1
        &&& self.cpu.len() <= self.capacity
        &&& self.ram.len() <= self.capacity
        &&& bounded_by(self.cpu, 100)
        &&& bounded_by(self.ram, 100)
    }
}

/// The history after recording each pair of `pairs` in turn.
pub open spec fn pushes(v: HistoryView, pairs: Seq<(u64, u64)>) -> HistoryView
    decreases pairs.len(),
{
    if pairs.len() == 0 {
        v
    } else {
        pushes(v, pairs.drop_last()).pushed(pairs.last().0, pairs.last().1)
    }
}

/// The capped CPU percentages of `pairs`.
pub open spec fn cpu_values(pairs: Seq<(u64, u64)>) -> Seq<u64> {
    pairs.map_values(|p: (u64, u64)| capped(p.0))
}

/// The capped RAM percentages of `pairs`.
pub open spec fn ram_values(pairs: Seq<(u64, u64)>) -> Seq<u64> {
    pairs.map_values(|p: (u64, u64)| capped(p.1))
}

/// Every value in a window of percentages is at most 100.
proof fn lemma_window_bounded(recent: Seq<u64>, capacity: nat)
    requires
        bounded_by(recent, 100),
        recent.len() <= capacity,
    ensures
        bounded_by(window(recent, capacity), 100),
        window(recent, capacity).len() == capacity,
{
    let w = window(recent, capacity);
    assert forall|i: int| 0 <= i < w.len() implies #[trigger] w[i] <= 100 by {
        if i >= recent.len() {
            assert(w[i] == zeros((capacity - recent.len()) as nat)[i - recent.len()]);
        }
    }
}

/// Recording a pair keeps a history valid.
pub proof fn lemma_pushed_valid(v: HistoryView, cpu_pct: u64, ram_pct: u64)
    requires
        v.valid(),
    ensures
        v.pushed(cpu_pct, ram_pct).valid(),
{
    lemma_window_push_fits(v.cpu, v.capacity, capped(cpu_pct), 100);
    lemma_window_push_fits(v.ram, v.capacity, capped(ram_pct), 100);
}

/// The scales of a valid history lie in 1..=100 and bound their series; a
/// scale above 1 is reached by a sample of its series, so it is the
/// series' largest value.
pub proof fn lemma_scale_bounds(v: HistoryView)
    requires
        v.valid(),
    ensures
        1 <= v.cpu_scale() <= 100,
        1 <= v.ram_scale() <= 100,
        bounded_by(v.cpu_series(), v.cpu_scale()),
        bounded_by(v.ram_series(), v.ram_scale()),
        v.cpu_scale() > 1 ==> exists|i: int|
            0 <= i < v.cpu_series().len() && v.cpu_series()[i] == v.cpu_scale(),
        v.ram_scale() > 1 ==> exists|i: int|
            0 <= i < v.ram_series().len() && v.ram_series()[i] == v.ram_scale(),
{
    if v.sampled {
        let cw = window(v.cpu, v.capacity);
        let rw = window(v.ram, v.capacity);
        lemma_window_bounded(v.cpu, v.capacity);
        lemma_window_bounded(v.ram, v.capacity);
        if cw.len() > 0 {
            lemma_peak_bounds(cw);
            let j = choose|j: int| 0 <= j < cw.len() && cw[j] == peak(cw);
            assert(cw[j] <= 100);
            lemma_sample_kept(cw, v.gap, j);
            assert(v.cpu_series()[sample_slot(j, v.gap)] == cw[j]);
        }
        if rw.len() > 0 {
            lemma_peak_bounds(rw);
            let j = choose|j: int| 0 <= j < rw.len() && rw[j] == peak(rw);
            assert(rw[j] <= 100);
            lemma_sample_kept(rw, v.gap, j);
            assert(v.ram_series()[sample_slot(j, v.gap)] == rw[j]);
        }
        lemma_spaced_bounded(cw, v.gap, v.cpu_scale());
        lemma_spaced_bounded(rw, v.gap, v.ram_scale());
    }
}

/// A requested gap of 0 behaves as a gap of 1 under every sequence of pairs.
pub proof fn lemma_zero_gap(size: nat, pairs: Seq<(u64, u64)>)
    ensures
        pushes(HistoryView::fresh(size, 0), pairs) == pushes(HistoryView::fresh(size, 1), pairs),
{
    assert(HistoryView::fresh(size, 0) == HistoryView::fresh(size, 1));
}

/// The samples after a sequence of pairs are the pushed values of each series.
proof fn lemma_pushes_samples(size: nat, gap: nat, pairs: Seq<(u64, u64)>)
    ensures
        pushes(HistoryView::fresh(size, gap), pairs).capacity == size,
        pushes(HistoryView::fresh(size, gap), pairs).gap == normal_gap(gap),
        pushes(HistoryView::fresh(size, gap), pairs).sampled == (pairs.len() > 0),
        pushes(HistoryView::fresh(size, gap), pairs).cpu == pushed_all(
            Seq::empty(),
            size,
            cpu_values(pairs),
        ),
        pushes(HistoryView::fresh(size, gap), pairs).ram == pushed_all(
            Seq::empty(),
            size,
            ram_values(pairs),
        ),
    decreases pairs.len(),
{
    if pairs.len() > 0 {
        lemma_pushes_samples(size, gap, pairs.drop_last());
        assert(cpu_values(pairs).drop_last() =~= cpu_values(pairs.drop_last()));
        assert(ram_values(pairs).drop_last() =~= ram_values(pairs.drop_last()));
    }
}

/// After at least one pair, each series is the latest `size` capped values
/// (padded with zeros while fewer were recorded), spaced every `gap` samples
/// (0 counting as 1), and holds `size + size / gap` values.
pub proof fn lemma_series_after_pushes(size: nat, gap: nat, pairs: Seq<(u64, u64)>)
    requires
        pairs.len() >= 1,
    ensures
        ({
            let v = pushes(HistoryView::fresh(size, gap), pairs);
            let g = normal_gap(gap);
            &&& window(v.cpu, size) == latest(cpu_values(pairs), size)
            &&& window(v.ram, size) == latest(ram_values(pairs), size)
            &&& v.cpu_series() == spaced(latest(cpu_values(pairs), size), g)
            &&& v.ram_series() == spaced(latest(ram_values(pairs), size), g)
            &&& v.cpu_series().len() == size + size / g
            &&& v.ram_series().len() == size + size / g
        }),
{
    lemma_pushes_samples(size, gap, pairs);
    lemma_window_after(size, cpu_values(pairs));
    lemma_window_after(size, ram_values(pairs));
    let g = normal_gap(gap);
    lemma_spaced_len(latest(cpu_values(pairs), size), g);
    lemma_spaced_len(latest(ram_values(pairs), size), g);
}

/// Once full, a history is a sliding window: two histories whose last `size`
/// pairs agree show the same series and scales, whatever came before.
pub proof fn lemma_sliding_window(
    size: nat,
    gap: nat,
    first: Seq<(u64, u64)>,
    second: Seq<(u64, u64)>,
)
    requires
        size > 0,
        first.len() >= size,
        second.len() >= size,
        first.subrange(first.len() - size, first.len() as int) == second.subrange(
            second.len() - size,
            second.len() as int,
        ),
    ensures
        ({
            let a = pushes(HistoryView::fresh(size, gap), first);
            let b = pushes(HistoryView::fresh(size, gap), second);
            &&& a.cpu_series() == b.cpu_series()
            &&& a.ram_series() == b.ram_series()
            &&& a.cpu_scale() == b.cpu_scale()
            &&& a.ram_scale() == b.ram_scale()
        }),
{
    lemma_series_after_pushes(size, gap, first);
    lemma_series_after_pushes(size, gap, second);
    lemma_pushes_samples(size, gap, first);
    lemma_pushes_samples(size, gap, second);
    let tail1 = first.subrange(first.len() - size, first.len() as int);
    let tail2 = second.subrange(second.len() - size, second.len() as int);
    assert(latest(cpu_values(first), size) =~= cpu_values(tail1));
    assert(latest(cpu_values(second), size) =~= cpu_values(tail2));
    assert(latest(ram_values(first), size) =~= ram_values(tail1));
    assert(latest(ram_values(second), size) =~= ram_values(tail2));
}

/// Each series depends on its own readings alone: histories given the same
/// RAM readings show the same RAM series and scale whatever the CPU readings,
/// and the same holds with the roles swapped.
pub proof fn lemma_series_independent(
    size: nat,
    gap: nat,
    first: Seq<(u64, u64)>,
    second: Seq<(u64, u64)>,
)
    requires
        first.len() == second.len(),
    ensures
        ({
            let a = pushes(HistoryView::fresh(size, gap), first);
            let b = pushes(HistoryView::fresh(size, gap), second);
            &&& (forall|i: int| 0 <= i < first.len() ==> (#[trigger] first[i]).1 == second[i].1)
                ==> a.ram_series() == b.ram_series() && a.ram_scale() == b.ram_scale()
            &&& (forall|i: int| 0 <= i < first.len() ==> (#[trigger] first[i]).0 == second[i].0)
                ==> a.cpu_series() == b.cpu_series() && a.cpu_scale() == b.cpu_scale()
        }),
{
    lemma_pushes_samples(size, gap, first);
    lemma_pushes_samples(size, gap, second);
    if forall|i: int| 0 <= i < first.len() ==> (#[trigger] first[i]).1 == second[i].1 {
        assert(ram_values(first) =~= ram_values(second));
    }
    if forall|i: int| 0 <= i < first.len() ==> (#[trigger] first[i]).0 == second[i].0 {
        assert(cpu_values(first) =~= cpu_values(second));
    }
}

/// Recent CPU and RAM percentages, kept for two sparklines.
pub struct History {
    cpu: RingBuffer,
    ram: RingBuffer,
    cpu_ordered: Vec<u64>,
    ram_ordered: Vec<u64>,
    cpu_spaced: Vec<u64>,
    ram_spaced: Vec<u64>,
    cpu_max: u64,
    ram_max: u64,
    gap: usize,
    sampled: Ghost<bool>,
}

impl History {
    /// What the history holds.
    pub closed spec fn view(&self) -> HistoryView {
        HistoryView {
            capacity: self.cpu.capacity(),
            gap: self.gap as nat,
            cpu: self.cpu.recent(),
            ram: self.ram.recent(),
            sampled: self.sampled@,
        }
    }

    /// Internal consistency of the two series with the view.
    pub closed spec fn wf(&self) -> bool {
        &&& self.cpu.wf()
        &&& self.ram.wf()
        &&& self.ram.capacity() == self.cpu.capacity()
        &&& self.gap >= 1
        &&& self.cpu_ordered@ == window(self.cpu.recent(), self.cpu.capacity())
        &&& self.ram_ordered@ == window(self.ram.recent(), self.ram.capacity())
        &&& bounded_by(self.cpu.recent(), 100)
        &&& bounded_by(self.ram.recent(), 100)
        &&& self.cpu_spaced@ == self.view().cpu_series()
        &&& self.ram_spaced@ == self.view().ram_series()
        &&& self.cpu_max == if self.sampled@ {
            peak(self.cpu_ordered@)
        } else {
            1
        }
        &&& self.ram_max == if self.sampled@ {
            peak(self.ram_ordered@)
        } else {
            1
        }
    }

    /// A well-formed history has a valid view.
    pub proof fn lemma_view_valid(&self)
        requires
            self.wf(),
        ensures
            self.view().valid(),
    {
        self.cpu.lemma_recent_fits();
        self.ram.lemma_recent_fits();
    }

    /// Two empty series of `size` samples each, spaced every `gap` samples
    /// (a gap of 0 counts as 1). Both series read out empty and both scales
    /// are 1 until the first sample pair arrives.
    pub fn new(size: usize, gap: usize) -> (r: Self)
        requires
            size + size / (if gap > 1 { gap } else { 1usize }) + 1 <= usize::MAX,
        ensures
            r.wf(),
            r.view() == HistoryView::fresh(size as nat, gap as nat),
    {
        let cpu = RingBuffer::new(size);
        let ram = RingBuffer::new(size);
        let mut cpu_ordered = Vec::with_capacity(size);
        let mut ram_ordered = Vec::with_capacity(size);
        let g = if gap > 1 { gap } else { 1 };
        let spaced_cap = size + (size / g) + 1;
        let cpu_spaced = Vec::with_capacity(spaced_cap);
        let ram_spaced = Vec::with_capacity(spaced_cap);
        cpu.write_ordered(&mut cpu_ordered);
        ram.write_ordered(&mut ram_ordered);
        let r = History {
            cpu,
            ram,
            cpu_ordered,
            ram_ordered,
            cpu_spaced,
            ram_spaced,
            cpu_max: 1,
            ram_max: 1,
            gap: g,
            sampled: Ghost(false),
        };
        assert(r.view() =~= HistoryView::fresh(size as nat, gap as nat));
        r
    }

    /// Records one CPU and one RAM percentage (each capped at 100), then
    /// recomputes both spaced series and both peaks from the full windows.
    pub fn push(&mut self, cpu_pct: u64, ram_pct: u64)
        requires
            old(self).wf(),
        ensures
            final(self).wf(),
            final(self).view() == old(self).view().pushed(cpu_pct, ram_pct),
    {
        let c = if cpu_pct > 100 { 100 } else { cpu_pct };
        let r = if ram_pct > 100 { 100 } else { ram_pct };
        let ghost old_cpu = self.cpu.recent();
        let ghost old_ram = self.ram.recent();
        proof {
            self.cpu.lemma_recent_fits();
            self.ram.lemma_recent_fits();
            lemma_window_push_fits(old_cpu, self.cpu.capacity(), c, 100);
            lemma_window_push_fits(old_ram, self.ram.capacity(), r, 100);
        }
        self.cpu.push(c);
        self.ram.push(r);
        self.cpu.write_ordered(&mut self.cpu_ordered);
        self.ram.write_ordered(&mut self.ram_ordered);
        self.cpu_max = max_value(self.cpu_ordered.as_slice());
        self.ram_max = max_value(self.ram_ordered.as_slice());
        fill_spaced(&self.cpu_ordered, self.gap, &mut self.cpu_spaced);
        fill_spaced(&self.ram_ordered, self.gap, &mut self.ram_spaced);
        self.sampled = Ghost(true);
        assert(self.view() =~= old(self).view().pushed(cpu_pct, ram_pct));
    }

    /// The spaced CPU series: empty until the first sample pair, afterwards the
    /// whole window (unwritten slots as zeros) with a zero after every `gap` samples.
    pub fn cpu(&self) -> (r: &[u64])
        requires
            self.wf(),
        ensures
            r@ == self.view().cpu_series(),
            bounded_by(r@, 100),
    {
        proof {
            self.lemma_view_valid();
            lemma_scale_bounds(self.view());
            lemma_spaced_bounded_by_larger(self.view().cpu_series(), self.view().cpu_scale(), 100);
        }
        self.cpu_spaced.as_slice()
    }

    /// The spaced RAM series, laid out as `cpu` lays out the CPU series.
    pub fn ram(&self) -> (r: &[u64])
        requires
            self.wf(),
        ensures
            r@ == self.view().ram_series(),
            bounded_by(r@, 100),
    {
        proof {
            self.lemma_view_valid();
            lemma_scale_bounds(self.view());
            lemma_spaced_bounded_by_larger(self.view().ram_series(), self.view().ram_scale(), 100);
        }
        self.ram_spaced.as_slice()
    }

    /// The scale for the CPU sparkline: the window's peak once sampled, at
    /// least 1 and at most 100, bounding every value of the CPU series.
    pub fn cpu_max(&self) -> (r: u64)
        requires
            self.wf(),
        ensures
            r == self.view().cpu_scale(),
            1 <= r <= 100,
            bounded_by(self.view().cpu_series(), r),
    {
        proof {
            self.lemma_view_valid();
            lemma_scale_bounds(self.view());
        }
        if self.cpu_max > 1 {
            self.cpu_max
        } else {
            1
        }
    }

    /// The scale for the RAM sparkline, as `cpu_max` for the CPU series.
    pub fn ram_max(&self) -> (r: u64)
        requires
            self.wf(),
        ensures
            r == self.view().ram_scale(),
            1 <= r <= 100,
            bounded_by(self.view().ram_series(), r),
    {
        proof {
            self.lemma_view_valid();
            lemma_scale_bounds(self.view());
        }
        if self.ram_max > 1 {
            self.ram_max
        } else {
            1
        }
    }
}

/// A bound on a sequence carries over to any larger bound.
proof fn lemma_spaced_bounded_by_larger(s: Seq<u64>, b: u64, c: u64)
    requires
        bounded_by(s, b),
        b <= c,
    ensures
        bounded_by(s, c),
{
}

} // verus!
