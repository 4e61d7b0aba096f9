//! Throughput bookkeeping: lifetime totals, a rolling window of recent
//! batches and the best batch rate seen.

use vstd::prelude::*;
use std::collections::VecDeque;
use crate::outside::{instant_now, nanos_since};

verus! {

/// How many recent batches the rolling window keeps.
pub const WINDOW: usize = 100;

/// Sum of the batch sizes of a record sequence of `(size, nanoseconds)`.
pub open spec fn sum_sizes(h: Seq<(nat, nat)>) -> nat
    decreases h.len(),
{
    if h.len() == 0 {
        0
    } else {
        sum_sizes(h.drop_last()) + h.last().0
    }
}

/// Sum of the batch durations of a record sequence.
pub open spec fn sum_nanos(h: Seq<(nat, nat)>) -> nat
    decreases h.len(),
{
    if h.len() == 0 {
        0
    } else {
        sum_nanos(h.drop_last()) + h.last().1
    }
}

/// The most recent `WINDOW` records, or all of them if there are fewer.
pub open spec fn window(h: Seq<(nat, nat)>) -> Seq<(nat, nat)> {
    if h.len() <= WINDOW {
        h
    } else {
        h.subrange(h.len() - WINDOW, h.len() as int)
    }
}

/// The mean duration of the window, rounded down; zero for no records.
pub open spec fn average_nanos(h: Seq<(nat, nat)>) -> nat {
    if window(h).len() == 0 {
        0
    } else {
        sum_nanos(window(h)) / window(h).len()
    }
}

/// The lifetime transaction total, held at the largest `u64`.
pub open spec fn saturated_total(h: Seq<(nat, nat)>) -> nat {
    if sum_sizes(h) <= u64::MAX {
        sum_sizes(h)
    } else {
        u64::MAX as nat
    }
}

/// Every record with a non-zero duration has a rate of at most `ps / pn`.
pub open spec fn rate_dominates(h: Seq<(nat, nat)>, ps: nat, pn: nat) -> bool {
    forall|i: int| 0 <= i < h.len() && #[trigger] h[i].1 > 0 ==> h[i].0 * pn <= ps * h[i].1
}

/// The peak is the zero rate `0 / 1`, or the rate of a recorded batch with
/// a non-zero duration.
pub open spec fn peak_is_recorded(h: Seq<(nat, nat)>, ps: nat, pn: nat) -> bool {
    (ps == 0 && pn == 1) || exists|i: int| 0 <= i < h.len() && h[i].1 > 0 && #[trigger] h[i] == (ps, pn)
}

/// A snapshot of the monitor. The peak rate is the fraction
/// `peak_batch_size / peak_batch_nanos` transactions per nanosecond.
#[derive(Debug, Clone, Copy)]
pub struct PerformanceStats {
    pub total_transactions: u64,
    /// Nanoseconds since the monitor was created.
    pub elapsed_nanos: u128,
    /// Mean duration of the batches in the rolling window.
    pub average_batch_nanos: u64,
    pub peak_batch_size: u64,
    pub peak_batch_nanos: u64,
}

pub struct PerformanceMonitor {
    total_transactions: u64,
    batch_times: VecDeque<u64>,
    batch_sizes: VecDeque<u64>,
    peak_size: u64,
    peak_nanos: u64,
    started: std::time::Instant,
    records: Ghost<Seq<(nat, nat)>>,
}

impl PerformanceMonitor {
    /// Every batch recorded so far, as `(size, nanoseconds)`, oldest first.
    pub closed spec fn history(&self) -> Seq<(nat, nat)> {
        self.records@
    }

    pub closed spec fn peak_size(&self) -> nat {
        self.peak_size as nat
    }

    pub closed spec fn peak_nanos(&self) -> nat {
        self.peak_nanos as nat
    }

    pub closed spec fn total(&self) -> nat {
        self.total_transactions as nat
    }

    pub closed spec fn wf(&self) -> bool {
        let h = self.records@;
        let w = window(h);
        &&& self.total_transactions as nat == saturated_total(h)
        &&& self.batch_times@.len() == w.len()
        &&& self.batch_sizes@.len() == w.len()
        &&& forall|j: int|
            0 <= j < w.len() ==> #[trigger] self.batch_times@[j] as nat == w[j].1
                && self.batch_sizes@[j] as nat == w[j].0
        &&& forall|i: int| 0 <= i < h.len() ==> #[trigger] h[i].0 <= u64::MAX && h[i].1 <= u64::MAX
        &&& self.peak_nanos > 0
        &&& peak_is_recorded(h, self.peak_size as nat, self.peak_nanos as nat)
        &&& forall|i: int|
            0 <= i < h.len() && #[trigger] h[i].1 > 0 ==> h[i].0 * self.peak_nanos <= self.peak_size
                * h[i].1
    }

    /// A monitor with no records and a peak rate of zero.
    pub fn new() -> (r: PerformanceMonitor)
        ensures
            r.wf(),
            r.history() == Seq::<(nat, nat)>::empty(),
            r.peak_size() == 0,
            r.peak_nanos() == 1,
            r.total() == 0,
    {
        let r = PerformanceMonitor {
            total_transactions: 0,
            batch_times: VecDeque::new(),
            batch_sizes: VecDeque::new(),
            peak_size: 0,
            peak_nanos: 1,
            started: instant_now(),
            records: Ghost(Seq::empty()),
        };
        assert(window(r.records@) =~= Seq::<(nat, nat)>::empty());
        r
    }

    /// Records a batch of `batch_size` transactions that took `nanos`
    /// nanoseconds. The peak moves to this batch when its rate is strictly
    /// higher; a zero duration leaves the peak alone.
    pub fn record_batch(&mut self, batch_size: u64, nanos: u64)
        requires
            old(self).wf(),
        ensures
            final(self).wf(),
            final(self).history() == old(self).history().push((batch_size as nat, nanos as nat)),
            final(self).total() == (if old(self).total() + batch_size <= u64::MAX {
                old(self).total() + batch_size
            } else {
                u64::MAX as int
            }),
            final(self).total() == saturated_total(final(self).history()),
            (nanos > 0 && batch_size * old(self).peak_nanos() > old(self).peak_size() * nanos) ==> (
            final(self).peak_size() == batch_size && final(self).peak_nanos() == nanos),
            !(nanos > 0 && batch_size * old(self).peak_nanos() > old(self).peak_size() * nanos) ==> (
            final(self).peak_size() == old(self).peak_size() && final(self).peak_nanos() == old(
                self,
            ).peak_nanos()),
    {
        let ghost h0 = self.records@;
        let ghost h1 = h0.push((batch_size as nat, nanos as nat));
        proof {
            assert(h1.drop_last() =~= h0);
        }
        let ghost bt0 = self.batch_times@;
        let ghost bs0 = self.batch_sizes@;
        self.total_transactions = self.total_transactions.saturating_add(batch_size);
        self.batch_times.push_back(nanos);
        self.batch_sizes.push_back(batch_size);
        if self.batch_times.len() > WINDOW {
            self.batch_times.pop_front();
            self.batch_sizes.pop_front();
        }
        proof {
            lemma_product_fits(batch_size, self.peak_nanos);
            lemma_product_fits(self.peak_size, nanos);
        }
        let ghost old_ps = self.peak_size as nat;
        let ghost old_pn = self.peak_nanos as nat;
        let candidate = (batch_size as u128) * (self.peak_nanos as u128);
        let incumbent = (self.peak_size as u128) * (nanos as u128);
        if nanos > 0 && candidate > incumbent {
            self.peak_size = batch_size;
            self.peak_nanos = nanos;
            proof {
                assert(h1[h1.len() - 1] == (batch_size as nat, nanos as nat));
                assert(peak_is_recorded(h1, batch_size as nat, nanos as nat));
                assert forall|i: int| 0 <= i < h1.len() && #[trigger] h1[i].1 > 0 implies h1[i].0
                    * nanos <= batch_size * h1[i].1 by {
                    if i < h0.len() {
                        assert(h1[i] == h0[i]);
                        lemma_rate_order(h1[i].0, h1[i].1, old_ps, old_pn, batch_size as nat, nanos as nat);
                    }
                }
            }
        } else {
            proof {
                if !(old_ps == 0 && old_pn == 1) {
                    let k = choose|k: int| 0 <= k < h0.len() && h0[k].1 > 0 && #[trigger] h0[k] == (
                        old_ps,
                        old_pn,
                    );
                    assert(h1[k] == h0[k]);
                }
                assert(peak_is_recorded(h1, old_ps, old_pn));
                assert forall|i: int| 0 <= i < h1.len() && #[trigger] h1[i].1 > 0 implies h1[i].0
                    * old_pn <= old_ps * h1[i].1 by {
                    if i < h0.len() {
                        assert(h1[i] == h0[i]);
                    }
                }
            }
        }
        self.records = Ghost(h1);
        proof {
            let w0 = window(h0);
            let w1 = window(h1);
            if h1.len() <= WINDOW {
                assert(w0 == h0 && w1 == h1);
                assert(self.batch_times@ == bt0.push(nanos));
                assert(self.batch_sizes@ == bs0.push(batch_size));
                assert forall|j: int| 0 <= j < w1.len() implies #[trigger] self.batch_times@[j] as nat
                    == w1[j].1 && self.batch_sizes@[j] as nat == w1[j].0 by {
                    if j < w0.len() {
                        assert(w1[j] == w0[j]);
                        assert(self.batch_times@[j] == bt0[j]);
                    } else {
                        assert(w1[j] == h1.last());
                    }
                }
            } else {
                assert(w0.len() == WINDOW);
                assert(self.batch_times@ == bt0.push(nanos).drop_first());
                assert(self.batch_sizes@ == bs0.push(batch_size).drop_first());
                assert forall|j: int| 0 <= j < w1.len() implies #[trigger] self.batch_times@[j] as nat
                    == w1[j].1 && self.batch_sizes@[j] as nat == w1[j].0 by {
                    assert(w1[j] == h1[h1.len() - WINDOW + j]);
                    if j + 1 < w0.len() {
                        assert(w0[j + 1] == h0[h0.len() - WINDOW + j + 1]);
                        assert(w1[j] == w0[j + 1]);
                        assert(self.batch_times@[j] == bt0[j + 1]);
                    } else {
                        assert(w1[j] == h1.last());
                    }
                }
            }
            assert forall|i: int| 0 <= i < h1.len() implies #[trigger] h1[i].0 <= u64::MAX && h1[i].1
                <= u64::MAX by {
                if i < h0.len() {
                    assert(h1[i] == h0[i]);
                }
            }
        }
    }

    /// Lifetime total, time since creation, window mean duration and peak.
    pub fn get_stats(&self) -> (r: PerformanceStats)
        requires
            self.wf(),
        ensures
            r.total_transactions == self.total(),
            r.average_batch_nanos == average_nanos(self.history()),
            r.peak_batch_size == self.peak_size(),
            r.peak_batch_nanos == self.peak_nanos(),
            r.total_transactions == saturated_total(self.history()),
            r.peak_batch_nanos > 0,
            rate_dominates(self.history(), r.peak_batch_size as nat, r.peak_batch_nanos as nat),
            peak_is_recorded(self.history(), r.peak_batch_size as nat, r.peak_batch_nanos as nat),
    {
        let ghost w = window(self.records@);
        let n = self.batch_times.len();
        let mut sum: u128 = 0;
        let mut j: usize = 0;
        while j < n
            invariant
                n == w.len() == self.batch_times@.len(),
                w.len() <= WINDOW,
                forall|k: int| 0 <= k < w.len() ==> #[trigger] self.batch_times@[k] as nat == w[k].1,
                j <= n,
                sum == sum_nanos(w.subrange(0, j as int)),
                sum <= j * (u64::MAX as nat),
            decreases n - j,
        {
            proof {
                assert(w.subrange(0, j + 1).drop_last() =~= w.subrange(0, j as int));
            }
            sum = sum + self.batch_times[j] as u128;
            j = j + 1;
        }
        proof {
            assert(w.subrange(0, j as int) =~= w);
        }
        let average: u64 = if n == 0 {
            0
        } else {
            proof {
                assert((sum as nat) / (n as nat) <= u64::MAX) by (nonlinear_arith)
                    requires
                        sum <= n * (u64::MAX as nat),
                        n > 0,
                ;
            }
            (sum / (n as u128)) as u64
        };
        PerformanceStats {
            total_transactions: self.total_transactions,
            elapsed_nanos: nanos_since(&self.started),
            average_batch_nanos: average,
            peak_batch_size: self.peak_size,
            peak_batch_nanos: self.peak_nanos,
        }
    }

    /// What a well-formed monitor holds: the total is the sum of all batch
    /// sizes, held at the largest `u64`; the peak rate is at least the rate
    /// of every batch with a non-zero duration, and is the rate of one of
    /// them or zero.
    pub proof fn lemma_wf_properties(&self)
        requires
            self.wf(),
        ensures
            self.total() == saturated_total(self.history()),
            self.peak_nanos() > 0,
            rate_dominates(self.history(), self.peak_size(), self.peak_nanos()),
            peak_is_recorded(self.history(), self.peak_size(), self.peak_nanos()),
    {
    }

    /// The peak rate is at least the lifetime rate: when every recorded
    /// batch took some time, the total did not saturate, and `elapsed` is at
    /// least the time the batches took, then
    /// `total / elapsed <= peak_size / peak_nanos`.
    pub proof fn lemma_peak_rate_bounds_lifetime_rate(&self, elapsed: nat)
        requires
            self.wf(),
            forall|i: int| 0 <= i < self.history().len() ==> #[trigger] self.history()[i].1 > 0,
            sum_sizes(self.history()) <= u64::MAX,
            elapsed >= sum_nanos(self.history()),
        ensures
            self.total() * self.peak_nanos() <= self.peak_size() * elapsed,
    {
        let h = self.records@;
        lemma_sum_dominated(h, self.peak_size as nat, self.peak_nanos as nat);
        let ps = self.peak_size as nat;
        assert(ps * sum_nanos(h) <= ps * elapsed) by (nonlinear_arith)
            requires
                elapsed >= sum_nanos(h),
        ;
    }
}

proof fn lemma_product_fits(a: u64, b: u64)
    ensures
        (a as nat) * (b as nat) <= u128::MAX,
{
    assert((a as nat) * (b as nat) <= (u64::MAX as nat) * (u64::MAX as nat)) by (nonlinear_arith)
        requires
            a <= u64::MAX,
            b <= u64::MAX,
    ;
}

/// When `si/di <= ps/pn < s/d`, then `si/di <= s/d`.
proof fn lemma_rate_order(si: nat, di: nat, ps: nat, pn: nat, s: nat, d: nat)
    requires
        pn > 0,
        d > 0,
        si * pn <= ps * di,
        ps * d < s * pn,
    ensures
        si * d <= s * di,
{
    assert(si * pn * d <= ps * di * d) by (nonlinear_arith)
        requires
            si * pn <= ps * di,
    ;
    assert(ps * d * di <= s * pn * di) by (nonlinear_arith)
        requires
            ps * d < s * pn,
    ;
    assert(pn * (si * d) <= pn * (s * di)) by (nonlinear_arith)
        requires
            si * pn * d <= ps * di * d,
            ps * d * di <= s * pn * di,
    ;
    assert(si * d <= s * di) by (nonlinear_arith)
        requires
            pn * (si * d) <= pn * (s * di),
            pn > 0,
    ;
}

/// When every record's rate is at most `ps/pn`, so is the rate of their sum.
proof fn lemma_sum_dominated(h: Seq<(nat, nat)>, ps: nat, pn: nat)
    requires
        forall|i: int| 0 <= i < h.len() && #[trigger] h[i].1 > 0 ==> h[i].0 * pn <= ps * h[i].1,
        forall|i: int| 0 <= i < h.len() ==> #[trigger] h[i].1 > 0,
    ensures
        sum_sizes(h) * pn <= ps * sum_nanos(h),
    decreases h.len(),
{
    if h.len() == 0 {
        assert(sum_sizes(h) * pn == 0) by (nonlinear_arith)
            requires
                sum_sizes(h) == 0,
        ;
    } else {
        let t = h.drop_last();
        assert forall|i: int| 0 <= i < t.len() implies #[trigger] t[i].1 > 0 by {
            assert(t[i] == h[i]);
        }
        lemma_sum_dominated(t, ps, pn);
        let a = sum_sizes(t);
        let b = sum_nanos(t);
        let x = h.last().0;
        let y = h.last().1;
        assert(h.last() == h[h.len() - 1]);
        assert(sum_sizes(h) == a + x);
        assert(sum_nanos(h) == b + y);
        assert((a + x) * pn <= ps * (b + y)) by (nonlinear_arith)
            requires
                a * pn <= ps * b,
                x * pn <= ps * y,
        ;
    }
}

} // verus!
