//! The cycle-counter clock: a calibrated mapping from the CPU cycle counter
//! to wall-clock nanoseconds with drift correction.
//!
//! The rate is carried as a binary fixed-point number: nanoseconds per cycle
//! scaled by 2^32.  Sampling the cycle counter and the system clock is the
//! embedding's job; every function here is pure arithmetic over sampled
//! values, so calibration and conversion are verified exactly.  The
//! parameter block carries the sequence number of the seqlock publication
//! protocol: a writer leaves it even and advances it by two, so a reader
//! that sees one even value before and after its computation saw one
//! consistent parameter tuple.

use vstd::prelude::*;
use vstd::arithmetic::div_mod::lemma_fundamental_div_mod;
use vstd::arithmetic::div_mod::lemma_mod_bound;
use vstd::arithmetic::div_mod::lemma_small_mod;
use vstd::arithmetic::div_mod::lemma_mod_self_0;

verus! {

/// The number of nanoseconds in one second.
pub const NS_PER_SEC: i64 = 1_000_000_000;

/// The default initial calibration sampling duration, 300 milliseconds.
pub const INIT_CALIBRATE_NANOS: i64 = 300_000_000;

/// The default clock calibration period.
pub const CALIBRATE_INTERVAL_NANOS: i64 = NS_PER_SEC;

/// The fixed-point scale: rates are nanoseconds per cycle times 2^32.
pub const RATE_ONE: u64 = 0x1_0000_0000;

/// The largest representable rate, 1024 nanoseconds per cycle.
pub const RATE_MAX: u64 = 0x400_0000_0000;

/// The largest accepted calibration interval, about 18 minutes.
pub const INTERVAL_MAX: i64 = 0x100_0000_0000;

/// A value clamped into an inclusive range.
pub open spec fn spec_clamp(x: int, lo: int, hi: int) -> int {
    if x < lo { lo } else if x > hi { hi } else { x }
}

/// Division truncating toward zero, for a positive divisor.
pub open spec fn spec_tdiv(a: int, b: int) -> int {
    if a >= 0 { a / b } else { -((-a) / b) }
}

/// The calibrated clock parameters.
pub struct TscParams {
    pub base_tsc: i64,
    pub base_ns: i64,
    pub base_ns_err: i64,
    pub next_calibrate_tsc: i64,
    pub ns_per_tsc_q32: u64,
    pub calibrate_interval_ns: i64,
    pub param_seq: u64,
}

impl TscParams {
    /// The cycle reading of the calibration base point.
    pub open spec fn spec_base_tsc(&self) -> int { self.base_tsc as int }

    /// The nanosecond reading of the calibration base point.
    pub open spec fn spec_base_ns(&self) -> int { self.base_ns as int }

    /// The model error recorded at the last calibration.
    pub open spec fn spec_base_ns_err(&self) -> int { self.base_ns_err as int }

    /// The cycle reading at which the next calibration is due.
    pub open spec fn spec_next_calibrate_tsc(&self) -> int { self.next_calibrate_tsc as int }

    /// Nanoseconds per cycle, scaled by 2^32.
    pub open spec fn spec_rate(&self) -> int { self.ns_per_tsc_q32 as int }

    /// The calibration period in nanoseconds.
    pub open spec fn spec_interval(&self) -> int { self.calibrate_interval_ns as int }

    /// The seqlock sequence number.
    pub open spec fn spec_seq(&self) -> int { self.param_seq as int }

    /// Well-formed parameters: base point in the epoch era, a positive
    /// bounded rate, a bounded positive interval, and an even (stable)
    /// sequence number.
    pub open spec fn wf(&self) -> bool {
        &&& 0 <= self.spec_base_tsc()
        &&& 0 <= self.spec_base_ns()
        &&& 0 <= self.spec_next_calibrate_tsc()
        &&& 1 <= self.spec_rate() <= RATE_MAX
        &&& 1000 < self.spec_interval() <= INTERVAL_MAX
        &&& self.spec_seq() % 2 == 0
    }

    /// The exact nanosecond value the clock assigns to a cycle reading:
    /// the base nanoseconds plus the scaled cycle distance, clamped into
    /// the representable epoch range.
    pub open spec fn spec_tsc2ns(&self, tsc: int) -> int {
        let raw = if tsc >= self.spec_base_tsc() {
            self.spec_base_ns() + (tsc - self.spec_base_tsc()) * self.spec_rate() / (RATE_ONE as int)
        } else {
            self.spec_base_ns() - (self.spec_base_tsc() - tsc) * self.spec_rate() / (RATE_ONE as int)
        };
        spec_clamp(raw, 0, i64::MAX as int)
    }

    /// The cycle reading of the calibration base point.
    pub fn base_tsc(&self) -> (r: i64)
        ensures r == self.spec_base_tsc(),
    { self.base_tsc }

    /// The nanosecond reading of the calibration base point.
    pub fn base_ns(&self) -> (r: i64)
        ensures r == self.spec_base_ns(),
    { self.base_ns }

    /// Nanoseconds per cycle, scaled by 2^32.
    pub fn get_ns_per_tsc(&self) -> (r: u64)
        ensures r == self.spec_rate(),
    { self.ns_per_tsc_q32 }

    /// The seqlock sequence number.
    pub fn param_seq(&self) -> (r: u64)
        ensures r == self.spec_seq(),
    { self.param_seq }

    /// The cycle reading at which the next calibration is due.
    pub fn next_calibrate_tsc(&self) -> (r: i64)
        ensures r == self.spec_next_calibrate_tsc(),
    { self.next_calibrate_tsc }

    /// Builds a parameter block directly from its raw values.
    pub fn from_raw(base_tsc: i64, base_ns: i64, ns_per_tsc_q32: u64, calibrate_interval_ns: i64)
        -> (r: Self)
        requires
            0 <= base_tsc,
            0 <= base_ns,
            1 <= ns_per_tsc_q32 <= RATE_MAX,
            1000 < calibrate_interval_ns <= INTERVAL_MAX,
        ensures
            r.wf(),
            r.spec_base_tsc() == base_tsc,
            r.spec_base_ns() == base_ns,
            r.spec_rate() == ns_per_tsc_q32,
            r.spec_interval() == calibrate_interval_ns,
            r.spec_base_ns_err() == 0,
            r.spec_next_calibrate_tsc() == 0,
            r.spec_seq() == 0,
    {
        TscParams {
            base_tsc,
            base_ns,
            base_ns_err: 0,
            next_calibrate_tsc: 0,
            ns_per_tsc_q32,
            calibrate_interval_ns,
            param_seq: 0,
        }
    }

    /// Converts a cycle reading to nanoseconds under the current parameters.
    pub fn tsc2ns(&self, tsc: i64) -> (r: i64)
        requires
            self.wf(),
        ensures
            r == self.spec_tsc2ns(tsc as int),
            0 <= r,
    {
        let base_tsc = self.base_tsc as i128;
        let t = tsc as i128;
        let rate = self.ns_per_tsc_q32 as i128;
        let d: i128 = if t >= base_tsc { t - base_tsc } else { base_tsc - t };
        proof {
            let db = d as int;
            let rt = rate as int;
            assert(db * rt >= 0) by (nonlinear_arith)
                requires db >= 0 && rt >= 1;
            assert(db * rt <= 0x2_0000_0000_0000_0000 * (RATE_MAX as int))
                by (nonlinear_arith)
                requires 0 <= db <= 0x2_0000_0000_0000_0000 && 1 <= rt <= RATE_MAX as int;
            lemma_fundamental_div_mod(db * rt, RATE_ONE as int);
            lemma_mod_bound(db * rt, RATE_ONE as int);
        }
        let scaled: i128 = (d * rate) / (RATE_ONE as i128);
        let raw: i128 = if t >= base_tsc {
            self.base_ns as i128 + scaled
        } else {
            self.base_ns as i128 - scaled
        };
        if raw < 0 {
            0
        } else if raw > i64::MAX as i128 {
            i64::MAX
        } else {
            raw as i64
        }
    }
}

/// Conversion is monotone: a later cycle reading never maps to an earlier
/// nanosecond value, so the rendered timestamps of one producer's messages
/// are non-decreasing in their capture order.
pub proof fn lemma_tsc2ns_monotonic(p: TscParams, t1: int, t2: int)
    requires
        p.wf(),
        t1 <= t2,
    ensures
        p.spec_tsc2ns(t1) <= p.spec_tsc2ns(t2),
{
    let b = p.spec_base_tsc();
    let m = p.spec_rate();
    let q = RATE_ONE as int;
    if t1 >= b {
        assert((t1 - b) * m <= (t2 - b) * m) by (nonlinear_arith)
            requires t1 <= t2 && m >= 0;
        vstd::arithmetic::div_mod::lemma_div_is_ordered((t1 - b) * m, (t2 - b) * m, q);
    } else if t2 >= b {
        assert((b - t1) * m >= 0) by (nonlinear_arith)
            requires b - t1 >= 0 && m >= 0;
        assert((t2 - b) * m >= 0) by (nonlinear_arith)
            requires t2 - b >= 0 && m >= 0;
        vstd::arithmetic::div_mod::lemma_div_pos_is_pos((b - t1) * m, q);
        vstd::arithmetic::div_mod::lemma_div_pos_is_pos((t2 - b) * m, q);
    } else {
        assert((b - t2) * m <= (b - t1) * m) by (nonlinear_arith)
            requires t1 <= t2 && m >= 0;
        vstd::arithmetic::div_mod::lemma_div_is_ordered((b - t2) * m, (b - t1) * m, q);
    }
}

/// Division truncating toward zero, for a positive divisor.
fn tdiv_i128(a: i128, b: i128) -> (r: i128)
    requires
        b > 0,
        -0x4000_0000_0000_0000_0000_0000_0000_0000 < a,
    ensures
        r == spec_tdiv(a as int, b as int),
{
    if a >= 0 {
        proof {
            lemma_fundamental_div_mod(a as int, b as int);
            lemma_mod_bound(a as int, b as int);
        }
        a / b
    } else {
        let n = -a;
        proof {
            lemma_fundamental_div_mod(n as int, b as int);
            lemma_mod_bound(n as int, b as int);
        }
        -(n / b)
    }
}

/// The parameter block after a commit of a new base point and rate: the
/// model error is re-based, the next calibration deadline is scheduled, and
/// the sequence number advances by two, staying even.
pub open spec fn spec_save_param(
    p: TscParams, base_tsc: int, base_ns: int, sys_ns: int, rate: int,
) -> TscParams {
    let deadline = spec_clamp(
        base_tsc + (p.spec_interval() - 1000) * (RATE_ONE as int) / rate,
        0,
        i64::MAX as int,
    );
    TscParams {
        base_tsc: base_tsc as i64,
        base_ns: base_ns as i64,
        base_ns_err: (base_ns - sys_ns) as i64,
        next_calibrate_tsc: deadline as i64,
        ns_per_tsc_q32: rate as u64,
        calibrate_interval_ns: (p.spec_interval()) as i64,
        param_seq: ((p.spec_seq() + 2) % 0x1_0000_0000_0000_0000) as u64,
    }
}

impl TscParams {
    /// Commits a new base point and rate under the seqlock discipline.
    fn save_param(&mut self, base_tsc: i64, base_ns: i64, sys_ns: i64, rate: u64)
        requires
            old(self).wf(),
            0 <= base_tsc,
            0 <= base_ns,
            1 <= rate <= RATE_MAX,
            -0x8000_0000_0000_0000 < base_ns - sys_ns < 0x8000_0000_0000_0000,
        ensures
            final(self).wf(),
            *final(self) == spec_save_param(*old(self), base_tsc as int, base_ns as int,
                sys_ns as int, rate as int),
    {
        proof {
            let iv = old(self).spec_interval() - 1000;
            assert(iv * (RATE_ONE as int) <= (INTERVAL_MAX as int) * (RATE_ONE as int))
                by (nonlinear_arith)
                requires 0 < iv <= INTERVAL_MAX as int;
            assert(iv * (RATE_ONE as int) >= 0) by (nonlinear_arith)
                requires iv >= 0;
            lemma_fundamental_div_mod(iv * (RATE_ONE as int), rate as int);
            lemma_mod_bound(iv * (RATE_ONE as int), rate as int);
        }
        let num: i128 = (self.calibrate_interval_ns as i128 - 1000) * (RATE_ONE as i128);
        let step: i128 = num / (rate as i128);
        let wide_deadline: i128 = base_tsc as i128 + step;
        let deadline: i64 = if wide_deadline > i64::MAX as i128 {
            i64::MAX
        } else {
            wide_deadline as i64
        };
        self.base_tsc = base_tsc;
        self.base_ns = base_ns;
        self.base_ns_err = base_ns - sys_ns;
        self.next_calibrate_tsc = deadline;
        self.ns_per_tsc_q32 = rate;
        self.param_seq = self.param_seq.wrapping_add(2);
        proof {
            let s = old(self).spec_seq();
            if s + 2 < 0x1_0000_0000_0000_0000 {
                vstd::arithmetic::div_mod::lemma_small_mod((s + 2) as nat, 0x1_0000_0000_0000_0000);
            } else {
                assert(s == 0xFFFF_FFFF_FFFF_FFFE);
                vstd::arithmetic::div_mod::lemma_mod_self_0(0x1_0000_0000_0000_0000);
                assert((s + 2) % 0x1_0000_0000_0000_0000 == 0);
            }
        }
    }

    /// Initializes the parameters from two calibration samples: the rate is
    /// the nanosecond distance over the cycle distance, clamped into the
    /// representable range.
    pub fn init(base_tsc: i64, base_ns: i64, delayed_tsc: i64, delayed_ns: i64,
        calibrate_interval_ns: i64) -> (r: TscParams)
        requires
            0 <= base_tsc < delayed_tsc,
            0 <= base_ns <= delayed_ns,
            1000 < calibrate_interval_ns <= INTERVAL_MAX,
        ensures
            r.wf(),
            r == spec_save_param(
                TscParams {
                    base_tsc: 0, base_ns: 0, base_ns_err: 0, next_calibrate_tsc: 0,
                    ns_per_tsc_q32: 1, calibrate_interval_ns, param_seq: 0xFFFF_FFFF_FFFF_FFFEu64,
                },
                base_tsc as int, base_ns as int, base_ns as int,
                spec_clamp(
                    (delayed_ns - base_ns) * (RATE_ONE as int) / (delayed_tsc - base_tsc),
                    1,
                    RATE_MAX as int,
                ),
            ),
            r.spec_base_tsc() == base_tsc,
            r.spec_base_ns() == base_ns,
            r.spec_base_ns_err() == 0,
            r.spec_interval() == calibrate_interval_ns,
            r.spec_seq() == 0,
            r.spec_rate() == spec_clamp(
                (delayed_ns - base_ns) * (RATE_ONE as int) / (delayed_tsc - base_tsc),
                1,
                RATE_MAX as int,
            ),
    {
        let dns: i128 = delayed_ns as i128 - base_ns as i128;
        let dtsc: i128 = delayed_tsc as i128 - base_tsc as i128;
        proof {
            assert(dns as int * (RATE_ONE as int) >= 0) by (nonlinear_arith)
                requires dns as int >= 0;
            assert(dns as int * (RATE_ONE as int) <= 0x8000_0000_0000_0000 * (RATE_ONE as int))
                by (nonlinear_arith)
                requires 0 <= dns as int <= 0x8000_0000_0000_0000;
            lemma_fundamental_div_mod(dns as int * (RATE_ONE as int), dtsc as int);
            lemma_mod_bound(dns as int * (RATE_ONE as int), dtsc as int);
        }
        let scaled: i128 = (dns * (RATE_ONE as i128)) / dtsc;
        let rate: u64 = if scaled < 1 {
            1
        } else if scaled > RATE_MAX as i128 {
            RATE_MAX
        } else {
            scaled as u64
        };
        let mut p = TscParams {
            base_tsc: 0,
            base_ns: 0,
            base_ns_err: 0,
            next_calibrate_tsc: 0,
            ns_per_tsc_q32: 1,
            calibrate_interval_ns,
            param_seq: 0xFFFF_FFFF_FFFF_FFFEu64,
        };
        p.save_param(base_tsc, base_ns, base_ns, rate);
        p
    }

    /// The parameter block a calibration step commits, given a fresh sample
    /// pair.  The current model's prediction error is projected one interval
    /// forward using the previous error as a first-order slope, and the rate
    /// is adjusted to cancel the projected error; the adjustment and the
    /// rate are clamped so the rate stays positive and bounded.  When the
    /// deadline has not arrived, or the sample is unusable (time went
    /// backward to the base point), the parameters are unchanged.
    pub open spec fn spec_calibrate(&self, tsc: int, sys_ns: int) -> TscParams {
        if tsc < self.spec_next_calibrate_tsc() {
            *self
        } else {
            let calculated_ns = self.spec_tsc2ns(tsc);
            let ns_err = calculated_ns - sys_ns;
            let denom = sys_ns - self.spec_base_ns() + self.spec_base_ns_err();
            if denom <= 0 {
                *self
            } else {
                let expected = ns_err
                    + spec_tdiv((ns_err - self.spec_base_ns_err()) * self.spec_interval(), denom);
                let adj = spec_clamp(self.spec_interval() - expected, 0, 2 * self.spec_interval());
                let rate = spec_clamp(
                    spec_tdiv(self.spec_rate() * adj, self.spec_interval()),
                    1,
                    RATE_MAX as int,
                );
                spec_save_param(*self, tsc, calculated_ns, sys_ns, rate)
            }
        }
    }

    /// Runs one calibration step on a fresh sample pair.
    pub fn calibrate(&mut self, tsc: i64, sys_ns: i64)
        requires
            old(self).wf(),
            0 <= tsc,
            0 <= sys_ns,
        ensures
            final(self).wf(),
            *final(self) == old(self).spec_calibrate(tsc as int, sys_ns as int),
    {
        if tsc < self.next_calibrate_tsc {
            return;
        }
        let calculated_ns: i64 = self.tsc2ns(tsc);
        let ns_err: i128 = calculated_ns as i128 - sys_ns as i128;
        let denom: i128 = sys_ns as i128 - self.base_ns as i128 + self.base_ns_err as i128;
        if denom <= 0 {
            return;
        }
        proof {
            let a = ns_err as int - old(self).spec_base_ns_err();
            let iv = old(self).spec_interval();
            assert(-0x4_0000_0000_0000_0000 < a < 0x4_0000_0000_0000_0000);
            assert(-0x4_0000_0000_0000_0000 * (INTERVAL_MAX as int)
                <= a * iv
                <= 0x4_0000_0000_0000_0000 * (INTERVAL_MAX as int)) by (nonlinear_arith)
                requires -0x4_0000_0000_0000_0000 <= a <= 0x4_0000_0000_0000_0000
                    && 0 <= iv <= INTERVAL_MAX as int;
        }
        let slope_num: i128 = (ns_err - self.base_ns_err as i128)
            * (self.calibrate_interval_ns as i128);
        let expected: i128 = ns_err + tdiv_i128(slope_num, denom);
        let interval: i128 = self.calibrate_interval_ns as i128;
        let adj: i128 = if interval - expected < 0 {
            0
        } else if interval - expected > 2 * interval {
            2 * interval
        } else {
            interval - expected
        };
        proof {
            let rt = old(self).spec_rate();
            let aj = adj as int;
            assert(0 <= rt * aj <= (RATE_MAX as int) * (2 * (INTERVAL_MAX as int)))
                by (nonlinear_arith)
                requires 0 <= aj <= 2 * (INTERVAL_MAX as int) && 1 <= rt <= RATE_MAX as int;
        }
        let prod: i128 = self.ns_per_tsc_q32 as i128 * adj;
        let scaled: i128 = tdiv_i128(prod, interval);
        let rate: u64 = if scaled < 1 {
            1
        } else if scaled > RATE_MAX as i128 {
            RATE_MAX
        } else {
            scaled as u64
        };
        self.save_param(tsc, calculated_ns, sys_ns, rate);
    }
}

/// The seqlock discipline of parameter publication: a calibration step
/// either leaves the whole parameter block untouched, or commits a fresh
/// `(base_tsc, base_ns, ns_per_tsc)` tuple and advances the sequence number
/// by exactly two, keeping it even.  A reader that samples an even sequence
/// number before and after its computation and sees the same value twice
/// therefore read one tuple that existed atomically.
pub proof fn lemma_seqlock_discipline(p: TscParams, tsc: int, sys_ns: int)
    requires
        p.wf(),
    ensures
        p.spec_calibrate(tsc, sys_ns) == p
            || p.spec_calibrate(tsc, sys_ns).spec_seq()
                == (p.spec_seq() + 2) % 0x1_0000_0000_0000_0000,
        p.spec_calibrate(tsc, sys_ns).spec_seq() % 2 == 0,
{
    let q = p.spec_calibrate(tsc, sys_ns);
    if q != p {
        let s = p.spec_seq();
        if s + 2 < 0x1_0000_0000_0000_0000 {
            lemma_small_mod((s + 2) as nat, 0x1_0000_0000_0000_0000nat);
        } else {
            assert(s == 0xFFFF_FFFF_FFFF_FFFE);
            lemma_mod_self_0(0x1_0000_0000_0000_0000);
        }
    }
}

/// Picks the calibration sample pair with the tightest cycle bracket: among
/// adjacent sample pairs, the one whose cycle distance is smallest, and
/// returns the midpoint of its cycle bracket with its nanosecond reading.
pub fn select_sync_pair(tsc: &Vec<i64>, ns: &Vec<i64>) -> (r: (i64, i64))
    requires
        tsc@.len() == ns@.len(),
        tsc@.len() >= 2,
        forall|i: int| 0 <= i < tsc@.len() ==> 0 <= #[trigger] tsc@[i] <= 0x2000_0000_0000_0000,
        forall|i: int| 0 <= i < tsc@.len() - 1 ==> #[trigger] tsc@[i] <= tsc@[i + 1],
    ensures
        exists|best: int| {
            &&& 1 <= best < tsc@.len()
            &&& r.0 == (tsc@[best] + tsc@[best - 1]) / 2
            &&& r.1 == ns@[best]
            &&& forall|i: int| 1 <= i < tsc@.len()
                ==> tsc@[best] - tsc@[best - 1] <= #[trigger] tsc@[i] - tsc@[i - 1]
        },
{
    let mut best: usize = 1;
    let mut i: usize = 2;
    while i < tsc.len()
        invariant
            tsc@.len() == ns@.len(),
            2 <= i <= tsc@.len(),
            1 <= best < i,
            best < tsc@.len(),
            forall|j: int| 0 <= j < tsc@.len() ==> 0 <= #[trigger] tsc@[j] <= 0x2000_0000_0000_0000,
            forall|j: int| 0 <= j < tsc@.len() - 1 ==> #[trigger] tsc@[j] <= tsc@[j + 1],
            forall|j: int| 1 <= j < i
                ==> tsc@[best as int] - tsc@[best as int - 1] <= #[trigger] tsc@[j] - tsc@[j - 1],
        decreases tsc@.len() - i,
    {
        if tsc[i] - tsc[i - 1] < tsc[best] - tsc[best - 1] {
            best = i;
        }
        i = i + 1;
    }
    let mid: i64 = (tsc[best] + tsc[best - 1]) / 2;
    proof {
        lemma_fundamental_div_mod(tsc@[best as int] + tsc@[best as int - 1], 2);
        lemma_mod_bound(tsc@[best as int] + tsc@[best as int - 1], 2);
    }
    (mid, ns[best])
}

} // verus!
