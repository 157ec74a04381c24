//! Unit conversion: ticks to CPU seconds, CPU seconds to watt-hours.

use vstd::prelude::*;
use vstd::arithmetic::div_mod::lemma_div_denominator;
use vstd::arithmetic::mul::lemma_mul_is_associative;

verus! {

/// Seconds in one hour, the divisor between watt-seconds and watt-hours.
pub const SECONDS_PER_HOUR: u64 = 3600;

/// Milliwatts in one watt.
pub const MILLIWATTS_PER_WATT: u64 = 1000;

/// The OS clock rate: how many scheduler ticks make one second.
///
/// One tick lasts `1 / ticks_per_second` seconds.
#[derive(Clone, Copy, Debug, PartialEq, Eq)]
pub struct ClockRate {
    ticks_per_second: u64,
}

impl ClockRate {
    pub open spec fn wf(&self) -> bool {
        self.rate() > 0
    }

    pub closed spec fn rate(&self) -> nat {
        self.ticks_per_second as nat
    }

    /// A clock rate from the number of ticks per second the OS reports;
    /// `None` where that number is not positive.
    pub fn from_ticks_per_second(ticks_per_second: isize) -> (r: Option<ClockRate>)
        ensures
            r is Some <==> ticks_per_second > 0,
            r matches Some(c) ==> c.wf() && c.rate() == ticks_per_second,
    {
        if ticks_per_second > 0 {
            Some(ClockRate { ticks_per_second: ticks_per_second as u64 })
        } else {
            None
        }
    }

    pub fn ticks_per_second(&self) -> (r: u64)
        ensures
            r == self.rate(),
    {
        self.ticks_per_second
    }
}

/// The power model: a configured average die power shared evenly by the
/// physical cores. The average power of one core is exactly
/// `die_milliwatts / num_physical_cores` milliwatts, a rational number that
/// is never rounded inside the library.
#[derive(Clone, Copy, Debug, PartialEq, Eq)]
pub struct PowerModel {
    die_milliwatts: u64,
    num_physical_cores: u64,
}

impl PowerModel {
    pub open spec fn wf(&self) -> bool {
        self.cores() > 0
    }

    pub closed spec fn die(&self) -> nat {
        self.die_milliwatts as nat
    }

    pub closed spec fn cores(&self) -> nat {
        self.num_physical_cores as nat
    }

    /// A power model from the die power in milliwatts and the number of
    /// physical cores; `None` where there are no cores to share it.
    pub fn new(die_milliwatts: u64, num_physical_cores: u64) -> (r: Option<PowerModel>)
        ensures
            r is Some <==> num_physical_cores > 0,
            r matches Some(p) ==> p.wf() && p.die() == die_milliwatts
                && p.cores() == num_physical_cores,
    {
        if num_physical_cores > 0 {
            Some(PowerModel { die_milliwatts, num_physical_cores })
        } else {
            None
        }
    }

    pub fn die_milliwatts(&self) -> (r: u64)
        ensures
            r == self.die(),
    {
        self.die_milliwatts
    }

    pub fn num_physical_cores(&self) -> (r: u64)
        ensures
            r == self.cores(),
    {
        self.num_physical_cores
    }

    /// The average power of one core in milliwatts, rounded down; exact where
    /// the core count divides the die power.
    pub fn average_core_milliwatts(&self) -> (r: u64)
        requires
            self.wf(),
        ensures
            r == self.die() / self.cores(),
    {
        self.die_milliwatts / self.num_physical_cores
    }
}

/// Whole CPU seconds in `ticks` ticks: `floor(ticks * (1 / rate))`.
pub open spec fn cpu_seconds_of(ticks: nat, rate: nat) -> nat {
    ticks / rate
}

/// Whole watt-hours used by a core of average power `die / cores` milliwatts
/// during `ticks / rate` seconds: `floor(seconds * watts / 3600)` with
/// `seconds = ticks / rate` and `watts = die / (cores * 1000)`, written over a
/// common denominator so that neither quotient is rounded.
pub open spec fn energy_wh_of(ticks: nat, rate: nat, die: nat, cores: nat) -> nat {
    (ticks * die) / (rate * cores * (SECONDS_PER_HOUR * MILLIWATTS_PER_WATT) as nat)
}

/// The stored energy value: `energy_wh_of`, held at the largest `u64`.
pub open spec fn stored_energy_wh(ticks: nat, rate: nat, die: nat, cores: nat) -> nat {
    let e = energy_wh_of(ticks, rate, die, cores);
    if e > u64::MAX { u64::MAX as nat } else { e }
}

/// Cumulative whole CPU seconds for a process that has run `total_ticks`
/// ticks. The fraction of a second is dropped.
pub fn cpu_seconds(total_ticks: u64, clock: ClockRate) -> (r: u64)
    requires
        clock.wf(),
    ensures
        r == cpu_seconds_of(total_ticks as nat, clock.rate()),
        r as nat * clock.rate() <= total_ticks,
        total_ticks < (r as nat + 1) * clock.rate(),
{
    let r = total_ticks / clock.ticks_per_second;
    proof {
        let t = total_ticks as int;
        let q = clock.rate() as int;
        vstd::arithmetic::div_mod::lemma_fundamental_div_mod(t, q);
        let m = t % q;
        assert(r * q <= t && t < (r + 1) * q) by (nonlinear_arith)
            requires
                t == q * r + m,
                0 <= m < q,
        ;
    }
    r
}

/// Cumulative whole watt-hours for a process that has run `total_ticks` ticks,
/// from the unrounded CPU time and the exact average core power. The fraction
/// of a watt-hour is dropped; a value beyond `u64` is held at `u64::MAX`.
pub fn energy_wh(total_ticks: u64, clock: ClockRate, power: PowerModel) -> (r: u64)
    requires
        clock.wf(),
        power.wf(),
    ensures
        r == stored_energy_wh(total_ticks as nat, clock.rate(), power.die(), power.cores()),
{
    let t = total_ticks as u128;
    let d = power.die_milliwatts as u128;
    let c = clock.ticks_per_second as u128;
    let n = power.num_physical_cores as u128;
    assert(t * d <= u128::MAX) by (nonlinear_arith)
        requires t <= u64::MAX, d <= u64::MAX;
    assert(c * n <= u128::MAX) by (nonlinear_arith)
        requires c <= u64::MAX, n <= u64::MAX;
    assert(c * n > 0) by (nonlinear_arith)
        requires c > 0, n > 0;
    let per_second = (t * d) / (c * n);
    let e = per_second / ((SECONDS_PER_HOUR * MILLIWATTS_PER_WATT) as u128);
    proof {
        lemma_div_denominator((t * d) as int, (c * n) as int, 3_600_000);
        lemma_mul_is_associative(c as int, n as int, 3_600_000);
    }
    if e > u64::MAX as u128 {
        u64::MAX
    } else {
        e as u64
    }
}

/// The energy estimate equals `floor(cpu_seconds * average_core_power / 3600)`
/// for whole CPU seconds and a whole-milliwatt core power: with `ticks` a
/// multiple of the rate and `die` a multiple of the core count, the value is
/// `(cpu_seconds * core_mw) / 3_600_000`.
pub proof fn lemma_energy_of_whole_values(seconds: nat, rate: nat, core_mw: nat, cores: nat)
    requires
        rate > 0,
        cores > 0,
    ensures
        energy_wh_of(seconds * rate, rate, core_mw * cores, cores)
            == (seconds * core_mw) / ((SECONDS_PER_HOUR * MILLIWATTS_PER_WATT) as nat),
{
    let k = (SECONDS_PER_HOUR * MILLIWATTS_PER_WATT) as int;
    assert((seconds * rate) * (core_mw * cores) == (seconds * core_mw) * (rate * cores))
        by (nonlinear_arith);
    assert(rate * cores > 0) by (nonlinear_arith) requires rate > 0, cores > 0;
    lemma_div_denominator(((seconds * core_mw) * (rate * cores)) as int, (rate * cores) as int, k);
    vstd::arithmetic::div_mod::lemma_div_multiples_vanish((seconds * core_mw) as int, (rate * cores) as int);
    vstd::arithmetic::mul::lemma_mul_is_commutative((seconds * core_mw) as int, (rate * cores) as int);
    lemma_mul_is_associative(rate as int, cores as int, k);
}

} // verus!
