//! The sampling engine: startup, one sampling pass, and what passes keep.

use vstd::prelude::*;
use crate::convert::{
    cpu_seconds, cpu_seconds_of, energy_wh, energy_wh_of, stored_energy_wh, ClockRate,
    PowerModel,
};
use crate::stat::{process_ticks, record_view, sampled_ticks};
use crate::store::{IdentityView, MetricSample, ProcessIdentity, Store};

verus! {

#[verifier::external_type_specification]
#[verifier::external_body]
pub struct ExSysconfError(sysconf::raw::SysconfError);

/// Relies on sysconf::raw::sysconf for `_SC_CLK_TCK`, the OS clock rate in
/// ticks per second; the crate maps the C error value -1 to `Err`, so an `Ok`
/// value is never -1.
#[verifier::external_body]
fn query_ticks_per_second() -> (r: Result<isize, sysconf::raw::SysconfError>)
    ensures
        r matches Ok(v) ==> v != -1,
{
    sysconf::raw::sysconf(sysconf::raw::SysconfVariable::ScClkTck)
}

/// Relies on num_cpus::get_physical: the number of physical cores the OS
/// reports, documented to be at least 1.
#[verifier::external_body]
fn query_physical_cores() -> (r: usize)
    ensures
        r >= 1,
{
    num_cpus::get_physical()
}

/// Why the engine could not start.
#[derive(Clone, Copy, Debug, PartialEq, Eq)]
pub enum StartupError {
    /// The OS reported no positive clock rate.
    ClockRateUnavailable,
    /// The OS reported no physical core.
    NoPhysicalCores,
}

/// What the OS gave for one process in a pass: its identity, and the bytes of
/// its accounting record or `None` where the read failed.
#[derive(Clone, Debug, PartialEq, Eq)]
pub struct Observation {
    pub identity: ProcessIdentity,
    pub record: Option<Vec<u8>>,
}

pub type ObservationView = (IdentityView, Option<Seq<u8>>);

impl View for Observation {
    type V = ObservationView;

    open spec fn view(&self) -> ObservationView {
        (self.identity@, record_view(&self.record))
    }
}

pub open spec fn observations_view(obs: Seq<Observation>) -> Seq<ObservationView> {
    obs.map_values(|o: Observation| o@)
}

/// The sample that `ticks` ticks give under a clock rate and a power model.
pub open spec fn sample_for(ticks: nat, clock: ClockRate, power: PowerModel) -> MetricSample {
    MetricSample {
        cpu_seconds: cpu_seconds_of(ticks, clock.rate()) as u64,
        energy_wh: stored_energy_wh(ticks, clock.rate(), power.die(), power.cores()) as u64,
    }
}

/// The store after a pass over `obs`, in order, starting from `m`: each
/// observation sets its identity's sample from the ticks read.
pub open spec fn pass_result(
    m: Map<IdentityView, MetricSample>,
    obs: Seq<ObservationView>,
    clock: ClockRate,
    power: PowerModel,
) -> Map<IdentityView, MetricSample>
    decreases obs.len(),
{
    if obs.len() == 0 {
        m
    } else {
        pass_result(m, obs.drop_last(), clock, power).insert(
            obs.last().0,
            sample_for(sampled_ticks(obs.last().1), clock, power),
        )
    }
}

/// The sampling engine: the clock rate and power model resolved once at
/// startup, and the metric store that every pass updates.
pub struct Sampler {
    clock: ClockRate,
    power: PowerModel,
    store: Store,
}

impl Sampler {
    pub closed spec fn wf(&self) -> bool {
        self.clock.wf() && self.power.wf() && self.store.wf()
    }

    pub closed spec fn clock_spec(&self) -> ClockRate {
        self.clock
    }

    pub closed spec fn power_spec(&self) -> PowerModel {
        self.power
    }

    pub closed spec fn store_spec(&self) -> Store {
        self.store
    }

    /// An engine with an empty store, from the clock rate and the physical
    /// core count that the OS reported and the configured die power.
    pub fn start(ticks_per_second: isize, physical_cores: usize, die_milliwatts: u64) -> (r:
        Result<Sampler, StartupError>)
        ensures
            ticks_per_second <= 0 ==> r == Err::<Sampler, StartupError>(
                StartupError::ClockRateUnavailable,
            ),
            ticks_per_second > 0 && physical_cores == 0 ==> r == Err::<Sampler, StartupError>(
                StartupError::NoPhysicalCores,
            ),
            ticks_per_second > 0 && physical_cores > 0 ==> r is Ok,
            r matches Ok(s) ==> s.wf() && s.clock_spec().wf() && s.power_spec().wf()
                && s.clock_spec().rate() == ticks_per_second
                && s.power_spec().die() == die_milliwatts && s.power_spec().cores()
                == physical_cores && s.store_spec()@ == Map::<IdentityView, MetricSample>::empty(),
    {
        let clock = match ClockRate::from_ticks_per_second(ticks_per_second) {
            Some(c) => c,
            None => return Err(StartupError::ClockRateUnavailable),
        };
        let power = match PowerModel::new(die_milliwatts, physical_cores as u64) {
            Some(p) => p,
            None => return Err(StartupError::NoPhysicalCores),
        };
        Ok(Sampler { clock, power, store: Store::new() })
    }

    /// An engine with an empty store, with the clock rate and the physical
    /// core count asked of the OS.
    pub fn resolve(die_milliwatts: u64) -> (r: Result<Sampler, StartupError>)
        ensures
            r matches Ok(s) ==> s.wf() && s.clock_spec().wf() && s.power_spec().wf()
                && s.power_spec().die() == die_milliwatts && s.power_spec().cores() >= 1
                && s.store_spec()@ == Map::<IdentityView, MetricSample>::empty(),
            r matches Err(e) ==> e == StartupError::ClockRateUnavailable,
    {
        let ticks_per_second = match query_ticks_per_second() {
            Ok(t) => t,
            Err(_) => return Err(StartupError::ClockRateUnavailable),
        };
        Sampler::start(ticks_per_second, query_physical_cores(), die_milliwatts)
    }

    pub fn clock(&self) -> (r: ClockRate)
        ensures
            r == self.clock_spec(),
    {
        self.clock
    }

    pub fn power(&self) -> (r: PowerModel)
        ensures
            r == self.power_spec(),
    {
        self.power
    }

    pub fn store(&self) -> (r: &Store)
        ensures
            r == self.store_spec(),
    {
        &self.store
    }

    /// The sample for `total_ticks` ticks under this engine's clock rate and
    /// power model.
    pub fn convert(&self, total_ticks: u64) -> (r: MetricSample)
        requires
            self.wf(),
        ensures
            r == sample_for(total_ticks as nat, self.clock_spec(), self.power_spec()),
    {
        MetricSample {
            cpu_seconds: cpu_seconds(total_ticks, self.clock),
            energy_wh: energy_wh(total_ticks, self.clock, self.power),
        }
    }

    /// One sampling pass: every observation in order sets its identity's
    /// sample from the ticks its record states, or from zero ticks where the
    /// read failed. The clock rate and power model are left as they are.
    pub fn run_pass(&mut self, observations: &Vec<Observation>)
        requires
            old(self).wf(),
        ensures
            final(self).wf(),
            final(self).clock_spec() == old(self).clock_spec(),
            final(self).power_spec() == old(self).power_spec(),
            final(self).store_spec()@ == pass_result(
                old(self).store_spec()@,
                observations_view(observations@),
                old(self).clock_spec(),
                old(self).power_spec(),
            ),
    {
        let ghost start = self.store@;
        let ghost obs = observations_view(observations@);
        let mut i: usize = 0;
        while i < observations.len()
            invariant
                self.wf(),
                self.clock == old(self).clock,
                self.power == old(self).power,
                i <= observations@.len(),
                obs == observations_view(observations@),
                self.store@ == pass_result(start, obs.take(i as int), self.clock, self.power),
            decreases observations@.len() - i,
        {
            let o = &observations[i];
            let ticks = process_ticks(&o.record);
            let sample = self.convert(ticks);
            self.store.upsert(o.identity.duplicate(), sample);
            assert(obs.take(i + 1).drop_last() =~= obs.take(i as int));
            i = i + 1;
        }
        assert(obs.take(i as int) =~= obs);
    }
}

/// A pass from `m` holds what `m` holds, overwritten by what the pass alone
/// gives from an empty store.
proof fn lemma_pass_is_union(
    m: Map<IdentityView, MetricSample>,
    obs: Seq<ObservationView>,
    clock: ClockRate,
    power: PowerModel,
)
    ensures
        pass_result(m, obs, clock, power) == m.union_prefer_right(
            pass_result(Map::empty(), obs, clock, power),
        ),
    decreases obs.len(),
{
    if obs.len() == 0 {
        assert(m.union_prefer_right(Map::empty()) =~= m);
    } else {
        lemma_pass_is_union(m, obs.drop_last(), clock, power);
        assert(pass_result(m, obs, clock, power) =~= m.union_prefer_right(
            pass_result(Map::empty(), obs, clock, power),
        ));
    }
}

/// Repeating a pass over the same readings leaves the store as one pass left
/// it: repeated upserts of one input do not drift.
pub proof fn lemma_pass_idempotent(
    m: Map<IdentityView, MetricSample>,
    obs: Seq<ObservationView>,
    clock: ClockRate,
    power: PowerModel,
)
    ensures
        pass_result(pass_result(m, obs, clock, power), obs, clock, power) == pass_result(
            m,
            obs,
            clock,
            power,
        ),
{
    let u = pass_result(Map::empty(), obs, clock, power);
    lemma_pass_is_union(m, obs, clock, power);
    lemma_pass_is_union(pass_result(m, obs, clock, power), obs, clock, power);
    assert(m.union_prefer_right(u).union_prefer_right(u) =~= m.union_prefer_right(u));
}

/// After a pass, an identity's sample is the one its last reading in the pass
/// gives, whatever the store held before and whatever other processes read.
pub proof fn lemma_last_reading_wins(
    m: Map<IdentityView, MetricSample>,
    obs: Seq<ObservationView>,
    clock: ClockRate,
    power: PowerModel,
    j: int,
)
    requires
        0 <= j < obs.len(),
        forall|l: int| j < l < obs.len() ==> (#[trigger] obs[l]).0 != obs[j].0,
    ensures
        pass_result(m, obs, clock, power).contains_key(obs[j].0),
        pass_result(m, obs, clock, power)[obs[j].0] == sample_for(
            sampled_ticks(obs[j].1),
            clock,
            power,
        ),
    decreases obs.len(),
{
    if j < obs.len() - 1 {
        assert(obs[obs.len() - 1].0 != obs[j].0);
        lemma_last_reading_wins(m, obs.drop_last(), clock, power, j);
    }
}

/// Where the watt-hours fit in a `u64`, the sample an identity holds after a
/// pass is exact: its last reading of `t` ticks gives `floor(t / rate)` CPU
/// seconds and `floor((t / rate) * (die / cores) / 3600)` watt-hours, from the
/// unrounded CPU time and the power model's own `die / cores`, whatever the
/// store held before and whatever other processes read.
pub proof fn lemma_pass_sample_exact(
    m: Map<IdentityView, MetricSample>,
    obs: Seq<ObservationView>,
    clock: ClockRate,
    power: PowerModel,
    j: int,
)
    requires
        clock.wf(),
        power.wf(),
        0 <= j < obs.len(),
        forall|l: int| j < l < obs.len() ==> (#[trigger] obs[l]).0 != obs[j].0,
        energy_wh_of(sampled_ticks(obs[j].1), clock.rate(), power.die(), power.cores())
            <= u64::MAX,
    ensures
        pass_result(m, obs, clock, power)[obs[j].0].cpu_seconds == cpu_seconds_of(
            sampled_ticks(obs[j].1),
            clock.rate(),
        ),
        pass_result(m, obs, clock, power)[obs[j].0].energy_wh == energy_wh_of(
            sampled_ticks(obs[j].1),
            clock.rate(),
            power.die(),
            power.cores(),
        ),
{
    lemma_last_reading_wins(m, obs, clock, power, j);
    let t = sampled_ticks(obs[j].1);
    assert(t <= u64::MAX);
    let q = clock.rate() as int;
    vstd::arithmetic::div_mod::lemma_fundamental_div_mod(t as int, q);
    let d = t as int / q;
    let m0 = t as int % q;
    assert(d <= t) by (nonlinear_arith)
        requires t as int == q * d + m0, 0 <= m0, q >= 1, d >= 0;
}

/// Two consecutive passes that read `first` and then `second` for one
/// identity leave the sample of `second`: the store holds the latest
/// absolute value and does not add readings up.
pub proof fn lemma_consecutive_passes_overwrite(
    m: Map<IdentityView, MetricSample>,
    id: IdentityView,
    first: Option<Seq<u8>>,
    second: Option<Seq<u8>>,
    clock: ClockRate,
    power: PowerModel,
)
    ensures
        pass_result(
            pass_result(m, seq![(id, first)], clock, power),
            seq![(id, second)],
            clock,
            power,
        )[id] == sample_for(sampled_ticks(second), clock, power),
{
    let once = pass_result(m, seq![(id, first)], clock, power);
    lemma_last_reading_wins(once, seq![(id, second)], clock, power, 0);
}

/// A failed read of one process neither stops nor alters the update of
/// another in the same pass; the failed one is set from zero ticks.
pub proof fn lemma_failed_read_is_isolated(
    m: Map<IdentityView, MetricSample>,
    failed: IdentityView,
    read: IdentityView,
    record: Seq<u8>,
    clock: ClockRate,
    power: PowerModel,
)
    requires
        failed != read,
    ensures
        pass_result(m, seq![(failed, None), (read, Some(record))], clock, power)[read]
            == sample_for(sampled_ticks(Some(record)), clock, power),
        pass_result(m, seq![(read, Some(record)), (failed, None)], clock, power)[read]
            == sample_for(sampled_ticks(Some(record)), clock, power),
        pass_result(m, seq![(failed, None), (read, Some(record))], clock, power)[failed]
            == sample_for(0, clock, power),
{
    let o1: Seq<ObservationView> = seq![(failed, None), (read, Some(record))];
    let o2: Seq<ObservationView> = seq![(read, Some(record)), (failed, None)];
    lemma_last_reading_wins(m, o1, clock, power, 1);
    lemma_last_reading_wins(m, o2, clock, power, 0);
    lemma_last_reading_wins(m, o1, clock, power, 0);
}

/// A pass removes no identity, and leaves the sample of every identity it
/// did not read as it was.
pub proof fn lemma_pass_keeps_entries(
    m: Map<IdentityView, MetricSample>,
    obs: Seq<ObservationView>,
    clock: ClockRate,
    power: PowerModel,
    id: IdentityView,
)
    requires
        m.contains_key(id),
    ensures
        pass_result(m, obs, clock, power).contains_key(id),
        (forall|l: int| 0 <= l < obs.len() ==> (#[trigger] obs[l]).0 != id) ==> pass_result(
            m,
            obs,
            clock,
            power,
        )[id] == m[id],
    decreases obs.len(),
{
    if obs.len() > 0 {
        lemma_pass_keeps_entries(m, obs.drop_last(), clock, power, id);
        if forall|l: int| 0 <= l < obs.len() ==> (#[trigger] obs[l]).0 != id {
            assert(obs[obs.len() - 1].0 != id);
            assert forall|l: int| 0 <= l < obs.drop_last().len() implies (
            #[trigger] obs.drop_last()[l]).0 != id by {
                assert(obs[l].0 != id);
            }
        }
    }
}

} // verus!
