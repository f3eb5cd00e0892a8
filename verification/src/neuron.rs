//! The leaky integrate-and-fire neuron: a single-neuron membrane-potential
//! state machine, advanced by one discrete time step at a time.

use vstd::prelude::*;

use crate::fixed::{
    fx_div, fx_div_spec, fx_mul, fx_mul_spec, sat_add, sat_add_spec, sat_neg, sat_neg_spec, SCALE,
};

verus! {

/// Default spike threshold (1.0).
pub const DEFAULT_THRESHOLD: i64 = 1_000_000;

/// Default reset potential (0.0).
pub const DEFAULT_RESET_POTENTIAL: i64 = 0;

/// Default membrane decay time constant (20.0).
pub const DEFAULT_TAU: i64 = 20_000_000;

/// Default refractory period (5.0).
pub const DEFAULT_REFRACTORY_PERIOD: i64 = 5_000_000;

/// Sentinel spike time (-1.0): any negative value means "never spiked".
pub const NEVER_SPIKED: i64 = -1_000_000;

/// A leaky integrate-and-fire neuron, all quantities in fixed-point
/// millionths.
#[derive(Debug, Clone, Copy)]
pub struct LifNeuron {
    membrane_potential: i64,
    threshold: i64,
    reset_potential: i64,
    tau: i64,
    refractory_period: i64,
    time_since_spike: i64,
    last_spike_time: i64,
    spiked: bool,
}

/// The mathematical state of a neuron.
pub ghost struct NeuronModel {
    pub membrane_potential: int,
    pub threshold: int,
    pub reset_potential: int,
    pub tau: int,
    pub refractory_period: int,
    pub time_since_spike: int,
    pub last_spike_time: int,
    pub spiked: bool,
}

impl View for LifNeuron {
    type V = NeuronModel;

    closed spec fn view(&self) -> NeuronModel {
        NeuronModel {
            membrane_potential: self.membrane_potential as int,
            threshold: self.threshold as int,
            reset_potential: self.reset_potential as int,
            tau: self.tau as int,
            refractory_period: self.refractory_period as int,
            time_since_spike: self.time_since_spike as int,
            last_spike_time: self.last_spike_time as int,
            spiked: self.spiked,
        }
    }
}

/// A mathematical integer that a 64-bit machine word can hold.
pub open spec fn fits_i64(x: int) -> bool {
    i64::MIN <= x <= i64::MAX
}

impl NeuronModel {
    /// Every field fits the machine representation and the decay time
    /// constant is positive, so the leak term is well defined.
    pub open spec fn valid(self) -> bool {
        &&& fits_i64(self.membrane_potential)
        &&& fits_i64(self.threshold)
        &&& fits_i64(self.reset_potential)
        &&& fits_i64(self.tau)
        &&& fits_i64(self.refractory_period)
        &&& fits_i64(self.time_since_spike)
        &&& fits_i64(self.last_spike_time)
        &&& self.tau > 0
    }
}

/// The neuron state after one integration step: the refractory window
/// pins the potential at the reset value; otherwise the potential follows
/// the forward-Euler leaky dynamics and a threshold crossing latches a
/// spike, resets the potential and records the spike time.
pub open spec fn integrate_model(n: NeuronModel, input_current: int, dt: int, current_time: int) -> NeuronModel {
    let time_since = sat_add_spec(n.time_since_spike, dt);
    if time_since < n.refractory_period {
        NeuronModel {
            membrane_potential: n.reset_potential,
            time_since_spike: time_since,
            spiked: false,
            ..n
        }
    } else {
        let leak = fx_div_spec(sat_neg_spec(n.membrane_potential), n.tau);
        let drive = sat_add_spec(leak, input_current);
        let potential = sat_add_spec(n.membrane_potential, fx_mul_spec(dt, drive));
        if potential >= n.threshold {
            NeuronModel {
                membrane_potential: n.reset_potential,
                time_since_spike: 0,
                last_spike_time: current_time,
                spiked: true,
                ..n
            }
        } else {
            NeuronModel {
                membrane_potential: potential,
                time_since_spike: time_since,
                spiked: false,
                ..n
            }
        }
    }
}

/// The model of a neuron fresh from the default constructor.
pub open spec fn default_neuron_model() -> NeuronModel {
    NeuronModel {
        membrane_potential: 0,
        threshold: DEFAULT_THRESHOLD as int,
        reset_potential: DEFAULT_RESET_POTENTIAL as int,
        tau: DEFAULT_TAU as int,
        refractory_period: DEFAULT_REFRACTORY_PERIOD as int,
        time_since_spike: DEFAULT_REFRACTORY_PERIOD as int,
        last_spike_time: NEVER_SPIKED as int,
        spiked: false,
    }
}

impl LifNeuron {
    /// Creates a leaky integrate-and-fire neuron with default parameters.
    /// A fresh neuron has never spiked and starts outside its refractory
    /// window, so it integrates from the very first step.
    pub fn new() -> (r: LifNeuron)
        ensures
            r@ == default_neuron_model(),
            r@.valid(),
    {
        LifNeuron {
            membrane_potential: 0,
            threshold: DEFAULT_THRESHOLD,
            reset_potential: DEFAULT_RESET_POTENTIAL,
            tau: DEFAULT_TAU,
            refractory_period: DEFAULT_REFRACTORY_PERIOD,
            time_since_spike: DEFAULT_REFRACTORY_PERIOD,
            last_spike_time: NEVER_SPIKED,
            spiked: false,
        }
    }

    /// Creates a neuron with the given parameters; a non-positive decay
    /// time constant is rejected before any state exists.
    pub fn with_params(threshold: i64, reset_potential: i64, tau: i64, refractory_period: i64) -> (r: Option<
        LifNeuron,
    >)
        ensures
            tau <= 0 ==> r is None,
            tau > 0 ==> (r matches Some(neuron) && neuron@ == (NeuronModel {
                membrane_potential: 0,
                threshold: threshold as int,
                reset_potential: reset_potential as int,
                tau: tau as int,
                refractory_period: refractory_period as int,
                time_since_spike: refractory_period as int,
                last_spike_time: NEVER_SPIKED as int,
                spiked: false,
            }) && neuron@.valid()),
    {
        if tau <= 0 {
            None
        } else {
            Some(
                LifNeuron {
                    membrane_potential: 0,
                    threshold,
                    reset_potential,
                    tau,
                    refractory_period,
                    time_since_spike: refractory_period,
                    last_spike_time: NEVER_SPIKED,
                    spiked: false,
                },
            )
        }
    }

    /// Integrates the neuron state over a time step and updates spike status.
    pub fn integrate(&mut self, input_current: i64, dt: i64, current_time: i64)
        requires
            old(self)@.valid(),
            dt >= 0,
        ensures
            final(self)@ == integrate_model(old(self)@, input_current as int, dt as int, current_time as int),
            final(self)@.valid(),
    {
        self.time_since_spike = sat_add(self.time_since_spike, dt);
        if self.time_since_spike < self.refractory_period {
            self.membrane_potential = self.reset_potential;
            self.spiked = false;
            return;
        }
        let leak: i64 = fx_div(sat_neg(self.membrane_potential), self.tau);
        let drive: i64 = sat_add(leak, input_current);
        self.membrane_potential = sat_add(self.membrane_potential, fx_mul(dt, drive));
        if self.membrane_potential >= self.threshold {
            self.membrane_potential = self.reset_potential;
            self.time_since_spike = 0;
            self.last_spike_time = current_time;
            self.spiked = true;
        } else {
            self.spiked = false;
        }
    }

    /// Current membrane potential.
    pub fn membrane_potential(&self) -> (r: i64)
        ensures
            r == self@.membrane_potential,
    {
        self.membrane_potential
    }

    /// Whether the neuron spiked on the most recently completed step.
    pub fn spiked(&self) -> (r: bool)
        ensures
            r == self@.spiked,
    {
        self.spiked
    }

    /// Simulation time of the most recent spike; negative if the neuron
    /// never spiked.
    pub fn last_spike_time(&self) -> (r: i64)
        ensures
            r == self@.last_spike_time,
    {
        self.last_spike_time
    }

    /// Time elapsed since the most recent spike.
    pub fn time_since_spike(&self) -> (r: i64)
        ensures
            r == self@.time_since_spike,
    {
        self.time_since_spike
    }
}

/// Magnitude bound under which a driven integration step stays far from
/// the saturation range (one million, in fixed point).
pub const DRIVE_BOUND: i64 = 1_000_000_000_000;

/// Iterated integration with a constant input current, step size and
/// clock value.
pub open spec fn run_model(n: NeuronModel, input_current: int, dt: int, t: int, k: nat) -> NeuronModel
    decreases k,
{
    if k == 0 {
        n
    } else {
        integrate_model(run_model(n, input_current, dt, t, (k - 1) as nat), input_current, dt, t)
    }
}

/// Whether the neuron spikes on at least one of the first `k` steps of a
/// constant drive.
pub open spec fn spikes_within(n: NeuronModel, input_current: int, dt: int, t: int, k: nat) -> bool {
    exists|j: nat| 1 <= j <= k && (#[trigger] run_model(n, input_current, dt, t, j)).spiked
}

/// Magnitudes under which one driven integration step computes exactly,
/// with no truncation at the representation limits: a potential between
/// zero and the threshold, moderate threshold, step size, current and
/// refractory period, and a decay constant of at least one time unit.
pub open spec fn moderate_drive(n: NeuronModel, input_current: int, dt: int) -> bool {
    &&& 0 <= n.membrane_potential <= n.threshold
    &&& 0 < n.threshold <= DRIVE_BOUND
    &&& SCALE <= n.tau <= DRIVE_BOUND
    &&& 0 < dt <= DRIVE_BOUND
    &&& 0 <= input_current <= DRIVE_BOUND
    &&& n.refractory_period <= DRIVE_BOUND
}

/// The net potential gain that one step of a constant drive is sure to
/// deliver: the driven charge less the worst-case leak at threshold.
pub open spec fn drive_gain(n: NeuronModel, input_current: int, dt: int) -> int {
    fx_mul_spec(dt, input_current - fx_div_spec(n.threshold, n.tau))
}

/// Unrolling one step off the front of an iterated run.
proof fn lemma_run_model_peel(n: NeuronModel, input_current: int, dt: int, t: int, k: nat)
    requires
        k >= 1,
    ensures
        run_model(n, input_current, dt, t, k) == run_model(
            integrate_model(n, input_current, dt, t),
            input_current,
            dt,
            t,
            (k - 1) as nat,
        ),
    decreases k,
{
    if k == 1 {
        reveal_with_fuel(run_model, 2);
    } else {
        lemma_run_model_peel(n, input_current, dt, t, (k - 1) as nat);
    }
}

/// One step of a sufficient constant drive outside refraction either
/// spikes or raises the potential by at least the guaranteed gain while
/// keeping every drive condition.
proof fn lemma_drive_step(n: NeuronModel, input_current: int, dt: int, t: int)
    requires
        n.valid(),
        moderate_drive(n, input_current, dt),
        n.time_since_spike >= n.refractory_period,
        drive_gain(n, input_current, dt) >= 1,
    ensures
        ({
            let n1 = integrate_model(n, input_current, dt, t);
            n1.spiked || {
                &&& n1.valid()
                &&& n1.threshold == n.threshold
                &&& n1.tau == n.tau
                &&& n1.refractory_period == n.refractory_period
                &&& n1.time_since_spike >= n1.refractory_period
                &&& moderate_drive(n1, input_current, dt)
                &&& n1.membrane_potential >= n.membrane_potential + drive_gain(n, input_current, dt)
                &&& n1.membrane_potential < n.threshold
            }
        }),
{
    let s = SCALE as int;
    let v = n.membrane_potential;
    let thr = n.threshold;
    let tau = n.tau;
    let time_since = sat_add_spec(n.time_since_spike, dt);
    assert(time_since >= n.refractory_period);
    // the leak on the current potential, and on the threshold
    vstd::arithmetic::mul::lemma_mul_nonnegative(v, s);
    vstd::arithmetic::mul::lemma_mul_nonnegative(thr, s);
    vstd::arithmetic::mul::lemma_mul_inequality(v, thr, s);
    vstd::arithmetic::div_mod::lemma_div_is_ordered(v * s, thr * s, tau);
    vstd::arithmetic::div_mod::lemma_div_pos_is_pos(v * s, tau);
    vstd::arithmetic::div_mod::lemma_div_pos_is_pos(thr * s, tau);
    vstd::arithmetic::div_mod::lemma_div_is_ordered_by_denominator(v * s, s, tau);
    vstd::arithmetic::div_mod::lemma_div_is_ordered_by_denominator(thr * s, s, tau);
    vstd::arithmetic::div_mod::lemma_div_multiples_vanish(v, s);
    vstd::arithmetic::div_mod::lemma_div_multiples_vanish(thr, s);
    assert(v * s == s * v && thr * s == s * thr) by (nonlinear_arith);
    assert((v * s) / tau <= v);
    assert((thr * s) / tau <= thr);
    let vleak = (v * s) / tau;
    let thr_leak_raw = (thr * s) / tau;
    assert(fx_div_spec(sat_neg_spec(v), tau) == -vleak);
    assert(fx_div_spec(thr, tau) == thr_leak_raw);
    let thr_leak = fx_div_spec(thr, tau);
    // the drive is at least the guaranteed net charge
    let drive = sat_add_spec(fx_div_spec(sat_neg_spec(v), tau), input_current);
    assert(drive == input_current - vleak);
    assert(input_current - thr_leak >= 1) by {
        if input_current - thr_leak <= 0 {
            crate::fixed::lemma_fx_mul_nonpos(input_current - thr_leak, dt);
            assert((input_current - thr_leak) * dt == dt * (input_current - thr_leak))
                by (nonlinear_arith);
            assert(fx_mul_spec(dt, input_current - thr_leak) <= 0);
        }
    }
    assert(drive >= input_current - thr_leak);
    // the potential update computes exactly
    let dv = fx_mul_spec(dt, drive);
    crate::fixed::lemma_fx_mul_mono_right(dt, input_current - thr_leak, drive);
    assert(dv >= drive_gain(n, input_current, dt));
    vstd::arithmetic::mul::lemma_mul_nonnegative(dt, drive);
    vstd::arithmetic::mul::lemma_mul_inequality(drive, 2 * (DRIVE_BOUND as int), dt);
    vstd::arithmetic::mul::lemma_mul_inequality(dt, DRIVE_BOUND as int, 2 * (DRIVE_BOUND as int));
    assert(dt * drive == drive * dt && (DRIVE_BOUND as int) * (2 * (DRIVE_BOUND as int)) == 2
        * (DRIVE_BOUND as int) * (DRIVE_BOUND as int)) by (nonlinear_arith);
    vstd::arithmetic::div_mod::lemma_div_is_ordered(
        dt * drive,
        2 * (DRIVE_BOUND as int) * (DRIVE_BOUND as int),
        s,
    );
    assert((2 * (DRIVE_BOUND as int) * (DRIVE_BOUND as int)) / s
        == 2_000_000_000_000_000_000);
    crate::fixed::lemma_div_trunc_nonneg(dt * drive, s);
    assert(dv == (dt * drive) / s);
    assert(dv <= 2_000_000_000_000_000_000);
    let v1 = sat_add_spec(v, dv);
    assert(v1 == v + dv);
    let n1 = integrate_model(n, input_current, dt, t);
    if v1 >= thr {
        assert(n1.spiked);
    } else {
        assert(n1.membrane_potential == v1);
        assert(v1 >= v + drive_gain(n, input_current, dt));
    }
}

/// Induction: as long as the guaranteed gain covers the remaining climb in
/// `k` steps, the neuron spikes within `k + 1` steps.
proof fn lemma_drive_until_spike(n: NeuronModel, input_current: int, dt: int, t: int, k: nat)
    requires
        n.valid(),
        moderate_drive(n, input_current, dt),
        n.time_since_spike >= n.refractory_period,
        drive_gain(n, input_current, dt) >= 1,
        n.threshold - n.membrane_potential <= k * drive_gain(n, input_current, dt),
    ensures
        spikes_within(n, input_current, dt, t, (k + 1) as nat),
    decreases k,
{
    let gain = drive_gain(n, input_current, dt);
    let n1 = integrate_model(n, input_current, dt, t);
    lemma_drive_step(n, input_current, dt, t);
    assert(run_model(n, input_current, dt, t, 1) == n1) by {
        reveal_with_fuel(run_model, 2);
    }
    if n1.spiked {
        assert(spikes_within(n, input_current, dt, t, (k + 1) as nat)) by {
            assert(1 <= 1 <= k + 1 && run_model(n, input_current, dt, t, 1).spiked);
        }
    } else {
        assert(k >= 1) by {
            if k == 0 {
                assert(k * gain == 0) by (nonlinear_arith)
                    requires
                        k == 0,
                ;
                assert(n.membrane_potential >= n.threshold);
                assert(n1.membrane_potential >= n.membrane_potential + gain);
            }
        }
        assert(drive_gain(n1, input_current, dt) == gain);
        assert((k - 1) * gain == k * gain - gain) by (nonlinear_arith);
        lemma_drive_until_spike(n1, input_current, dt, t, (k - 1) as nat);
        let j = choose|j: nat|
            1 <= j <= k && (#[trigger] run_model(n1, input_current, dt, t, j)).spiked;
        lemma_run_model_peel(n, input_current, dt, t, (j + 1) as nat);
        assert(run_model(n, input_current, dt, t, (j + 1) as nat) == run_model(
            n1,
            input_current,
            dt,
            t,
            j,
        ));
        assert(spikes_within(n, input_current, dt, t, (k + 1) as nat)) by {
            assert(1 <= j + 1 <= k + 1 && run_model(n, input_current, dt, t, (j + 1) as nat).spiked);
        }
    }
}

/// A neuron outside refraction, driven with a constant input current large
/// enough that each step's guaranteed net gain is positive, spikes within
/// a number of steps bounded by the threshold divided by that gain —
/// a bound proportional to the threshold and, through the leak term, to
/// the decay constant.
pub proof fn lemma_sufficient_drive_spikes(n: NeuronModel, input_current: int, dt: int, t: int)
    requires
        n.valid(),
        moderate_drive(n, input_current, dt),
        n.time_since_spike >= n.refractory_period,
        drive_gain(n, input_current, dt) >= 1,
    ensures
        spikes_within(
            n,
            input_current,
            dt,
            t,
            (n.threshold / drive_gain(n, input_current, dt) + 2) as nat,
        ),
{
    let gain = drive_gain(n, input_current, dt);
    let k = n.threshold / gain;
    vstd::arithmetic::div_mod::lemma_div_pos_is_pos(n.threshold, gain);
    vstd::arithmetic::div_mod::lemma_fundamental_div_mod(n.threshold, gain);
    vstd::arithmetic::div_mod::lemma_mod_bound(n.threshold, gain);
    assert(gain * k + gain == (k + 1) * gain) by (nonlinear_arith);
    assert(n.threshold <= (k + 1) * gain);
    lemma_drive_until_spike(n, input_current, dt, t, (k + 1) as nat);
}

/// The spike flag is latched afresh by every integration step: it reads
/// true exactly when the step fell outside the refractory window and the
/// updated potential crossed the threshold, and a spike resets the
/// potential and the time since the last spike and records the clock.
pub proof fn lemma_spike_latch(n: NeuronModel, input_current: int, dt: int, current_time: int)
    requires
        n.valid(),
        dt >= 0,
    ensures
        ({
            let n1 = integrate_model(n, input_current, dt, current_time);
            &&& n1.spiked <==> (sat_add_spec(n.time_since_spike, dt) >= n.refractory_period
                && sat_add_spec(
                n.membrane_potential,
                fx_mul_spec(
                    dt,
                    sat_add_spec(
                        fx_div_spec(sat_neg_spec(n.membrane_potential), n.tau),
                        input_current,
                    ),
                ),
            ) >= n.threshold)
            &&& n1.spiked ==> n1.membrane_potential == n.reset_potential
                && n1.time_since_spike == 0 && n1.last_spike_time == current_time
        }),
{
}

/// Inside the refractory window, integration leaves the membrane potential
/// at the reset value and reports no spike, whatever the input current.
pub proof fn lemma_refractory_forces_reset(n: NeuronModel, input_current: int, dt: int, current_time: int)
    requires
        n.valid(),
        dt >= 0,
        sat_add_spec(n.time_since_spike, dt) < n.refractory_period,
    ensures
        integrate_model(n, input_current, dt, current_time).membrane_potential == n.reset_potential,
        !integrate_model(n, input_current, dt, current_time).spiked,
{
}

} // verus!
