//! The event-driven emulator: queues externally injected spike events and,
//! once per tick, drains the whole queue into a current vector that drives
//! one step of the owned spiking network.

use vstd::prelude::*;

use crate::fixed::{sat_add, sat_add_spec};
use crate::network::{
    seq_to_ints, step_model, step_spikes, zero_currents, NetModel, SpikingNet,
};

verus! {

/// Injection strength of one queued spike event (1.0). Repeated events
/// aimed at the same neuron accumulate additively.
pub const INPUT_SPIKE_MAGNITUDE: i64 = 1_000_000;

/// An emulator in the style of event-driven neuromorphic hardware: one
/// exclusively owned spiking network plus a queue of pending spike events.
#[derive(Debug, Clone)]
pub struct LoihiEmulator {
    net: SpikingNet,
    pending_spikes: Vec<(usize, i64)>,
}

/// The mathematical state of an emulator: the network model and the queue
/// of (neuron index, injection time) pairs in arrival order.
pub ghost struct EmuModel {
    pub net: NetModel,
    pub pending: Seq<(int, int)>,
}

impl View for LoihiEmulator {
    type V = EmuModel;

    closed spec fn view(&self) -> EmuModel {
        EmuModel {
            net: self.net@,
            pending: self.pending_spikes@.map_values(|p: (usize, i64)| (p.0 as int, p.1 as int)),
        }
    }
}

/// The current vector obtained after draining the first `k` pending
/// events: each in-range event adds one unit of injection strength to its
/// target entry, each out-of-range event is silently dropped.
pub open spec fn injected_upto(pending: Seq<(int, int)>, n: nat, k: nat) -> Seq<int>
    decreases k,
{
    if k == 0 {
        zero_currents(n)
    } else {
        let prev = injected_upto(pending, n, (k - 1) as nat);
        let idx = pending[k - 1].0;
        if 0 <= idx < n {
            prev.update(idx, sat_add_spec(prev[idx], INPUT_SPIKE_MAGNITUDE as int))
        } else {
            prev
        }
    }
}

/// The current vector that draining the whole queue produces.
pub open spec fn injected_currents(pending: Seq<(int, int)>, n: nat) -> Seq<int> {
    injected_upto(pending, n, pending.len())
}

/// One event-driven tick: the drained queue becomes the input currents of
/// one network step, and nothing stays pending.
pub open spec fn emu_step_model(e: EmuModel, dt: int) -> EmuModel {
    EmuModel {
        net: step_model(e.net, injected_currents(e.pending, e.net.neurons.len()), dt),
        pending: Seq::empty(),
    }
}

impl LoihiEmulator {
    /// The owned network's stored weight matrix is square.
    pub closed spec fn wf(&self) -> bool {
        self.net.wf()
    }

    /// Creates an emulator backed by a freshly randomized spiking network
    /// with an empty event queue.
    pub fn new(num_neurons: usize) -> (r: LoihiEmulator)
        requires
            num_neurons * num_neurons <= usize::MAX,
        ensures
            r.wf(),
            r@.net.valid(),
            r@.net.has_default_params(),
            r@.net.neurons.len() == num_neurons,
            r@.net.sim_time == 0,
            r@.pending == Seq::<(int, int)>::empty(),
    {
        let r = LoihiEmulator { net: SpikingNet::new(num_neurons), pending_spikes: Vec::new() };
        proof {
            assert(r@.pending =~= Seq::<(int, int)>::empty());
        }
        r
    }

    /// Creates an emulator whose network starts with the one given weight
    /// on every synapse; a weight outside the clamp bounds is rejected.
    pub fn with_uniform_weight(num_neurons: usize, weight: i64) -> (r: Option<LoihiEmulator>)
        requires
            num_neurons * num_neurons <= usize::MAX,
        ensures
            (crate::network::DEFAULT_MIN_WEIGHT <= weight <= crate::network::DEFAULT_MAX_WEIGHT)
                <==> r is Some,
            r matches Some(emu) ==> {
                &&& emu.wf()
                &&& emu@.net.valid()
                &&& emu@.net.has_default_params()
                &&& emu@.net.neurons.len() == num_neurons
                &&& forall|i: int|
                    0 <= i < num_neurons ==> #[trigger] emu@.net.neurons[i]
                        == crate::neuron::default_neuron_model()
                &&& forall|post: int, pre: int|
                    0 <= post < num_neurons && 0 <= pre < num_neurons ==> #[trigger] emu@
                        .net.weights[post][pre] == weight as int
                &&& emu@.net.sim_time == 0
                &&& emu@.pending == Seq::<(int, int)>::empty()
            },
    {
        match SpikingNet::with_uniform_weight(num_neurons, weight) {
            None => None,
            Some(net) => {
                let r = LoihiEmulator { net, pending_spikes: Vec::new() };
                proof {
                    assert(r@.pending =~= Seq::<(int, int)>::empty());
                }
                Some(r)
            },
        }
    }

    /// Queues an external spike for injection into the next simulation
    /// step. The index and time are not checked here: an out-of-range
    /// index is dropped when the queue is drained, and the time is kept
    /// but never compared against the network's clock.
    pub fn inject_spike(&mut self, neuron_idx: usize, time: i64)
        ensures
            final(self)@.net == old(self)@.net,
            final(self)@.pending == old(self)@.pending.push((neuron_idx as int, time as int)),
            final(self).wf() == old(self).wf(),
    {
        self.pending_spikes.push((neuron_idx, time));
        proof {
            assert(self@.pending =~= old(self)@.pending.push((neuron_idx as int, time as int)));
        }
    }

    /// Processes queued spikes and advances the network by one time step.
    pub fn step_event(&mut self, dt: i64) -> (spikes: Vec<bool>)
        requires
            old(self).wf(),
            old(self)@.net.valid(),
            dt >= 0,
        ensures
            final(self).wf(),
            final(self)@.net.valid(),
            final(self)@ == emu_step_model(old(self)@, dt as int),
            spikes@ == step_spikes(
                old(self)@.net,
                injected_currents(old(self)@.pending, old(self)@.net.neurons.len()),
                dt as int,
            ),
    {
        let ghost e0 = self@;
        let n: usize = self.net.neuron_count();
        let mut inputs: Vec<i64> = Vec::new();
        let mut i: usize = 0;
        while i < n
            invariant
                i <= n,
                inputs@.len() == i,
                forall|q: int| 0 <= q < i ==> #[trigger] inputs@[q] == 0,
            decreases n - i,
        {
            inputs.push(0);
            i = i + 1;
        }
        proof {
            assert(seq_to_ints(inputs@) =~= injected_upto(e0.pending, n as nat, 0));
        }
        let count: usize = self.pending_spikes.len();
        let mut k: usize = 0;
        while k < count
            invariant
                k <= count,
                e0 == old(self)@,
                n == e0.net.neurons.len(),
                count == self.pending_spikes@.len(),
                count == e0.pending.len(),
                self.pending_spikes@ == old(self).pending_spikes@,
                self.net == old(self).net,
                inputs@.len() == n,
                seq_to_ints(inputs@) == injected_upto(e0.pending, n as nat, k as nat),
            decreases count - k,
        {
            let (neuron_idx, _time) = self.pending_spikes[k];
            proof {
                assert(e0.pending[k as int] == (neuron_idx as int, _time as int));
            }
            let ghost before = seq_to_ints(inputs@);
            if neuron_idx < n {
                let cur: i64 = inputs[neuron_idx];
                inputs[neuron_idx] = sat_add(cur, INPUT_SPIKE_MAGNITUDE);
                proof {
                    assert(seq_to_ints(inputs@) =~= before.update(
                        neuron_idx as int,
                        sat_add_spec(before[neuron_idx as int], INPUT_SPIKE_MAGNITUDE as int),
                    ));
                }
            }
            k = k + 1;
        }
        self.pending_spikes.clear();
        let spikes = self.net.step(&inputs, dt);
        proof {
            assert(self@.pending =~= Seq::<(int, int)>::empty());
            assert(self@ == emu_step_model(e0, dt as int));
        }
        spikes
    }

    /// Returns an immutable view of the underlying spiking network.
    pub fn network(&self) -> (r: &SpikingNet)
        ensures
            r@ == self@.net,
    {
        &self.net
    }
}

/// With an empty event queue, an event-driven tick drives the network
/// exactly as a direct step with an all-zero input vector: same next
/// network state, same spike vector.
pub proof fn lemma_no_pending_matches_zero_step(e: EmuModel, dt: int)
    requires
        e.pending.len() == 0,
    ensures
        emu_step_model(e, dt).net == step_model(e.net, zero_currents(e.net.neurons.len()), dt),
        step_spikes(e.net, injected_currents(e.pending, e.net.neurons.len()), dt) == step_spikes(
            e.net,
            zero_currents(e.net.neurons.len()),
            dt,
        ),
{
    assert(injected_currents(e.pending, e.net.neurons.len()) == zero_currents(
        e.net.neurons.len(),
    ));
}

/// An event-driven tick drains the whole queue, so a second tick without
/// new injections behaves exactly like a direct step with zero input:
/// stale events are never replayed.
pub proof fn lemma_step_event_never_replays(e: EmuModel, dt1: int, dt2: int)
    ensures
        ({
            let once = emu_step_model(e, dt1);
            emu_step_model(once, dt2).net == step_model(
                once.net,
                zero_currents(once.net.neurons.len()),
                dt2,
            )
        }),
{
    let once = emu_step_model(e, dt1);
    lemma_no_pending_matches_zero_step(once, dt2);
}

} // verus!
