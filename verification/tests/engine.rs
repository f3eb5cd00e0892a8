//! Behavioral tests of the spiking engine: the LIF neuron state machine,
//! the network step with plasticity, and the event-driven emulator.

use rustfx_core::emulator::LoihiEmulator;
use rustfx_core::network::SpikingNet;
use rustfx_core::neuron::LifNeuron;

const ONE: i64 = 1_000_000;

#[test]
fn fresh_neuron_defaults() {
    let n = LifNeuron::new();
    assert_eq!(n.membrane_potential(), 0);
    assert!(!n.spiked());
    assert!(n.last_spike_time() < 0);
    assert_eq!(n.time_since_spike(), 5_000_000);
}

#[test]
fn neuron_construction_rejects_bad_tau() {
    assert!(LifNeuron::with_params(ONE, 0, 0, 5 * ONE).is_none());
    assert!(LifNeuron::with_params(ONE, 0, -3 * ONE, 5 * ONE).is_none());
    assert!(LifNeuron::with_params(ONE, 0, 20 * ONE, 5 * ONE).is_some());
}

#[test]
fn strong_current_spikes_first_step() {
    let mut n = LifNeuron::new();
    n.integrate(1_200_000, ONE, ONE);
    assert!(n.spiked());
    assert_eq!(n.membrane_potential(), 0);
    assert_eq!(n.last_spike_time(), ONE);
    assert_eq!(n.time_since_spike(), 0);
}

#[test]
fn refractory_window_pins_potential() {
    let mut n = LifNeuron::new();
    n.integrate(1_200_000, ONE, ONE);
    assert!(n.spiked());
    // however strong the drive, the refractory window forces the reset value
    n.integrate(50 * ONE, ONE, 2 * ONE);
    assert!(!n.spiked());
    assert_eq!(n.membrane_potential(), 0);
    n.integrate(i64::MAX, ONE, 3 * ONE);
    assert!(!n.spiked());
    assert_eq!(n.membrane_potential(), 0);
}

#[test]
fn refractory_window_ends_after_its_period() {
    let mut n = LifNeuron::new();
    n.integrate(1_200_000, ONE, ONE);
    assert!(n.spiked());
    // four refractory ticks: time since spike reaches 1, 2, 3, 4
    for k in 2..=5 {
        n.integrate(1_200_000, ONE, k * ONE);
        assert!(!n.spiked());
    }
    // the fifth tick reaches the five-unit refractory period and integrates
    n.integrate(1_200_000, ONE, 6 * ONE);
    assert!(n.spiked());
    assert_eq!(n.last_spike_time(), 6 * ONE);
}

#[test]
fn moderate_current_spikes_within_bounded_steps() {
    let mut n = LifNeuron::new();
    let mut fired = false;
    // 0.3 units of current against a leak of at most 0.05: the climb to
    // the threshold of 1.0 takes no more than four steps
    for k in 1..=10 {
        n.integrate(300_000, ONE, k * ONE);
        if n.spiked() {
            fired = true;
            break;
        }
    }
    assert!(fired);
    assert_eq!(n.last_spike_time(), 4 * ONE);
}

#[test]
fn network_first_step_scenario() {
    // two neurons, zero weights, threshold 1.0, tau 20.0, dt 1.0,
    // driven with [1.2, 0.0] for one step
    let mut net = SpikingNet::with_uniform_weight(2, 0).unwrap();
    let spikes = net.step(&vec![1_200_000, 0], ONE);
    assert_eq!(spikes, vec![true, false]);
    assert_eq!(net.sim_time(), ONE);
    assert_eq!(net.neuron(0).membrane_potential(), 0);
    assert!(net.neuron(0).spiked());
    assert_eq!(net.neuron(1).membrane_potential(), 0);
    assert!(!net.neuron(1).spiked());
    // plasticity touches only the self-synapse of the one neuron with
    // spike history: a simultaneous pair is depressed by exactly
    // 0.001 * -0.012 * exp(0) == -0.000012
    assert_eq!(net.weight(0, 0), -12);
    assert_eq!(net.weight(0, 1), 0);
    assert_eq!(net.weight(1, 0), 0);
    assert_eq!(net.weight(1, 1), 0);
}

#[test]
fn stdp_strengthens_causal_and_weakens_acausal() {
    let mut net = SpikingNet::with_uniform_weight(2, 0).unwrap();
    // neuron 0 fires at time 1, neuron 1 at time 2
    let first = net.step(&vec![1_200_000, 0], ONE);
    assert_eq!(first, vec![true, false]);
    let second = net.step(&vec![0, 1_200_000], ONE);
    assert_eq!(second, vec![false, true]);
    // post 1 fired one unit after pre 0: potentiation by
    // 0.001 * 0.01 * exp(-1/20), exactly 9 millionths
    assert_eq!(net.weight(1, 0), 9);
    // post 0 fired one unit before pre 1: depression by
    // 0.001 * -0.012 * exp(-1/20), exactly -11 millionths
    assert_eq!(net.weight(0, 1), -11);
    // both self-synapses see a simultaneous pair
    assert_eq!(net.weight(0, 0), -24);
    assert_eq!(net.weight(1, 1), -12);
}

#[test]
fn weights_stay_clamped_under_sustained_drive() {
    let mut net = SpikingNet::with_uniform_weight(3, 1_000_000).unwrap();
    for _ in 0..40 {
        net.step(&vec![2 * ONE, 2 * ONE, 2 * ONE], ONE);
        for post in 0..3 {
            for pre in 0..3 {
                let w = net.weight(post, pre);
                assert!(-1_000_000 <= w && w <= 1_000_000);
            }
        }
    }
}

#[test]
fn spike_propagates_with_one_tick_delay() {
    // full-strength synapses: a spike on one tick drives every neuron on
    // the next tick, never on the same tick
    let mut net = SpikingNet::with_uniform_weight(2, 1_000_000).unwrap();
    let first = net.step(&vec![1_200_000, 0], ONE);
    assert_eq!(first, vec![true, false]);
    let second = net.step(&vec![0, 0], ONE);
    assert_eq!(second, vec![false, true]);
}

#[test]
fn short_input_vector_means_zero_current() {
    let mut net = SpikingNet::with_uniform_weight(3, 0).unwrap();
    let spikes = net.step(&vec![1_200_000, 1_200_000], ONE);
    assert_eq!(spikes, vec![true, true, false]);
}

#[test]
fn long_input_vector_excess_is_ignored() {
    let mut net = SpikingNet::with_uniform_weight(3, 0).unwrap();
    let spikes = net.step(&vec![0, 0, 1_200_000, 99 * ONE, 99 * ONE], ONE);
    assert_eq!(spikes, vec![false, false, true]);
}

#[test]
fn network_construction_rejects_out_of_bound_weight() {
    assert!(SpikingNet::with_uniform_weight(2, 1_000_001).is_none());
    assert!(SpikingNet::with_uniform_weight(2, -2_000_000).is_none());
    assert!(SpikingNet::with_uniform_weight(2, -1_000_000).is_some());
}

#[test]
fn randomized_weights_start_inside_init_range() {
    let net = SpikingNet::new(4);
    assert_eq!(net.neuron_count(), 4);
    assert_eq!(net.sim_time(), 0);
    for post in 0..4 {
        for pre in 0..4 {
            let w = net.weight(post, pre);
            assert!(-100_000 <= w && w < 100_000);
        }
    }
}

#[test]
fn sim_time_advances_by_dt() {
    let mut net = SpikingNet::with_uniform_weight(2, 0).unwrap();
    net.step(&vec![], 250_000);
    net.step(&vec![], 250_000);
    assert_eq!(net.sim_time(), 500_000);
}

#[test]
fn event_injection_matches_direct_drive() {
    // inject_spike then step_event produces the same spikes as a direct
    // step with a one-unit current on the same neuron
    let mut emu = LoihiEmulator::with_uniform_weight(2, 0).unwrap();
    emu.inject_spike(0, 0);
    let event_spikes = emu.step_event(ONE);

    let mut net = SpikingNet::with_uniform_weight(2, 0).unwrap();
    let direct_spikes = net.step(&vec![ONE, 0], ONE);

    assert_eq!(event_spikes, direct_spikes);
    assert_eq!(event_spikes, vec![true, false]);
    for post in 0..2 {
        for pre in 0..2 {
            assert_eq!(emu.network().weight(post, pre), net.weight(post, pre));
        }
    }
    assert_eq!(emu.network().sim_time(), net.sim_time());
}

#[test]
fn repeated_injections_accumulate() {
    // two half-strength steps do not reach the threshold, but two events
    // on one neuron add up to two units and do
    let mut emu = LoihiEmulator::with_uniform_weight(1, 0).unwrap();
    emu.inject_spike(0, 0);
    emu.inject_spike(0, 0);
    let spikes = emu.step_event(500_000);
    // half a time unit of two units of current integrates to 1.0
    assert_eq!(spikes, vec![true]);
}

#[test]
fn empty_queue_step_event_equals_zero_input_step() {
    let mut emu = LoihiEmulator::with_uniform_weight(2, 0).unwrap();
    let mut net = SpikingNet::with_uniform_weight(2, 0).unwrap();
    let event_spikes = emu.step_event(ONE);
    let direct_spikes = net.step(&vec![], ONE);
    assert_eq!(event_spikes, direct_spikes);
    assert_eq!(event_spikes, vec![false, false]);
    assert_eq!(emu.network().sim_time(), net.sim_time());
    for post in 0..2 {
        for pre in 0..2 {
            assert_eq!(emu.network().weight(post, pre), net.weight(post, pre));
        }
    }
}

#[test]
fn step_event_never_replays_stale_events() {
    let mut emu = LoihiEmulator::with_uniform_weight(2, 0).unwrap();
    emu.inject_spike(0, 0);
    let first = emu.step_event(ONE);
    assert_eq!(first, vec![true, false]);
    // the queue was drained: the second event step behaves exactly like a
    // zero-input direct step on a twin network
    let mut twin = SpikingNet::with_uniform_weight(2, 0).unwrap();
    twin.step(&vec![ONE, 0], ONE);
    let second_event = emu.step_event(ONE);
    let second_direct = twin.step(&vec![], ONE);
    assert_eq!(second_event, second_direct);
    assert_eq!(second_event, vec![false, false]);
    for post in 0..2 {
        for pre in 0..2 {
            assert_eq!(emu.network().weight(post, pre), twin.weight(post, pre));
        }
    }
}

#[test]
fn out_of_range_injection_is_dropped() {
    let mut emu = LoihiEmulator::with_uniform_weight(2, 0).unwrap();
    emu.inject_spike(2, 0);
    emu.inject_spike(99, 5 * ONE);
    let spikes = emu.step_event(ONE);
    assert_eq!(spikes, vec![false, false]);
}

#[test]
fn emulator_construction_rejects_out_of_bound_weight() {
    assert!(LoihiEmulator::with_uniform_weight(2, 1_000_001).is_none());
    assert!(LoihiEmulator::with_uniform_weight(2, 500_000).is_some());
}

#[test]
fn emulator_randomized_weights_start_inside_init_range() {
    let emu = LoihiEmulator::new(3);
    assert_eq!(emu.network().neuron_count(), 3);
    for post in 0..3 {
        for pre in 0..3 {
            let w = emu.network().weight(post, pre);
            assert!(-100_000 <= w && w < 100_000);
        }
    }
}
