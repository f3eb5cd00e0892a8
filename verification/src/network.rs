//! The fully connected spiking network: a collection of leaky
//! integrate-and-fire neurons and a dense post-by-pre synaptic weight
//! matrix, advanced one tick at a time with spike-timing-dependent
//! plasticity applied to every synapse after each tick.

use vstd::prelude::*;

use crate::fixed::{
    clamp, clamp_spec, fx_div, fx_div_spec, fx_mul, fx_mul_spec, sat_add, sat_add_spec, sat_neg,
    sat_neg_spec, sat_sub, sat_sub_spec, exp_neg, exp_neg_spec,
};
use crate::neuron::{
    default_neuron_model, fits_i64, integrate_model, LifNeuron, NeuronModel,
};

verus! {

/// Default potentiation amplitude (0.01).
pub const DEFAULT_A_PLUS: i64 = 10_000;

/// Default depression amplitude (-0.012).
pub const DEFAULT_A_MINUS: i64 = -12_000;

/// Default potentiation time constant (20.0).
pub const DEFAULT_TAU_PLUS: i64 = 20_000_000;

/// Default depression time constant (20.0).
pub const DEFAULT_TAU_MINUS: i64 = 20_000_000;

/// Default learning rate (0.001).
pub const DEFAULT_LEARNING_RATE: i64 = 1_000;

/// Default lower clamp bound for synaptic weights (-1.0).
pub const DEFAULT_MIN_WEIGHT: i64 = -1_000_000;

/// Default upper clamp bound for synaptic weights (1.0).
pub const DEFAULT_MAX_WEIGHT: i64 = 1_000_000;

/// Lower bound of the randomized initial weights (-0.1).
pub const WEIGHT_INIT_MIN: i64 = -100_000;

/// Upper bound (exclusive) of the randomized initial weights (0.1).
pub const WEIGHT_INIT_MAX: i64 = 100_000;

/// A fully connected spiking network. The weight matrix is stored
/// row-major: the entry for post-synaptic neuron `post` and pre-synaptic
/// neuron `pre` sits at flat index `post * n + pre`.
#[derive(Debug, Clone)]
pub struct SpikingNet {
    neurons: Vec<LifNeuron>,
    weights: Vec<i64>,
    a_plus: i64,
    a_minus: i64,
    tau_plus: i64,
    tau_minus: i64,
    learning_rate: i64,
    min_weight: i64,
    max_weight: i64,
    sim_time: i64,
}

/// The mathematical state of a network: the neuron states, the weight
/// matrix indexed `[post][pre]`, the plasticity parameters and the clock.
pub ghost struct NetModel {
    pub neurons: Seq<NeuronModel>,
    pub weights: Seq<Seq<int>>,
    pub a_plus: int,
    pub a_minus: int,
    pub tau_plus: int,
    pub tau_minus: int,
    pub learning_rate: int,
    pub min_weight: int,
    pub max_weight: int,
    pub sim_time: int,
}

impl View for SpikingNet {
    type V = NetModel;

    closed spec fn view(&self) -> NetModel {
        let n = self.neurons@.len();
        NetModel {
            neurons: self.neurons@.map_values(|x: LifNeuron| x@),
            weights: Seq::new(
                n,
                |post: int| Seq::new(n, |pre: int| self.weights@[post * (n as int) + pre] as int),
            ),
            a_plus: self.a_plus as int,
            a_minus: self.a_minus as int,
            tau_plus: self.tau_plus as int,
            tau_minus: self.tau_minus as int,
            learning_rate: self.learning_rate as int,
            min_weight: self.min_weight as int,
            max_weight: self.max_weight as int,
            sim_time: self.sim_time as int,
        }
    }
}

impl NetModel {
    /// Shape, representation and sign conditions: a square weight matrix
    /// within the clamp bounds, valid neurons, positive time constants, a
    /// non-negative potentiation amplitude and learning rate and a
    /// non-positive depression amplitude.
    pub open spec fn valid(self) -> bool {
        let n = self.neurons.len() as int;
        &&& self.weights.len() == n
        &&& forall|post: int| 0 <= post < n ==> (#[trigger] self.weights[post]).len() == n
        &&& forall|i: int| 0 <= i < n ==> (#[trigger] self.neurons[i]).valid()
        &&& forall|post: int, pre: int|
            0 <= post < n && 0 <= pre < n ==> self.min_weight <= #[trigger] self.weights[post][pre]
                <= self.max_weight
        &&& self.min_weight <= self.max_weight
        &&& fits_i64(self.min_weight)
        &&& fits_i64(self.max_weight)
        &&& fits_i64(self.a_plus)
        &&& fits_i64(self.a_minus)
        &&& fits_i64(self.learning_rate)
        &&& fits_i64(self.sim_time)
        &&& 0 < self.tau_plus <= i64::MAX
        &&& 0 < self.tau_minus <= i64::MAX
        &&& self.a_plus >= 0
        &&& self.a_minus <= 0
        &&& self.learning_rate >= 0
    }

    /// The plasticity parameters and clamp bounds of a fresh network.
    pub open spec fn has_default_params(self) -> bool {
        &&& self.a_plus == DEFAULT_A_PLUS as int
        &&& self.a_minus == DEFAULT_A_MINUS as int
        &&& self.tau_plus == DEFAULT_TAU_PLUS as int
        &&& self.tau_minus == DEFAULT_TAU_MINUS as int
        &&& self.learning_rate == DEFAULT_LEARNING_RATE as int
        &&& self.min_weight == DEFAULT_MIN_WEIGHT as int
        &&& self.max_weight == DEFAULT_MAX_WEIGHT as int
    }
}

/// The external current seen by neuron `i`: the caller's entry where one
/// exists, zero where the input vector is shorter.
pub open spec fn in_or_zero(inputs: Seq<int>, i: int) -> int {
    if 0 <= i < inputs.len() {
        inputs[i]
    } else {
        0
    }
}

/// The current accumulated into neuron `i` after the external current and
/// the recurrent contributions of pre-synaptic neurons `0 .. j` that spiked
/// on the previous tick, added in index order.
pub open spec fn current_upto(m: NetModel, inputs: Seq<int>, i: int, j: nat) -> int
    decreases j,
{
    if j == 0 {
        in_or_zero(inputs, i)
    } else {
        let prev = current_upto(m, inputs, i, (j - 1) as nat);
        if m.neurons[j - 1].spiked {
            sat_add_spec(prev, m.weights[i][j - 1])
        } else {
            prev
        }
    }
}

/// The total current driven into neuron `i` on this tick.
pub open spec fn total_current(m: NetModel, inputs: Seq<int>, i: int) -> int {
    current_upto(m, inputs, i, m.neurons.len())
}

/// The simulation clock after one tick.
pub open spec fn step_time(m: NetModel, dt: int) -> int {
    sat_add_spec(m.sim_time, dt)
}

/// All neurons after integrating this tick's currents.
pub open spec fn integrated_neurons(m: NetModel, inputs: Seq<int>, dt: int) -> Seq<NeuronModel> {
    Seq::new(
        m.neurons.len(),
        |i: int| integrate_model(m.neurons[i], total_current(m, inputs, i), dt, step_time(m, dt)),
    )
}

/// The raw plasticity increment for one synapse, before the learning rate:
/// a causal spike pair (post after pre) potentiates by `a_plus` weighted
/// with the decayed timing difference, an acausal or simultaneous pair
/// depresses by `a_minus` weighted the same way.
pub open spec fn stdp_delta(m: NetModel, post_time: int, pre_time: int) -> int {
    let delta_t = sat_sub_spec(post_time, pre_time);
    if delta_t > 0 {
        fx_mul_spec(m.a_plus, exp_neg_spec(fx_div_spec(delta_t, m.tau_plus)))
    } else {
        fx_mul_spec(m.a_minus, exp_neg_spec(fx_div_spec(sat_neg_spec(delta_t), m.tau_minus)))
    }
}

/// One synapse's weight after a plasticity update: untouched while either
/// neuron has never spiked, otherwise moved by the learning-rate-scaled
/// increment and clamped to the configured bounds.
pub open spec fn stdp_weight(m: NetModel, w: int, post_time: int, pre_time: int) -> int {
    if post_time < 0 || pre_time < 0 {
        w
    } else {
        clamp_spec(
            sat_add_spec(w, fx_mul_spec(m.learning_rate, stdp_delta(m, post_time, pre_time))),
            m.min_weight,
            m.max_weight,
        )
    }
}

/// The whole weight matrix after one plasticity pass over every ordered
/// pair, driven by the spike times recorded in `m.neurons`.
pub open spec fn stdp_weights_model(m: NetModel) -> Seq<Seq<int>> {
    Seq::new(
        m.neurons.len(),
        |post: int| Seq::new(
            m.neurons.len(),
            |pre: int| stdp_weight(
                m,
                m.weights[post][pre],
                m.neurons[post].last_spike_time,
                m.neurons[pre].last_spike_time,
            ),
        ),
    )
}

/// The network mid-step: clock advanced and neurons integrated, weights
/// not yet updated.
pub open spec fn mid_step_model(m: NetModel, inputs: Seq<int>, dt: int) -> NetModel {
    NetModel { neurons: integrated_neurons(m, inputs, dt), sim_time: step_time(m, dt), ..m }
}

/// The network after one full tick: integration followed by plasticity on
/// the freshly updated spike times.
pub open spec fn step_model(m: NetModel, inputs: Seq<int>, dt: int) -> NetModel {
    let mid = mid_step_model(m, inputs, dt);
    NetModel { weights: stdp_weights_model(mid), ..mid }
}

/// The spike flags a full tick reports.
pub open spec fn step_spikes(m: NetModel, inputs: Seq<int>, dt: int) -> Seq<bool> {
    Seq::new(m.neurons.len(), |i: int| integrated_neurons(m, inputs, dt)[i].spiked)
}

/// The mathematical values of a machine-word input vector.
pub open spec fn seq_to_ints(s: Seq<i64>) -> Seq<int> {
    s.map_values(|x: i64| x as int)
}

/// An all-zero current vector.
pub open spec fn zero_currents(n: nat) -> Seq<int> {
    Seq::new(n, |i: int| 0)
}

/// The plasticity target for one flat weight index, against the spike
/// times recorded in `m.neurons`.
spec fn stdp_flat_target(m: NetModel, k: int) -> int {
    let n = m.neurons.len() as int;
    stdp_weight(
        m,
        m.weights[k / n][k % n],
        m.neurons[k / n].last_spike_time,
        m.neurons[k % n].last_spike_time,
    )
}

/// A row-major index stays inside a square matrix.
proof fn lemma_flat_index(n: int, post: int, pre: int)
    requires
        0 <= post < n,
        0 <= pre < n,
    ensures
        0 <= post * n + pre < n * n,
        (post * n + pre) / n == post,
        (post * n + pre) % n == pre,
{
    assert(0 <= post * n + pre < n * n) by (nonlinear_arith)
        requires
            0 <= post < n && 0 <= pre < n,
    ;
    vstd::arithmetic::div_mod::lemma_fundamental_div_mod_converse(post * n + pre, n, post, pre);
}

/// Relies on rand::random_range on the thread-local generator: returns a
/// uniformly distributed value of the given half-open range, panicking
/// only when the range is empty.
#[verifier::external_body]
fn random_in_range(lo: i64, hi: i64) -> (r: i64)
    requires
        lo < hi,
    ensures
        lo <= r < hi,
{
    rand::random_range(lo..hi)
}

impl SpikingNet {
    /// The stored flat weight matrix is square in the neuron count.
    pub closed spec fn wf(&self) -> bool {
        self.weights@.len() == self.neurons@.len() * self.neurons@.len()
    }

    /// Builds a fully connected spiking network of default-parameter
    /// neurons with uniformly randomized weights.
    pub fn new(num_neurons: usize) -> (r: SpikingNet)
        requires
            num_neurons * num_neurons <= usize::MAX,
        ensures
            r.wf(),
            r@.valid(),
            r@.has_default_params(),
            r@.neurons.len() == num_neurons,
            forall|i: int| 0 <= i < num_neurons ==> #[trigger] r@.neurons[i] == default_neuron_model(),
            forall|post: int, pre: int|
                0 <= post < num_neurons && 0 <= pre < num_neurons ==> WEIGHT_INIT_MIN
                    <= #[trigger] r@.weights[post][pre] < WEIGHT_INIT_MAX,
            r@.sim_time == 0,
    {
        let count: usize = num_neurons * num_neurons;
        let mut weights: Vec<i64> = Vec::new();
        let mut k: usize = 0;
        while k < count
            invariant
                k <= count,
                weights@.len() == k,
                forall|q: int| 0 <= q < k ==> WEIGHT_INIT_MIN <= #[trigger] weights@[q] < WEIGHT_INIT_MAX,
            decreases count - k,
        {
            weights.push(random_in_range(WEIGHT_INIT_MIN, WEIGHT_INIT_MAX));
            k = k + 1;
        }
        let mut neurons: Vec<LifNeuron> = Vec::new();
        let mut i: usize = 0;
        while i < num_neurons
            invariant
                i <= num_neurons,
                neurons@.len() == i,
                forall|q: int| 0 <= q < i ==> #[trigger] neurons@[q]@ == default_neuron_model(),
            decreases num_neurons - i,
        {
            neurons.push(LifNeuron::new());
            i = i + 1;
        }
        let net = SpikingNet {
            neurons,
            weights,
            a_plus: DEFAULT_A_PLUS,
            a_minus: DEFAULT_A_MINUS,
            tau_plus: DEFAULT_TAU_PLUS,
            tau_minus: DEFAULT_TAU_MINUS,
            learning_rate: DEFAULT_LEARNING_RATE,
            min_weight: DEFAULT_MIN_WEIGHT,
            max_weight: DEFAULT_MAX_WEIGHT,
            sim_time: 0,
        };
        proof {
            let n = num_neurons as int;
            assert forall|post: int, pre: int| 0 <= post < n && 0 <= pre < n implies WEIGHT_INIT_MIN
                <= #[trigger] net@.weights[post][pre] < WEIGHT_INIT_MAX by {
                lemma_flat_index(n, post, pre);
            }
        }
        net
    }

    /// Builds a network whose every synapse starts at the one given
    /// weight; a weight outside the clamp bounds is rejected before any
    /// state exists.
    pub fn with_uniform_weight(num_neurons: usize, weight: i64) -> (r: Option<SpikingNet>)
        requires
            num_neurons * num_neurons <= usize::MAX,
        ensures
            (DEFAULT_MIN_WEIGHT <= weight <= DEFAULT_MAX_WEIGHT) <==> r is Some,
            r matches Some(net) ==> {
                &&& net.wf()
                &&& net@.valid()
                &&& net@.has_default_params()
                &&& net@.neurons.len() == num_neurons
                &&& forall|i: int|
                    0 <= i < num_neurons ==> #[trigger] net@.neurons[i] == default_neuron_model()
                &&& forall|post: int, pre: int|
                    0 <= post < num_neurons && 0 <= pre < num_neurons ==> #[trigger] net@.weights[post][pre]
                        == weight as int
                &&& net@.sim_time == 0
            },
    {
        if weight < DEFAULT_MIN_WEIGHT || weight > DEFAULT_MAX_WEIGHT {
            return None;
        }
        let count: usize = num_neurons * num_neurons;
        let mut weights: Vec<i64> = Vec::new();
        let mut k: usize = 0;
        while k < count
            invariant
                k <= count,
                weights@.len() == k,
                forall|q: int| 0 <= q < k ==> #[trigger] weights@[q] == weight,
            decreases count - k,
        {
            weights.push(weight);
            k = k + 1;
        }
        let mut neurons: Vec<LifNeuron> = Vec::new();
        let mut i: usize = 0;
        while i < num_neurons
            invariant
                i <= num_neurons,
                neurons@.len() == i,
                forall|q: int| 0 <= q < i ==> #[trigger] neurons@[q]@ == default_neuron_model(),
            decreases num_neurons - i,
        {
            neurons.push(LifNeuron::new());
            i = i + 1;
        }
        let net = SpikingNet {
            neurons,
            weights,
            a_plus: DEFAULT_A_PLUS,
            a_minus: DEFAULT_A_MINUS,
            tau_plus: DEFAULT_TAU_PLUS,
            tau_minus: DEFAULT_TAU_MINUS,
            learning_rate: DEFAULT_LEARNING_RATE,
            min_weight: DEFAULT_MIN_WEIGHT,
            max_weight: DEFAULT_MAX_WEIGHT,
            sim_time: 0,
        };
        proof {
            let n = num_neurons as int;
            assert forall|post: int, pre: int| 0 <= post < n && 0 <= pre < n implies #[trigger] net@
                .weights[post][pre] == weight as int by {
                lemma_flat_index(n, post, pre);
            }
        }
        Some(net)
    }

    /// Advances the network by a time step and returns neuron spike events.
    #[verifier::rlimit(50)]
    pub fn step(&mut self, inputs: &Vec<i64>, dt: i64) -> (spikes: Vec<bool>)
        requires
            old(self).wf(),
            old(self)@.valid(),
            dt >= 0,
        ensures
            final(self).wf(),
            final(self)@.valid(),
            final(self)@ == step_model(old(self)@, seq_to_ints(inputs@), dt as int),
            spikes@ == step_spikes(old(self)@, seq_to_ints(inputs@), dt as int),
    {
        let ghost m0 = self@;
        let ghost ins = seq_to_ints(inputs@);
        let neuron_count: usize = self.neurons.len();
        let total: usize = self.weights.len();
        proof {
            assert(total == neuron_count * neuron_count);
        }
        self.sim_time = sat_add(self.sim_time, dt);
        let ghost t2 = step_time(m0, dt as int);

        let mut currents: Vec<i64> = Vec::new();
        let mut i: usize = 0;
        while i < neuron_count
            invariant
                m0 == old(self)@,
                m0.valid(),
                m0.neurons.len() == neuron_count,
                old(self).neurons@.len() == neuron_count,
                ins == seq_to_ints(inputs@),
                i <= neuron_count,
                currents@.len() == i,
                neuron_count == self.neurons@.len(),
                total == self.weights@.len(),
                total == neuron_count * neuron_count,
                self.neurons@ == old(self).neurons@,
                self.weights@ == old(self).weights@,
                self.a_plus == old(self).a_plus,
                self.a_minus == old(self).a_minus,
                self.tau_plus == old(self).tau_plus,
                self.tau_minus == old(self).tau_minus,
                self.learning_rate == old(self).learning_rate,
                self.min_weight == old(self).min_weight,
                self.max_weight == old(self).max_weight,
                self.sim_time as int == t2,
                forall|q: int| 0 <= q < i ==> #[trigger] currents@[q] as int == total_current(m0, ins, q),
            decreases neuron_count - i,
        {
            let mut c: i64 = if i < inputs.len() {
                inputs[i]
            } else {
                0
            };
            proof {
                assert(c as int == current_upto(m0, ins, i as int, 0));
            }
            let mut j: usize = 0;
            while j < neuron_count
                invariant
                    m0 == old(self)@,
                    m0.valid(),
                    m0.neurons.len() == neuron_count,
                    old(self).neurons@.len() == neuron_count,
                    ins == seq_to_ints(inputs@),
                    i < neuron_count,
                    j <= neuron_count,
                    neuron_count == self.neurons@.len(),
                    total == self.weights@.len(),
                    total == neuron_count * neuron_count,
                    self.neurons@ == old(self).neurons@,
                    self.weights@ == old(self).weights@,
                    c as int == current_upto(m0, ins, i as int, j as nat),
                decreases neuron_count - j,
            {
                proof {
                    lemma_flat_index(neuron_count as int, i as int, j as int);
                }
                if self.neurons[j].spiked() {
                    c = sat_add(c, self.weights[i * neuron_count + j]);
                }
                j = j + 1;
            }
            currents.push(c);
            i = i + 1;
        }

        let mut spikes: Vec<bool> = Vec::new();
        let mut idx: usize = 0;
        while idx < neuron_count
            invariant
                m0 == old(self)@,
                m0.valid(),
                m0.neurons.len() == neuron_count,
                old(self).neurons@.len() == neuron_count,
                ins == seq_to_ints(inputs@),
                idx <= neuron_count,
                dt >= 0,
                spikes@.len() == idx,
                currents@.len() == neuron_count,
                neuron_count == self.neurons@.len(),
                total == self.weights@.len(),
                total == neuron_count * neuron_count,
                self.weights@ == old(self).weights@,
                self.a_plus == old(self).a_plus,
                self.a_minus == old(self).a_minus,
                self.tau_plus == old(self).tau_plus,
                self.tau_minus == old(self).tau_minus,
                self.learning_rate == old(self).learning_rate,
                self.min_weight == old(self).min_weight,
                self.max_weight == old(self).max_weight,
                self.sim_time as int == t2,
                forall|q: int| 0 <= q < neuron_count ==> #[trigger] currents@[q] as int == total_current(m0, ins, q),
                forall|q: int| idx <= q < neuron_count ==> #[trigger] self.neurons@[q] == old(self).neurons@[q],
                forall|q: int|
                    0 <= q < idx ==> #[trigger] self.neurons@[q]@ == integrate_model(
                        m0.neurons[q],
                        total_current(m0, ins, q),
                        dt as int,
                        t2,
                    ),
                forall|q: int| 0 <= q < idx ==> (#[trigger] self.neurons@[q]@).valid(),
                forall|q: int| 0 <= q < idx ==> #[trigger] spikes@[q] == self.neurons@[q]@.spiked,
            decreases neuron_count - idx,
        {
            let c: i64 = currents[idx];
            let mut nn: LifNeuron = self.neurons[idx];
            proof {
                assert(nn == old(self).neurons@[idx as int]);
                assert(m0.neurons == old(self).neurons@.map_values(|x: LifNeuron| x@));
                assert(m0.neurons[idx as int] == old(self).neurons@[idx as int]@);
                assert(nn@ == m0.neurons[idx as int]);
                assert(m0.neurons[idx as int].valid());
            }
            nn.integrate(c, dt, self.sim_time);
            self.neurons[idx] = nn;
            proof {
                assert(self.neurons@[idx as int]@ == integrate_model(
                    m0.neurons[idx as int],
                    total_current(m0, ins, idx as int),
                    dt as int,
                    t2,
                ));
            }
            spikes.push(nn.spiked());
            idx = idx + 1;
        }

        proof {
            let mid = mid_step_model(m0, ins, dt as int);
            assert(self@.neurons =~= mid.neurons);
            assert(self@.weights =~~= mid.weights);
            assert(self@ == mid);
            assert forall|q: int| 0 <= q < neuron_count implies (#[trigger] mid.neurons[q]).valid() by {
                assert(mid.neurons[q] == self.neurons@[q]@);
            }
            assert(self@.valid());
            assert(spikes@ =~= step_spikes(m0, ins, dt as int));
        }
        self.apply_stdp();
        proof {
            assert(self@ == step_model(m0, ins, dt as int));
        }
        spikes
    }

    /// Applies the plasticity rule once to every ordered (post, pre) pair,
    /// against the currently recorded spike times.
    fn apply_stdp(&mut self)
        requires
            old(self).wf(),
            old(self)@.valid(),
        ensures
            final(self).wf(),
            final(self)@.valid(),
            final(self)@ == (NetModel { weights: stdp_weights_model(old(self)@), ..old(self)@ }),
    {
        let ghost m1 = self@;
        let n: usize = self.neurons.len();
        let total: usize = self.weights.len();
        proof {
            assert(total == n * n);
        }
        let mut post: usize = 0;
        while post < n
            invariant
                m1 == old(self)@,
                m1.valid(),
                m1.neurons.len() == n,
                old(self).neurons@.len() == n,
                post <= n,
                n == self.neurons@.len(),
                total == self.weights@.len(),
                total == n * n,
                self.neurons@ == old(self).neurons@,
                self.a_plus == old(self).a_plus,
                self.a_minus == old(self).a_minus,
                self.tau_plus == old(self).tau_plus,
                self.tau_minus == old(self).tau_minus,
                self.learning_rate == old(self).learning_rate,
                self.min_weight == old(self).min_weight,
                self.max_weight == old(self).max_weight,
                self.sim_time == old(self).sim_time,
                forall|k: int|
                    0 <= k < post * (n as int) ==> #[trigger] self.weights@[k] as int
                        == stdp_flat_target(m1, k),
                forall|k: int|
                    post * (n as int) <= k < total ==> #[trigger] self.weights@[k] == old(
                        self,
                    ).weights@[k],
            decreases n - post,
        {
            let mut pre: usize = 0;
            while pre < n
                invariant
                    m1 == old(self)@,
                    m1.valid(),
                    m1.neurons.len() == n,
                    old(self).neurons@.len() == n,
                    post < n,
                    pre <= n,
                    n == self.neurons@.len(),
                    total == self.weights@.len(),
                    total == n * n,
                    self.neurons@ == old(self).neurons@,
                    self.a_plus == old(self).a_plus,
                    self.a_minus == old(self).a_minus,
                    self.tau_plus == old(self).tau_plus,
                    self.tau_minus == old(self).tau_minus,
                    self.learning_rate == old(self).learning_rate,
                    self.min_weight == old(self).min_weight,
                    self.max_weight == old(self).max_weight,
                    self.sim_time == old(self).sim_time,
                    forall|k: int|
                        0 <= k < post * (n as int) + pre ==> #[trigger] self.weights@[k] as int
                            == stdp_flat_target(m1, k),
                    forall|k: int|
                        post * (n as int) + pre <= k < total ==> #[trigger] self.weights@[k] == old(
                            self,
                        ).weights@[k],
                decreases n - pre,
            {
                proof {
                    lemma_flat_index(n as int, post as int, pre as int);
                }
                let k: usize = post * n + pre;
                let post_t: i64 = self.neurons[post].last_spike_time();
                let pre_t: i64 = self.neurons[pre].last_spike_time();
                proof {
                    assert(post_t as int == m1.neurons[post as int].last_spike_time);
                    assert(pre_t as int == m1.neurons[pre as int].last_spike_time);
                    assert(self.weights@[k as int] == old(self).weights@[k as int]);
                    assert(m1.weights[post as int][pre as int] == old(self).weights@[k as int] as int);
                }
                if post_t >= 0 && pre_t >= 0 {
                    let delta_t: i64 = sat_sub(post_t, pre_t);
                    let delta_w: i64 = if delta_t > 0 {
                        proof {
                            crate::fixed::lemma_fx_div_nonneg(delta_t as int, self.tau_plus as int);
                        }
                        fx_mul(self.a_plus, exp_neg(fx_div(delta_t, self.tau_plus)))
                    } else {
                        proof {
                            crate::fixed::lemma_fx_div_nonneg(
                                sat_neg_spec(delta_t as int),
                                self.tau_minus as int,
                            );
                        }
                        fx_mul(self.a_minus, exp_neg(fx_div(sat_neg(delta_t), self.tau_minus)))
                    };
                    proof {
                        assert(delta_w as int == stdp_delta(
                            m1,
                            post_t as int,
                            pre_t as int,
                        ));
                    }
                    let updated: i64 = sat_add(self.weights[k], fx_mul(self.learning_rate, delta_w));
                    let w: i64 = clamp(updated, self.min_weight, self.max_weight);
                    self.weights[k] = w;
                    proof {
                        assert(self.weights@[k as int] as int == stdp_flat_target(m1, k as int));
                    }
                } else {
                    proof {
                        assert(self.weights@[k as int] as int == stdp_flat_target(m1, k as int));
                    }
                }
                pre = pre + 1;
            }
            proof {
                assert((post as int + 1) * (n as int) == (post as int) * (n as int) + (n as int))
                    by (nonlinear_arith);
            }
            post = post + 1;
        }
        proof {
            let target = stdp_weights_model(m1);
            assert forall|p: int, q: int| 0 <= p < n && 0 <= q < n implies #[trigger] self@
                .weights[p][q] == target[p][q] by {
                lemma_flat_index(n as int, p, q);
            }
            assert forall|p: int| 0 <= p < n implies #[trigger] self@.weights[p] =~= target[p] by {
            }
            assert(self@.weights =~= target);
            assert(self@ == (NetModel { weights: stdp_weights_model(old(self)@), ..old(self)@ }));
            assert forall|p: int, q: int| 0 <= p < n && 0 <= q < n implies m1.min_weight
                <= #[trigger] self@.weights[p][q] <= m1.max_weight by {
            }
            assert(self@.valid());
        }
    }

    /// Number of neurons in the network.
    pub fn neuron_count(&self) -> (r: usize)
        ensures
            r == self@.neurons.len(),
    {
        self.neurons.len()
    }

    /// Current simulation time.
    pub fn sim_time(&self) -> (r: i64)
        ensures
            r == self@.sim_time,
    {
        self.sim_time
    }

    /// A copy of one neuron's state.
    pub fn neuron(&self, i: usize) -> (r: LifNeuron)
        requires
            i < self@.neurons.len(),
        ensures
            r@ == self@.neurons[i as int],
    {
        self.neurons[i]
    }

    /// One synaptic weight, from pre-synaptic neuron `pre` to
    /// post-synaptic neuron `post`.
    pub fn weight(&self, post: usize, pre: usize) -> (r: i64)
        requires
            self.wf(),
            post < self@.neurons.len(),
            pre < self@.neurons.len(),
        ensures
            r == self@.weights[post as int][pre as int],
    {
        let n = self.neurons.len();
        let total = self.weights.len();
        proof {
            lemma_flat_index(n as int, post as int, pre as int);
            assert(n * n == total);
        }
        self.weights[post * n + pre]
    }
}

/// The simulation clock never decreases: a step with a non-negative time
/// increment moves it forward (or holds it at the representation limit).
pub proof fn lemma_sim_time_monotone(m: NetModel, inputs: Seq<int>, dt: int)
    requires
        m.valid(),
        dt >= 0,
    ensures
        step_model(m, inputs, dt).sim_time >= m.sim_time,
{
}

/// After any step, every synaptic weight remains within the configured
/// clamp bounds.
pub proof fn lemma_step_keeps_weights_clamped(m: NetModel, inputs: Seq<int>, dt: int)
    requires
        m.valid(),
    ensures
        forall|post: int, pre: int|
            0 <= post < m.neurons.len() && 0 <= pre < m.neurons.len() ==> m.min_weight
                <= #[trigger] step_model(m, inputs, dt).weights[post][pre] <= m.max_weight,
{
    let n = m.neurons.len() as int;
    let mid = mid_step_model(m, inputs, dt);
    assert forall|post: int, pre: int| 0 <= post < n && 0 <= pre < n implies m.min_weight
        <= #[trigger] step_model(m, inputs, dt).weights[post][pre] <= m.max_weight by {
        assert(step_model(m, inputs, dt).weights[post][pre] == stdp_weight(
            mid,
            m.weights[post][pre],
            mid.neurons[post].last_spike_time,
            mid.neurons[pre].last_spike_time,
        ));
    }
}

/// Spike-timing-dependent plasticity moves a synapse with recorded spike
/// history upward when the post-synaptic neuron fired strictly after the
/// pre-synaptic one, and downward (never above its old value) otherwise;
/// the clamp bounds are respected either way.
pub proof fn lemma_stdp_timing_direction(m: NetModel, w: int, post_time: int, pre_time: int)
    requires
        m.valid(),
        m.min_weight <= w <= m.max_weight,
        post_time >= 0,
        pre_time >= 0,
    ensures
        post_time > pre_time ==> w <= stdp_weight(m, w, post_time, pre_time) <= m.max_weight,
        post_time <= pre_time ==> m.min_weight <= stdp_weight(m, w, post_time, pre_time) <= w,
{
    let delta_t = sat_sub_spec(post_time, pre_time);
    if post_time > pre_time {
        assert(delta_t > 0);
        crate::fixed::lemma_fx_div_nonneg(delta_t, m.tau_plus);
        let x = fx_div_spec(delta_t, m.tau_plus);
        crate::fixed::lemma_exp_neg_bounds(x);
        let raw = stdp_delta(m, post_time, pre_time);
        crate::fixed::lemma_fx_mul_nonneg(m.a_plus, exp_neg_spec(x));
        crate::fixed::lemma_fx_mul_nonneg(m.learning_rate, raw);
    } else {
        assert(delta_t <= 0);
        crate::fixed::lemma_fx_div_nonneg(sat_neg_spec(delta_t), m.tau_minus);
        let x = fx_div_spec(sat_neg_spec(delta_t), m.tau_minus);
        crate::fixed::lemma_exp_neg_bounds(x);
        let raw = stdp_delta(m, post_time, pre_time);
        crate::fixed::lemma_fx_mul_nonpos(m.a_minus, exp_neg_spec(x));
        crate::fixed::lemma_fx_mul_mono_right(m.learning_rate, raw, 0);
        assert(fx_mul_spec(m.learning_rate, 0) == 0);
    }
}

} // verus!
