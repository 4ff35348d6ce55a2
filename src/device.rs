use crate::config::{Device as DeviceConfig, DeviceType};
use crate::sparkplug::{DataType, MetricConfig, MetricConfigView, Value, values_match};
use rand::rngs::StdRng;
use rand::{Rng, SeedableRng};
use vstd::prelude::*;
use vstd::string::StringExecFns;

verus! {

#[verifier::external_type_specification]
#[verifier::external_body]
pub struct ExStdRng(StdRng);

/// Relies on rand's `Rng::gen_range`: a value drawn uniformly from `[lo, hi)`;
/// it panics only on an empty range.
#[verifier::external_body]
fn draw(rng: &mut StdRng, lo: u32, hi: u32) -> (r: u32)
    requires
        lo < hi,
    ensures
        lo <= r < hi,
{
    rng.gen_range(lo..hi)
}

/// Relies on rand's `SeedableRng::from_entropy`: a generator seeded by the
/// operating system (it panics only if that random source fails).
#[verifier::external_body]
fn entropy_rng() -> StdRng {
    StdRng::from_entropy()
}

/// Relies on rand's `SeedableRng::seed_from_u64`: a generator whose draws
/// are fixed by `seed`.
#[verifier::external_body]
fn seeded_rng(seed: u64) -> StdRng {
    StdRng::seed_from_u64(seed)
}

/// Lowest engine speed that a change can draw.
pub const RPM_LOW: u32 = 100;
/// Engine speeds are drawn below this bound.
pub const RPM_HIGH: u32 = 500;
/// Shortest countdown to the next engine change.
pub const TICKS_LOW: u32 = 1;
/// Countdowns are drawn below this bound.
pub const TICKS_HIGH: u32 = 10;
/// Smallest temperature step, in thousandths of a degree.
pub const STEP_LOW: u32 = 100;
/// Temperature steps are drawn below this bound, in thousandths of a degree.
pub const STEP_HIGH: u32 = 1500;
/// Temperature of a new climate controller, in thousandths of a degree.
pub const START_TEMPERATURE: i32 = 20000;
/// An inactive controller switches on above this temperature.
pub const ACTIVATE_ABOVE: i32 = 30000;
/// An active controller stays on while above this temperature.
pub const STAY_ACTIVE_ABOVE: i32 = 25000;

/// The declaration of the engine's `rpm` metric.
pub open spec fn rpm_metric() -> MetricConfigView {
    MetricConfigView { name: "rpm"@, datatype: DataType::Int32, initial_value: Value::Int32(0) }
}

/// The declaration of the climate controller's `temperature` metric.
pub open spec fn temperature_metric() -> MetricConfigView {
    MetricConfigView {
        name: "temperature"@,
        datatype: DataType::Float,
        initial_value: Value::Float32(START_TEMPERATURE),
    }
}

/// The declaration of the climate controller's `climateactive` metric.
pub open spec fn climate_active_metric() -> MetricConfigView {
    MetricConfigView {
        name: "climateactive"@,
        datatype: DataType::Boolean,
        initial_value: Value::Bool(false),
    }
}

/// The view of a tick's output: each metric's declaration with its value.
pub open spec fn reported(out: Seq<(MetricConfig, Value)>) -> Seq<(MetricConfigView, Value)> {
    out.map_values(|p: (MetricConfig, Value)| (p.0@, p.1))
}

/// Every reported metric is one of `declared`.
pub open spec fn within(out: Seq<(MetricConfig, Value)>, declared: Seq<MetricConfigView>) -> bool {
    forall|i: int| 0 <= i < out.len() ==> declared.contains((#[trigger] out[i]).0@)
}

/// The `rpm` declaration.
pub fn metric_rpm() -> (r: MetricConfig)
    ensures
        r@ == rpm_metric(),
        r@.wf(),
{
    MetricConfig { name: String::from_str("rpm"), datatype: DataType::Int32, initial_value: Value::Int32(0) }
}

/// The `temperature` declaration.
pub fn metric_temperature() -> (r: MetricConfig)
    ensures
        r@ == temperature_metric(),
        r@.wf(),
{
    MetricConfig {
        name: String::from_str("temperature"),
        datatype: DataType::Float,
        initial_value: Value::Float32(START_TEMPERATURE),
    }
}

/// The `climateactive` declaration.
pub fn metric_climate_active() -> (r: MetricConfig)
    ensures
        r@ == climate_active_metric(),
        r@.wf(),
{
    MetricConfig {
        name: String::from_str("climateactive"),
        datatype: DataType::Boolean,
        initial_value: Value::Bool(false),
    }
}

/// State of an engine as the contracts see it.
pub struct EngineView {
    pub name: Seq<char>,
    pub last_value: u32,
    pub ticks_until_change: u32,
}

/// An engine whose speed changes at random moments to random values.
pub struct Engine {
    name: String,
    last_value: u32,
    next_change: u32,
    rng: StdRng,
}

impl View for Engine {
    type V = EngineView;

    closed spec fn view(&self) -> EngineView {
        EngineView { name: self.name@, last_value: self.last_value, ticks_until_change: self.next_change }
    }
}

impl Engine {
    /// What one tick does: while the countdown runs it only counts down;
    /// at zero it draws a speed in `[100, 500)`, reports it if it differs
    /// from the last one, and draws a countdown in `[1, 10)`.
    pub open spec fn tick_post(pre: EngineView, post: EngineView, out: Seq<(MetricConfigView, Value)>) -> bool {
        &&& post.name == pre.name
        &&& if pre.ticks_until_change > 0 {
            &&& post.ticks_until_change == pre.ticks_until_change - 1
            &&& post.last_value == pre.last_value
            &&& out.len() == 0
        } else {
            &&& RPM_LOW <= post.last_value < RPM_HIGH
            &&& TICKS_LOW <= post.ticks_until_change < TICKS_HIGH
            &&& out == if post.last_value != pre.last_value {
                seq![(rpm_metric(), Value::Int32(post.last_value))]
            } else {
                Seq::empty()
            }
        }
    }

    fn with_rng(config: &DeviceConfig, rng: StdRng) -> (r: Engine)
        ensures
            r@ == (EngineView { name: config.name@, last_value: 0, ticks_until_change: 0 }),
    {
        Engine { name: config.name.clone(), last_value: 0, next_change: 0, rng }
    }

    /// A new engine at speed 0 whose first tick draws a speed.
    pub fn new(config: &DeviceConfig) -> (r: Engine)
        ensures
            r@ == (EngineView { name: config.name@, last_value: 0, ticks_until_change: 0 }),
    {
        Engine::with_rng(config, entropy_rng())
    }

    /// As `new`, with draws fixed by `seed`.
    pub fn with_seed(config: &DeviceConfig, seed: u64) -> (r: Engine)
        ensures
            r@ == (EngineView { name: config.name@, last_value: 0, ticks_until_change: 0 }),
    {
        Engine::with_rng(config, seeded_rng(seed))
    }

    /// The device's name.
    pub fn name(&self) -> (r: String)
        ensures
            r@ == self@.name,
    {
        self.name.clone()
    }

    /// The metrics an engine reports: `rpm` alone.
    pub fn metrics_config(&self) -> (r: Vec<MetricConfig>)
        ensures
            r@.map_values(|c: MetricConfig| c@) == seq![rpm_metric()],
    {
        let mut metrics = Vec::new();
        metrics.push(metric_rpm());
        assert(metrics@.map_values(|c: MetricConfig| c@) =~= seq![rpm_metric()]);
        metrics
    }

    /// Advances the engine by one tick and returns the metrics it reports.
    pub fn tick(&mut self) -> (r: Vec<(MetricConfig, Value)>)
        ensures
            Engine::tick_post(old(self)@, final(self)@, reported(r@)),
    {
        let mut metrics = Vec::new();
        if self.next_change == 0 {
            let next_value = draw(&mut self.rng, RPM_LOW, RPM_HIGH);
            if next_value != self.last_value {
                metrics.push((metric_rpm(), Value::Int32(next_value)));
            }
            self.last_value = next_value;
            self.next_change = draw(&mut self.rng, TICKS_LOW, TICKS_HIGH);
        } else {
            self.next_change = self.next_change - 1;
        }
        assert(reported(metrics@) =~= if self.last_value != old(self).last_value {
            seq![(rpm_metric(), Value::Int32(self.last_value))]
        } else {
            Seq::empty()
        });
        metrics
    }

    /// The last speed drawn.
    pub fn last_value(&self) -> (r: u32)
        ensures
            r == self@.last_value,
    {
        self.last_value
    }

    /// Ticks left before the next speed draw.
    pub fn ticks_until_change(&self) -> (r: u32)
        ensures
            r == self@.ticks_until_change,
    {
        self.next_change
    }
}

/// State of a climate controller as the contracts see it; the temperature
/// is in thousandths of a degree.
pub struct ClimateControlView {
    pub name: Seq<char>,
    pub active: bool,
    pub temperature: int,
}

/// A climate controller: it warms while inactive and cools while active,
/// switching on above 30 degrees and staying on while above 25 degrees.
pub struct ClimateControl {
    name: String,
    active: bool,
    last_temperature: i32,
    rng: StdRng,
}

impl View for ClimateControl {
    type V = ClimateControlView;

    closed spec fn view(&self) -> ClimateControlView {
        ClimateControlView { name: self.name@, active: self.active, temperature: self.last_temperature as int }
    }
}

impl ClimateControlView {
    /// The range that the temperature keeps in each state.
    pub open spec fn wf(self) -> bool {
        if self.active {
            STAY_ACTIVE_ABOVE < self.temperature < ACTIVATE_ABOVE + STEP_HIGH
        } else {
            START_TEMPERATURE <= self.temperature <= ACTIVATE_ABOVE
        }
    }

    /// The state after a tick that moved the temperature to `t`.
    pub open spec fn next_active(self, t: int) -> bool {
        if self.active {
            t > STAY_ACTIVE_ABOVE
        } else {
            t > ACTIVATE_ABOVE
        }
    }
}

impl ClimateControl {
    /// What one tick does: the temperature moves by a step in `[0.1, 1.5)`
    /// degrees, up while inactive and down while active, and is always
    /// reported; the state then follows the hysteresis rule, and is reported
    /// only when it flips.
    pub open spec fn tick_post(
        pre: ClimateControlView,
        post: ClimateControlView,
        out: Seq<(MetricConfigView, Value)>,
    ) -> bool {
        &&& post.name == pre.name
        &&& if pre.active {
            pre.temperature - STEP_HIGH < post.temperature <= pre.temperature - STEP_LOW
        } else {
            pre.temperature + STEP_LOW <= post.temperature < pre.temperature + STEP_HIGH
        }
        &&& post.active == pre.next_active(post.temperature)
        &&& out == seq![(temperature_metric(), Value::Float32(post.temperature as i32))] + if post.active
            != pre.active {
            seq![(climate_active_metric(), Value::Bool(post.active))]
        } else {
            Seq::empty()
        }
    }

    fn with_rng(config: &DeviceConfig, rng: StdRng) -> (r: ClimateControl)
        ensures
            r@ == (ClimateControlView { name: config.name@, active: false, temperature: START_TEMPERATURE as int }),
            r@.wf(),
    {
        ClimateControl { name: config.name.clone(), active: false, last_temperature: START_TEMPERATURE, rng }
    }

    /// A new controller: inactive, at 20 degrees.
    pub fn new(config: &DeviceConfig) -> (r: ClimateControl)
        ensures
            r@ == (ClimateControlView { name: config.name@, active: false, temperature: START_TEMPERATURE as int }),
            r@.wf(),
    {
        ClimateControl::with_rng(config, entropy_rng())
    }

    /// As `new`, with draws fixed by `seed`.
    pub fn with_seed(config: &DeviceConfig, seed: u64) -> (r: ClimateControl)
        ensures
            r@ == (ClimateControlView { name: config.name@, active: false, temperature: START_TEMPERATURE as int }),
            r@.wf(),
    {
        ClimateControl::with_rng(config, seeded_rng(seed))
    }

    /// The device's name.
    pub fn name(&self) -> (r: String)
        ensures
            r@ == self@.name,
    {
        self.name.clone()
    }

    /// The metrics a controller reports: `climateactive` and `temperature`.
    pub fn metrics_config(&self) -> (r: Vec<MetricConfig>)
        ensures
            r@.map_values(|c: MetricConfig| c@) == seq![climate_active_metric(), temperature_metric()],
    {
        let mut metrics = Vec::new();
        metrics.push(metric_climate_active());
        metrics.push(metric_temperature());
        assert(metrics@.map_values(|c: MetricConfig| c@) =~= seq![climate_active_metric(), temperature_metric()]);
        metrics
    }

    /// Advances the controller by one tick and returns the metrics it reports.
    pub fn tick(&mut self) -> (r: Vec<(MetricConfig, Value)>)
        requires
            old(self)@.wf(),
        ensures
            final(self)@.wf(),
            ClimateControl::tick_post(old(self)@, final(self)@, reported(r@)),
    {
        let mut metrics = Vec::new();
        let change = draw(&mut self.rng, STEP_LOW, STEP_HIGH) as i32;
        if self.active {
            self.last_temperature = self.last_temperature - change;
        } else {
            self.last_temperature = self.last_temperature + change;
        }
        metrics.push((metric_temperature(), Value::Float32(self.last_temperature)));
        let last_state = self.active;
        self.active = if self.active {
            self.last_temperature > STAY_ACTIVE_ABOVE
        } else {
            self.last_temperature > ACTIVATE_ABOVE
        };
        if last_state != self.active {
            metrics.push((metric_climate_active(), Value::Bool(self.active)));
        }
        assert(reported(metrics@) =~= seq![(temperature_metric(), Value::Float32(self.last_temperature))]
            + if self.active != last_state {
            seq![(climate_active_metric(), Value::Bool(self.active))]
        } else {
            Seq::empty()
        });
        metrics
    }

    /// Whether the controller is cooling.
    pub fn active(&self) -> (r: bool)
        ensures
            r == self@.active,
    {
        self.active
    }

    /// The current temperature, in thousandths of a degree.
    pub fn temperature(&self) -> (r: i32)
        ensures
            r as int == self@.temperature,
    {
        self.last_temperature
    }
}

proof fn lemma_inactive_prefix(
    states: Seq<ClimateControlView>,
    outs: Seq<Seq<(MetricConfigView, Value)>>,
    i: int,
)
    requires
        states.len() == outs.len() + 1,
        !states[0].active,
        forall|t: int| 0 <= t < outs.len() ==> ClimateControl::tick_post(states[t], #[trigger] states[t + 1], outs[t]),
        0 <= i < states.len(),
        forall|j: int| 0 < j <= i ==> (#[trigger] states[j]).temperature <= ACTIVATE_ABOVE,
    ensures
        !states[i].active,
    decreases i,
{
    if i > 0 {
        lemma_inactive_prefix(states, outs, i - 1);
        assert(ClimateControl::tick_post(states[i - 1], states[(i - 1) + 1], outs[i - 1]));
    }
}

/// Over a run of ticks from an inactive controller, the controller turns
/// active exactly on the first tick whose temperature exceeds 30 degrees,
/// and the `climateactive` metric is reported on that tick and on no tick
/// before it.
pub proof fn lemma_hysteresis_run(states: Seq<ClimateControlView>, outs: Seq<Seq<(MetricConfigView, Value)>>)
    requires
        states.len() == outs.len() + 1,
        !states[0].active,
        forall|t: int| 0 <= t < outs.len() ==> ClimateControl::tick_post(states[t], #[trigger] states[t + 1], outs[t]),
    ensures
        forall|i: int|
            0 <= i < outs.len() && (forall|j: int| 0 < j <= i ==> (#[trigger] states[j]).temperature <= ACTIVATE_ABOVE)
                ==> {
                &&& (#[trigger] states[i + 1]).active == (states[i + 1].temperature > ACTIVATE_ABOVE)
                &&& outs[i].len() == if states[i + 1].active { 2int } else { 1int }
                &&& outs[i][0] == (temperature_metric(), Value::Float32(states[i + 1].temperature as i32))
                &&& states[i + 1].active ==> outs[i][1] == (climate_active_metric(), Value::Bool(true))
            },
{
    assert forall|i: int|
        0 <= i < outs.len() && (forall|j: int| 0 < j <= i ==> (#[trigger] states[j]).temperature <= ACTIVATE_ABOVE)
            implies {
            &&& (#[trigger] states[i + 1]).active == (states[i + 1].temperature > ACTIVATE_ABOVE)
            &&& outs[i].len() == if states[i + 1].active { 2int } else { 1int }
            &&& outs[i][0] == (temperature_metric(), Value::Float32(states[i + 1].temperature as i32))
            &&& states[i + 1].active ==> outs[i][1] == (climate_active_metric(), Value::Bool(true))
        } by {
        lemma_inactive_prefix(states, outs, i);
        assert(ClimateControl::tick_post(states[i], states[i + 1], outs[i]));
    }
}

/// A simulated device of one of the supported kinds.
pub enum Device {
    Engine(Engine),
    ClimateControl(ClimateControl),
}

impl Device {
    /// The device's internal state is in range.
    pub open spec fn wf(&self) -> bool {
        match self {
            Device::Engine(_) => true,
            Device::ClimateControl(c) => c@.wf(),
        }
    }

    /// The device's name.
    pub open spec fn spec_name(&self) -> Seq<char> {
        match self {
            Device::Engine(e) => e@.name,
            Device::ClimateControl(c) => c@.name,
        }
    }

    /// The complete set of metrics the device announces at birth, in order.
    pub open spec fn declared(&self) -> Seq<MetricConfigView> {
        match self {
            Device::Engine(_) => seq![rpm_metric()],
            Device::ClimateControl(_) => seq![climate_active_metric(), temperature_metric()],
        }
    }

    /// One tick took the device from `pre` to `post`, reporting `out`.
    pub open spec fn tick_post(pre: Device, post: Device, out: Seq<(MetricConfigView, Value)>) -> bool {
        match (pre, post) {
            (Device::Engine(a), Device::Engine(b)) => Engine::tick_post(a@, b@, out),
            (Device::ClimateControl(a), Device::ClimateControl(b)) => ClimateControl::tick_post(a@, b@, out),
            _ => false,
        }
    }

    /// The device's name.
    pub fn name(&self) -> (r: String)
        ensures
            r@ == self.spec_name(),
    {
        match self {
            Device::Engine(e) => e.name(),
            Device::ClimateControl(c) => c.name(),
        }
    }

    /// The complete set of metrics the device will ever report, in order;
    /// each initial value has its metric's data type.
    pub fn metrics_config(&self) -> (r: Vec<MetricConfig>)
        ensures
            r@.map_values(|c: MetricConfig| c@) == self.declared(),
            forall|i: int| 0 <= i < r@.len() ==> (#[trigger] r@[i])@.wf(),
    {
        let r = match self {
            Device::Engine(e) => e.metrics_config(),
            Device::ClimateControl(c) => c.metrics_config(),
        };
        assert forall|i: int| 0 <= i < r@.len() implies (#[trigger] r@[i])@.wf() by {
            assert(r@.map_values(|c: MetricConfig| c@)[i] == r@[i]@);
            assert(self.declared()[i] == r@[i]@);
            assert(r@.len() == self.declared().len());
            match self {
                Device::Engine(_) => {
                    assert(self.declared()[0] == rpm_metric());
                    assert(rpm_metric().wf());
                },
                Device::ClimateControl(_) => {
                    assert(self.declared()[0] == climate_active_metric());
                    assert(self.declared()[1] == temperature_metric());
                    assert(climate_active_metric().wf());
                    assert(temperature_metric().wf());
                    if i == 0 {
                    } else {
                        assert(i == 1);
                    }
                },
            }
            assert(self.declared()[i].wf());
        }
        r
    }

    /// Advances the device by one tick; returns the metrics it reports,
    /// each one of its declared metrics with a value of the declared type.
    pub fn tick(&mut self) -> (r: Vec<(MetricConfig, Value)>)
        requires
            old(self).wf(),
        ensures
            final(self).wf(),
            final(self).spec_name() == old(self).spec_name(),
            final(self).declared() == old(self).declared(),
            Device::tick_post(*old(self), *final(self), reported(r@)),
            within(r@, old(self).declared()),
            values_match(r@),
    {
        let r = match self {
            Device::Engine(e) => e.tick(),
            Device::ClimateControl(c) => c.tick(),
        };
        assert forall|i: int| 0 <= i < r@.len() implies old(self).declared().contains((#[trigger] r@[i]).0@)
            && r@[i].1.datatype() == r@[i].0.datatype by {
            let out = reported(r@);
            assert(out[i] == (r@[i].0@, r@[i].1));
            match (*old(self), *self) {
                (Device::Engine(a), Device::Engine(b)) => {
                    assert(out[i] == (rpm_metric(), Value::Int32(b@.last_value)));
                    assert(old(self).declared()[0] == rpm_metric());
                },
                (Device::ClimateControl(a), Device::ClimateControl(b)) => {
                    assert(old(self).declared()[0] == climate_active_metric());
                    assert(old(self).declared()[1] == temperature_metric());
                    let t = (temperature_metric(), Value::Float32(b@.temperature as i32));
                    if b@.active != a@.active {
                        assert(out =~= seq![t, (climate_active_metric(), Value::Bool(b@.active))]);
                    } else {
                        assert(out =~= seq![t]);
                    }
                    if i == 0 {
                        assert(out[i] == t);
                    } else {
                        assert(out[i] == (climate_active_metric(), Value::Bool(b@.active)));
                    }
                },
                _ => {},
            }
        }
        r
    }
}

/// Builds the device that `config` describes.
pub fn new_device(config: &DeviceConfig) -> (r: Device)
    ensures
        r.wf(),
        r.spec_name() == config.name@,
        r is Engine <==> config.kind == DeviceType::Engine,
        r matches Device::Engine(e) ==> e@.last_value == 0 && e@.ticks_until_change == 0,
        r matches Device::ClimateControl(c) ==> !c@.active && c@.temperature == START_TEMPERATURE,
{
    match config.kind {
        DeviceType::Engine => Device::Engine(Engine::new(config)),
        DeviceType::ClimateControl => Device::ClimateControl(ClimateControl::new(config)),
    }
}

} // verus!
