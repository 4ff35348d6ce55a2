use vstd::prelude::*;
use vstd::string::StringExecFns;

verus! {

/// Type tag of a metric, as announced in birth and data messages.
#[derive(Clone, Copy, Debug, PartialEq, Eq, Structural)]
pub enum DataType {
    Int32,
    Int64,
    Boolean,
    Float,
}

/// A metric value. `Float32` carries a 32-bit float metric in thousandths
/// (a reading of 20.5 is `Float32(20500)`); the transport layer turns it
/// back into a float when it encodes the payload.
#[derive(Clone, Copy, Debug, PartialEq, Eq, Structural)]
pub enum Value {
    Int32(u32),
    Int64(u64),
    Bool(bool),
    Float32(i32),
}

impl Value {
    /// The data type that matches the value's tag.
    pub open spec fn datatype(self) -> DataType {
        match self {
            Value::Int32(_) => DataType::Int32,
            Value::Int64(_) => DataType::Int64,
            Value::Bool(_) => DataType::Boolean,
            Value::Float32(_) => DataType::Float,
        }
    }
}

/// Declaration of one metric that a device reports.
#[derive(Clone, Debug)]
pub struct MetricConfig {
    pub name: String,
    pub datatype: DataType,
    pub initial_value: Value,
}

/// Mathematical view of a [`MetricConfig`].
pub struct MetricConfigView {
    pub name: Seq<char>,
    pub datatype: DataType,
    pub initial_value: Value,
}

impl View for MetricConfig {
    type V = MetricConfigView;

    open spec fn view(&self) -> MetricConfigView {
        MetricConfigView {
            name: self.name@,
            datatype: self.datatype,
            initial_value: self.initial_value,
        }
    }
}

impl MetricConfigView {
    /// The initial value agrees with the declared data type.
    pub open spec fn wf(self) -> bool {
        self.initial_value.datatype() == self.datatype
    }
}

/// One timestamped metric entry of a payload.
pub struct Metric {
    pub name: String,
    pub datatype: DataType,
    pub value: Value,
    pub timestamp: u64,
}

/// Mathematical view of a [`Metric`].
pub struct MetricView {
    pub name: Seq<char>,
    pub datatype: DataType,
    pub value: Value,
    pub timestamp: u64,
}

impl View for Metric {
    type V = MetricView;

    open spec fn view(&self) -> MetricView {
        MetricView {
            name: self.name@,
            datatype: self.datatype,
            value: self.value,
            timestamp: self.timestamp,
        }
    }
}

/// A Sparkplug B payload: an optional sequence number and metric entries.
pub struct Payload {
    pub seq: Option<u64>,
    pub metrics: Vec<Metric>,
}

/// Mathematical view of a [`Payload`].
pub struct PayloadView {
    pub seq: Option<u64>,
    pub metrics: Seq<MetricView>,
}

impl View for Payload {
    type V = PayloadView;

    open spec fn view(&self) -> PayloadView {
        PayloadView { seq: self.seq, metrics: self.metrics@.map_values(|m: Metric| m@) }
    }
}

/// Payload of a node birth or death: sequence 0 and the single `bdSeq` metric.
pub open spec fn bd_seq_payload(bd_seq: u64, timestamp: u64) -> PayloadView {
    PayloadView {
        seq: Some(0),
        metrics: seq![
            MetricView {
                name: "bdSeq"@,
                datatype: DataType::Int64,
                value: Value::Int64(bd_seq),
                timestamp,
            },
        ],
    }
}

/// Entry of a device birth: the declared metric with its initial value.
pub open spec fn birth_entry(c: MetricConfigView, timestamp: u64) -> MetricView {
    MetricView { name: c.name, datatype: c.datatype, value: c.initial_value, timestamp }
}

/// Entry of a data message: the declared metric with its new value.
pub open spec fn data_entry(c: MetricConfigView, v: Value, timestamp: u64) -> MetricView {
    MetricView { name: c.name, datatype: c.datatype, value: v, timestamp }
}

/// Every value agrees with the data type of the metric it is paired with.
pub open spec fn values_match(metrics: Seq<(MetricConfig, Value)>) -> bool {
    forall|i: int| 0 <= i < metrics.len() ==> (#[trigger] metrics[i]).1.datatype() == metrics[i].0.datatype
}

fn bd_seq_metric(bd_seq: u64, timestamp: u64) -> (r: Metric)
    ensures
        r@ == bd_seq_payload(bd_seq, timestamp).metrics[0],
{
    Metric {
        name: String::from_str("bdSeq"),
        datatype: DataType::Int64,
        value: Value::Int64(bd_seq),
        timestamp,
    }
}

/// Node birth payload: sequence 0 and metric `bdSeq` (Int64) holding `bd_seq`,
/// stamped with `timestamp`.
pub fn nbirth(bd_seq: u64, timestamp: u64) -> (r: Payload)
    ensures
        r@ == bd_seq_payload(bd_seq, timestamp),
{
    let mut metrics = Vec::new();
    metrics.push(bd_seq_metric(bd_seq, timestamp));
    let r = Payload { seq: Some(0), metrics };
    assert(r@.metrics =~= bd_seq_payload(bd_seq, timestamp).metrics);
    r
}

/// Device birth payload: sequence `seq` and one entry per declared metric,
/// in order, with its initial value.
pub fn dbirth(seq: u64, metrics: &Vec<MetricConfig>, timestamp: u64) -> (r: Payload)
    ensures
        r@.seq == Some(seq),
        r@.metrics == metrics@.map_values(|c: MetricConfig| birth_entry(c@, timestamp)),
{
    let mut out: Vec<Metric> = Vec::new();
    let mut i: usize = 0;
    while i < metrics.len()
        invariant
            i <= metrics.len(),
            out@.len() == i,
            forall|j: int| 0 <= j < i ==> #[trigger] out@[j]@ == birth_entry(metrics@[j]@, timestamp),
        decreases metrics.len() - i,
    {
        let c = &metrics[i];
        out.push(Metric {
            name: c.name.clone(),
            datatype: c.datatype,
            value: c.initial_value,
            timestamp,
        });
        i = i + 1;
    }
    let r = Payload { seq: Some(seq), metrics: out };
    assert(r@.metrics =~= metrics@.map_values(|c: MetricConfig| birth_entry(c@, timestamp)));
    r
}

/// Device data payload: sequence `seq` and one entry per reported pair, in
/// order, with the reported value.
pub fn ddata(seq: u64, metrics: Vec<(MetricConfig, Value)>, timestamp: u64) -> (r: Payload)
    requires
        values_match(metrics@),
    ensures
        r@.seq == Some(seq),
        r@.metrics == metrics@.map_values(|p: (MetricConfig, Value)| data_entry(p.0@, p.1, timestamp)),
{
    let mut out: Vec<Metric> = Vec::new();
    let mut i: usize = 0;
    while i < metrics.len()
        invariant
            i <= metrics.len(),
            out@.len() == i,
            forall|j: int| 0 <= j < i ==> #[trigger] out@[j]@ == data_entry(metrics@[j].0@, metrics@[j].1, timestamp),
        decreases metrics.len() - i,
    {
        let p = &metrics[i];
        out.push(Metric {
            name: p.0.name.clone(),
            datatype: p.0.datatype,
            value: p.1,
            timestamp,
        });
        i = i + 1;
    }
    let r = Payload { seq: Some(seq), metrics: out };
    assert(r@.metrics =~= metrics@.map_values(|p: (MetricConfig, Value)| data_entry(p.0@, p.1, timestamp)));
    r
}

/// Node death payload: the same shape as the node birth payload, so that
/// subscribers can pair the two by `bdSeq`.
pub fn ndeath(bd_seq: u64, timestamp: u64) -> (r: Payload)
    ensures
        r@ == bd_seq_payload(bd_seq, timestamp),
{
    let mut metrics = Vec::new();
    metrics.push(bd_seq_metric(bd_seq, timestamp));
    let r = Payload { seq: Some(0), metrics };
    assert(r@.metrics =~= bd_seq_payload(bd_seq, timestamp).metrics);
    r
}

/// Device death payload: sequence `seq` and no metrics.
pub fn ddeath(seq: u64) -> (r: Payload)
    ensures
        r@.seq == Some(seq),
        r@.metrics.len() == 0,
{
    Payload { seq: Some(seq), metrics: Vec::new() }
}

/// Per-node payload counter: a value in `[0, 255]` that wraps after 255.
pub struct Sequence {
    inner: u64,
}

impl View for Sequence {
    type V = nat;

    closed spec fn view(&self) -> nat {
        self.inner as nat
    }
}

impl Sequence {
    /// The counter stays within one byte.
    pub open spec fn wf(&self) -> bool {
        self@ < 256
    }

    /// A counter at zero; its first `next` returns 1.
    pub fn new() -> (r: Sequence)
        ensures
            r@ == 0,
            r.wf(),
    {
        Sequence { inner: 0 }
    }

    /// Advances the counter by one modulo 256 and returns the new value.
    pub fn next(&mut self) -> (r: u64)
        requires
            old(self).wf(),
        ensures
            final(self).wf(),
            r as nat == (old(self)@ + 1) % 256,
            final(self)@ == r as nat,
    {
        self.inner = (self.inner + 1) % 256;
        self.inner
    }
}

proof fn lemma_next_run_at(start: nat, rs: Seq<u64>, i: int)
    requires
        rs.len() > 0 ==> rs[0] as nat == (start + 1) % 256,
        forall|t: int| 0 <= t < rs.len() - 1 ==> #[trigger] rs[t + 1] as nat == (rs[t] + 1) % 256,
        0 <= i < rs.len(),
    ensures
        rs[i] as nat == (start + i + 1) % 256,
    decreases i,
{
    if i > 0 {
        lemma_next_run_at(start, rs, i - 1);
        assert(rs[(i - 1) + 1] as nat == (rs[i - 1] + 1) % 256);
        assert(((start + i) % 256 + 1) % 256 == (start + i + 1) % 256);
    }
}

/// Consecutive calls of `next` on a counter at `start` return
/// `start + 1, start + 2, ...` modulo 256: within 256 calls no value comes
/// twice, and 256 calls return every value of `[0, 255]` exactly once.
pub proof fn lemma_next_run(start: nat, rs: Seq<u64>)
    requires
        start < 256,
        rs.len() <= 256,
        rs.len() > 0 ==> rs[0] as nat == (start + 1) % 256,
        forall|t: int| 0 <= t < rs.len() - 1 ==> #[trigger] rs[t + 1] as nat == (rs[t] + 1) % 256,
    ensures
        forall|i: int| 0 <= i < rs.len() ==> #[trigger] rs[i] as nat == (start + i + 1) % 256,
        forall|i: int, j: int| 0 <= i < j < rs.len() ==> rs[i] != rs[j],
        rs.len() == 256 ==> forall|v: u64| v < 256 ==> #[trigger] rs.contains(v),
{
    assert forall|i: int| 0 <= i < rs.len() implies #[trigger] rs[i] as nat == (start + i + 1) % 256 by {
        lemma_next_run_at(start, rs, i);
    }
    assert forall|i: int, j: int| 0 <= i < j < rs.len() implies rs[i] != rs[j] by {
        lemma_next_run_at(start, rs, i);
        lemma_next_run_at(start, rs, j);
        let a = start + i + 1;
        let b = start + j + 1;
        assert(a % 256 != b % 256) by (nonlinear_arith)
            requires
                0 < b - a < 256,
                a >= 0,
        {
        }
    }
    if rs.len() == 256 {
        assert forall|v: u64| v < 256 implies #[trigger] rs.contains(v) by {
            let i = (v + 511 - start) % 256;
            lemma_next_run_at(start, rs, i);
            assert((start + i + 1) % 256 == v as int) by (nonlinear_arith)
                requires
                    i == (v + 511 - start) % 256,
                    start < 256,
                    v < 256,
            {
            }
            assert(rs[i] == v);
        }
    }
}

} // verus!
