use crate::config::Node as NodeConfig;
use crate::device::{Device, START_TEMPERATURE, new_device, reported};
use crate::mqtt::LWT;
use crate::sparkplug::{
    MetricConfig, MetricConfigView, MetricView, Payload, PayloadView, Sequence, Value, bd_seq_payload,
    birth_entry, data_entry, dbirth, ddata, ddeath, ndeath, nbirth,
};
use vstd::prelude::*;
use vstd::string::StringExecFns;

verus! {

/// Topic of a node-scoped message: `spBv1.0/{group}/{kind}/{node}`.
pub open spec fn node_topic(group: Seq<char>, node: Seq<char>, kind: Seq<char>) -> Seq<char> {
    "spBv1.0/"@ + group + "/"@ + kind + "/"@ + node
}

/// Topic of a device-scoped message: `spBv1.0/{group}/{kind}/{node}/{device}`.
pub open spec fn device_topic(group: Seq<char>, node: Seq<char>, kind: Seq<char>, device: Seq<char>) -> Seq<char> {
    node_topic(group, node, kind) + "/"@ + device
}

/// The node-scoped topic for `message_type`.
pub fn topic(group_name: &String, node_name: &String, message_type: &str) -> (r: String)
    ensures
        r@ == node_topic(group_name@, node_name@, message_type@),
{
    let mut s = String::from_str("spBv1.0/");
    s.append(group_name.as_str());
    s.append("/");
    s.append(message_type);
    s.append("/");
    s.append(node_name.as_str());
    assert(s@ =~= node_topic(group_name@, node_name@, message_type@));
    s
}

/// The device-scoped topic for `message_type` and `device`.
pub fn topic_device(group_name: &String, node_name: &String, message_type: &str, device: &Device) -> (r: String)
    ensures
        r@ == device_topic(group_name@, node_name@, message_type@, device.spec_name()),
{
    let mut s = topic(group_name, node_name, message_type);
    let name = device.name();
    s.append("/");
    s.append(name.as_str());
    s
}

/// The five kinds of message a node publishes.
#[derive(Clone, Copy, Debug, PartialEq, Eq, Structural)]
pub enum MessageKind {
    NBirth,
    NDeath,
    DBirth,
    DData,
    DDeath,
}

impl MessageKind {
    /// The kind's name as it stands in a topic.
    pub open spec fn label(self) -> Seq<char> {
        match self {
            MessageKind::NBirth => "NBIRTH"@,
            MessageKind::NDeath => "NDEATH"@,
            MessageKind::DBirth => "DBIRTH"@,
            MessageKind::DData => "DDATA"@,
            MessageKind::DDeath => "DDEATH"@,
        }
    }

    /// Device-scoped kinds; they take their sequence number from the counter.
    pub open spec fn is_device(self) -> bool {
        self is DBirth || self is DData || self is DDeath
    }
}

/// A message ready to publish.
pub struct Message {
    pub topic: String,
    pub payload: Payload,
}

/// Mathematical view of a [`Message`].
pub struct MessageView {
    pub topic: Seq<char>,
    pub payload: PayloadView,
}

impl View for Message {
    type V = MessageView;

    open spec fn view(&self) -> MessageView {
        MessageView { topic: self.topic@, payload: self.payload@ }
    }
}

/// One published message with what it was about: its kind and, for a
/// device-scoped message, the index of the device.
pub struct Emitted {
    pub kind: MessageKind,
    pub device: Option<nat>,
    pub message: MessageView,
}

/// Life-cycle phase of a node.
#[derive(Clone, Copy, Debug, PartialEq, Eq, Structural)]
pub enum Phase {
    /// Built; nothing published yet.
    Initializing,
    /// Births published; ticks publish data.
    Running,
    /// Deaths published; nothing more may be published.
    Terminated,
}

/// The sequence numbers carried by the device-scoped messages of `log`, in order.
pub open spec fn device_seqs(log: Seq<Emitted>) -> Seq<Option<u64>>
    decreases log.len(),
{
    if log.len() == 0 {
        Seq::empty()
    } else {
        let prev = device_seqs(log.drop_last());
        if log.last().kind.is_device() {
            prev.push(log.last().message.payload.seq)
        } else {
            prev
        }
    }
}

/// `m` is one of the metrics of `dev`'s declared set, by name and type.
pub open spec fn declared_metric(dev: Device, m: MetricView) -> bool {
    exists|k: int| 0 <= k < dev.declared().len() && (#[trigger] dev.declared()[k]).name == m.name
        && dev.declared()[k].datatype == m.datatype
}

/// The data messages of one tick of every device of `v`, where `outs[d]`
/// is what device `d` reported: one per non-empty report, in device order,
/// numbered on from `v`'s counter.
pub open spec fn data_messages(v: NodeView, outs: Seq<Seq<(MetricConfigView, Value)>>, timestamp: u64) -> Seq<Emitted>
    decreases outs.len(),
{
    if outs.len() == 0 {
        Seq::empty()
    } else {
        let prev = data_messages(v, outs.drop_last(), timestamp);
        let d = outs.len() - 1;
        if outs.last().len() == 0 {
            prev
        } else {
            prev.push(
                Emitted {
                    kind: MessageKind::DData,
                    device: Some(d as nat),
                    message: MessageView {
                        topic: device_topic(v.group, v.name, "DDATA"@, v.devices[d].spec_name()),
                        payload: PayloadView {
                            seq: Some(((v.counter + prev.len() + 1) % 256) as u64),
                            metrics: outs.last().map_values(
                                |p: (MetricConfigView, Value)| data_entry(p.0, p.1, timestamp),
                            ),
                        },
                    },
                },
            )
        }
    }
}

/// A device as built: an engine at speed 0 about to draw, or an inactive
/// controller at 20 degrees.
pub open spec fn fresh(dev: Device) -> bool {
    match dev {
        Device::Engine(e) => e@.last_value == 0 && e@.ticks_until_change == 0,
        Device::ClimateControl(c) => !c@.active && c@.temperature == START_TEMPERATURE,
    }
}

/// A birth payload's entries name the declared metrics, one each, in order
/// and with the declared types.
pub open spec fn announces(metrics: Seq<MetricView>, declared: Seq<MetricConfigView>) -> bool {
    &&& metrics.len() == declared.len()
    &&& forall|k: int|
        0 <= k < metrics.len() ==> (#[trigger] metrics[k]).name == declared[k].name && metrics[k].datatype
            == declared[k].datatype
}

/// State of a node as the contracts see it, with every message it has
/// published so far.
pub struct NodeView {
    pub group: Seq<char>,
    pub name: Seq<char>,
    pub devices: Seq<Device>,
    pub counter: nat,
    pub phase: Phase,
    pub log: Seq<Emitted>,
}

impl NodeView {
    /// `e` went to the topic of its kind and, for a device-scoped
    /// message, of its device.
    pub open spec fn addressed(self, e: Emitted) -> bool {
        match e.device {
            None => !e.kind.is_device() && e.message.topic == node_topic(self.group, self.name, e.kind.label()),
            Some(d) => e.kind.is_device() && d < self.devices.len() && e.message.topic == device_topic(
                self.group,
                self.name,
                e.kind.label(),
                self.devices[d as int].spec_name(),
            ),
        }
    }

    /// Once anything is published, the log opens with the node birth and
    /// then one device birth per device, in declaration order.
    pub open spec fn births_first(self) -> bool {
        self.log.len() > 0 ==> {
            &&& self.log.len() > self.devices.len()
            &&& self.log[0].kind == MessageKind::NBirth
            &&& forall|d: int|
                0 <= d < self.devices.len() ==> (#[trigger] self.log[1 + d]).kind == MessageKind::DBirth
                    && self.log[1 + d].device == Some(d as nat) && announces(
                    self.log[1 + d].message.payload.metrics,
                    self.devices[d].declared(),
                )
        }
    }

    /// Data messages come after the births, are never empty, and carry only
    /// metrics that their device declared.
    pub open spec fn data_ok(self) -> bool {
        forall|i: int|
            0 <= i < self.log.len() && (#[trigger] self.log[i]).kind == MessageKind::DData ==> {
                &&& self.devices.len() < i
                &&& self.log[i].message.payload.metrics.len() > 0
                &&& self.log[i].device matches Some(d) && forall|j: int|
                    0 <= j < self.log[i].message.payload.metrics.len() ==> declared_metric(
                        self.devices[d as int],
                        #[trigger] self.log[i].message.payload.metrics[j],
                    )
            }
    }

    /// The device-scoped messages are numbered 1, 2, 3, ... modulo 256, and
    /// the counter holds the last number handed out.
    pub open spec fn numbered(self) -> bool {
        &&& forall|k: int|
            0 <= k < device_seqs(self.log).len() ==> #[trigger] device_seqs(self.log)[k] == Some(
                ((k + 1) % 256) as u64,
            )
        &&& self.counter == device_seqs(self.log).len() % 256
    }

    /// The node's invariant.
    pub open spec fn wf(self) -> bool {
        &&& forall|d: int| 0 <= d < self.devices.len() ==> (#[trigger] self.devices[d]).wf()
        &&& (self.phase == Phase::Initializing <==> self.log.len() == 0)
        &&& forall|i: int| 0 <= i < self.log.len() ==> self.addressed(#[trigger] self.log[i])
        &&& self.births_first()
        &&& self.data_ok()
        &&& self.numbered()
    }
}

proof fn lemma_device_seqs_push(log: Seq<Emitted>, e: Emitted)
    ensures
        device_seqs(log.push(e)) == if e.kind.is_device() {
            device_seqs(log).push(e.message.payload.seq)
        } else {
            device_seqs(log)
        },
{
    assert(log.push(e).drop_last() =~= log);
}

proof fn lemma_numbered_push(v: NodeView, e: Emitted, c2: nat)
    requires
        v.numbered(),
        e.kind.is_device() ==> c2 == (v.counter + 1) % 256 && e.message.payload.seq == Some(c2 as u64),
        !e.kind.is_device() ==> c2 == v.counter,
    ensures
        (NodeView { log: v.log.push(e), counter: c2, ..v }).numbered(),
{
    lemma_device_seqs_push(v.log, e);
    let n = device_seqs(v.log).len();
    if e.kind.is_device() {
        assert(c2 == (n + 1) % 256) by {
            assert((n % 256 + 1) % 256 == (n + 1) % 256);
        }
        let w = NodeView { log: v.log.push(e), counter: c2, ..v };
        assert forall|k: int| 0 <= k < device_seqs(w.log).len() implies #[trigger] device_seqs(w.log)[k] == Some(
            ((k + 1) % 256) as u64,
        ) by {
            if k < n {
                assert(device_seqs(w.log)[k] == device_seqs(v.log)[k]);
            }
        }
    }
}

/// `w` is `v` after ticks that kept each device's name and declared set.
proof fn lemma_retick(v: NodeView, w: NodeView)
    requires
        v.wf(),
        w == (NodeView { devices: w.devices, ..v }),
        w.devices.len() == v.devices.len(),
        forall|d: int|
            0 <= d < w.devices.len() ==> (#[trigger] w.devices[d]).wf() && w.devices[d].spec_name()
                == v.devices[d].spec_name() && w.devices[d].declared() == v.devices[d].declared(),
    ensures
        w.wf(),
{
    assert forall|i: int| 0 <= i < w.log.len() implies w.addressed(#[trigger] w.log[i]) by {
        assert(v.addressed(v.log[i]));
    }
    assert forall|i: int|
        0 <= i < w.log.len() && (#[trigger] w.log[i]).kind == MessageKind::DData implies {
        &&& w.log[i].device matches Some(e) && forall|j: int|
            0 <= j < w.log[i].message.payload.metrics.len() ==> declared_metric(
                w.devices[e as int],
                #[trigger] w.log[i].message.payload.metrics[j],
            )
    } by {
        let e = v.log[i].device->0 as int;
        assert forall|j: int| 0 <= j < w.log[i].message.payload.metrics.len() implies declared_metric(
            w.devices[e],
            #[trigger] w.log[i].message.payload.metrics[j],
        ) by {
            assert(declared_metric(v.devices[e], v.log[i].message.payload.metrics[j]));
            let k = choose|k: int|
                0 <= k < v.devices[e].declared().len() && (#[trigger] v.devices[e].declared()[k]).name
                    == v.log[i].message.payload.metrics[j].name && v.devices[e].declared()[k].datatype
                    == v.log[i].message.payload.metrics[j].datatype;
            assert(w.devices[e].declared()[k] == v.devices[e].declared()[k]);
        }
    }
    if w.log.len() > 0 {
        assert forall|d: int| 0 <= d < w.devices.len() implies announces(
            (#[trigger] w.log[1 + d]).message.payload.metrics,
            w.devices[d].declared(),
        ) by {
            assert(announces(v.log[1 + d].message.payload.metrics, v.devices[d].declared()));
        }
    }
}

/// `w` is `v` after publishing `e`.
proof fn lemma_extend(v: NodeView, w: NodeView, e: Emitted)
    requires
        v.wf(),
        v.log.len() > 0,
        w.phase != Phase::Initializing,
        w == (NodeView { log: v.log.push(e), counter: w.counter, phase: w.phase, ..v }),
        w.addressed(e),
        e.kind == MessageKind::DData ==> e.message.payload.metrics.len() > 0 && (e.device matches Some(d)
            && forall|j: int|
            0 <= j < e.message.payload.metrics.len() ==> declared_metric(
                w.devices[d as int],
                #[trigger] e.message.payload.metrics[j],
            )),
        e.kind.is_device() ==> w.counter == (v.counter + 1) % 256 && e.message.payload.seq == Some(
            w.counter as u64,
        ),
        !e.kind.is_device() ==> w.counter == v.counter,
    ensures
        w.wf(),
{
    lemma_numbered_push(v, e, w.counter);
    let u = NodeView { log: v.log.push(e), counter: w.counter, ..v };
    assert(device_seqs(u.log) == device_seqs(w.log));
    assert forall|i: int| 0 <= i < w.log.len() implies w.addressed(#[trigger] w.log[i]) by {
        if i < v.log.len() {
            assert(v.addressed(v.log[i]));
        }
    }
    assert forall|i: int|
        0 <= i < w.log.len() && (#[trigger] w.log[i]).kind == MessageKind::DData implies {
        &&& w.devices.len() < i
        &&& w.log[i].message.payload.metrics.len() > 0
        &&& w.log[i].device matches Some(d) && forall|j: int|
            0 <= j < w.log[i].message.payload.metrics.len() ==> declared_metric(
                w.devices[d as int],
                #[trigger] w.log[i].message.payload.metrics[j],
            )
    } by {
        if i < v.log.len() {
            assert(v.log[i] == w.log[i]);
        }
    }
    assert forall|d: int| 0 <= d < w.devices.len() implies (#[trigger] w.log[1 + d]).kind == MessageKind::DBirth
        && w.log[1 + d].device == Some(d as nat) && announces(
        w.log[1 + d].message.payload.metrics,
        w.devices[d].declared(),
    ) by {
        assert(w.log[1 + d] == v.log[1 + d]);
    }
}

/// A device's data message is published only after that device's birth
/// message.
pub proof fn lemma_birth_precedes_data(node: &Node, i: int)
    requires
        node@.wf(),
        0 <= i < node@.log.len(),
        node@.log[i].kind == MessageKind::DData,
    ensures
        exists|j: int|
            0 <= j < i && (#[trigger] node@.log[j]).kind == MessageKind::DBirth && node@.log[j].device
                == node@.log[i].device,
{
    let v = node@;
    assert(v.addressed(v.log[i]));
    let d = v.log[i].device->0 as int;
    assert(v.log[1 + d].kind == MessageKind::DBirth);
}

/// The sequence numbers that a node hands to its device messages run
/// 1, 2, 3, ... modulo 256, with no gap and no repeat within a wrap.
pub proof fn lemma_sequence_numbers(node: &Node)
    requires
        node@.wf(),
    ensures
        forall|k: int|
            0 <= k < device_seqs(node@.log).len() ==> #[trigger] device_seqs(node@.log)[k] == Some(
                ((k + 1) % 256) as u64,
            ),
        node@.counter == device_seqs(node@.log).len() % 256,
{
}

/// Every metric of a data message is one that its device declared at birth.
pub proof fn lemma_data_within_declared(node: &Node, i: int, j: int)
    requires
        node@.wf(),
        0 <= i < node@.log.len(),
        node@.log[i].kind == MessageKind::DData,
        0 <= j < node@.log[i].message.payload.metrics.len(),
    ensures
        node@.log[i].device matches Some(d) && d < node@.devices.len() && declared_metric(
            node@.devices[d as int],
            node@.log[i].message.payload.metrics[j],
        ),
{
    assert(node@.addressed(node@.log[i]));
}

/// Every metric of a device's data message is named, with its type, in
/// that device's birth message.
pub proof fn lemma_data_named_at_birth(node: &Node, i: int, j: int)
    requires
        node@.wf(),
        0 <= i < node@.log.len(),
        node@.log[i].kind == MessageKind::DData,
        0 <= j < node@.log[i].message.payload.metrics.len(),
    ensures
        node@.log[i].device matches Some(d) && {
            &&& i > 1 + d
            &&& node@.log[1 + d as int].kind == MessageKind::DBirth
            &&& node@.log[1 + d as int].device == Some(d)
            &&& exists|k: int|
                0 <= k < node@.log[1 + d as int].message.payload.metrics.len() && (#[trigger] node@.log[1 + d as int].message.payload.metrics[k]).name == node@.log[i].message.payload.metrics[j].name
                    && node@.log[1 + d as int].message.payload.metrics[k].datatype
                    == node@.log[i].message.payload.metrics[j].datatype
        },
{
    let v = node@;
    assert(v.addressed(v.log[i]));
    let d = v.log[i].device->0 as int;
    let m = v.log[i].message.payload.metrics[j];
    assert(declared_metric(v.devices[d], m));
    let k = choose|k: int|
        0 <= k < v.devices[d].declared().len() && (#[trigger] v.devices[d].declared()[k]).name == m.name
            && v.devices[d].declared()[k].datatype == m.datatype;
    assert(announces(v.log[1 + d].message.payload.metrics, v.devices[d].declared()));
    assert(v.log[1 + d].message.payload.metrics[k].name == m.name);
}

/// No data message is empty: a tick that reports nothing publishes nothing.
pub proof fn lemma_no_empty_data(node: &Node, i: int)
    requires
        node@.wf(),
        0 <= i < node@.log.len(),
        node@.log[i].kind == MessageKind::DData,
    ensures
        node@.log[i].message.payload.metrics.len() > 0,
{
}

/// The simulation state of one edge node: its devices, its sequence
/// counter and its life-cycle phase. It decides what to publish; the caller
/// owns the connection and publishes the messages it hands out, in order.
pub struct Node {
    group: String,
    name: String,
    devices: Vec<Device>,
    seq: Sequence,
    phase: Phase,
    log: Ghost<Seq<Emitted>>,
}

impl View for Node {
    type V = NodeView;

    closed spec fn view(&self) -> NodeView {
        NodeView {
            group: self.group@,
            name: self.name@,
            devices: self.devices@,
            counter: self.seq@,
            phase: self.phase,
            log: self.log@,
        }
    }
}

impl Node {
    /// A node in group `group` with the devices of `node_config`, in order.
    pub fn new(node_config: &NodeConfig, group: String) -> (r: Node)
        ensures
            r@.wf(),
            r@.phase == Phase::Initializing,
            r@.group == group@,
            r@.name == node_config.name@,
            r@.counter == 0,
            r@.devices.len() == node_config.devices@.len(),
            forall|d: int|
                0 <= d < r@.devices.len() ==> (#[trigger] r@.devices[d]).spec_name()
                    == node_config.devices@[d].name@ && (r@.devices[d] is Engine <==> node_config.devices@[d].kind
                    == crate::config::DeviceType::Engine) && fresh(r@.devices[d]),
    {
        let mut devices: Vec<Device> = Vec::new();
        let mut i: usize = 0;
        while i < node_config.devices.len()
            invariant
                i <= node_config.devices@.len(),
                devices@.len() == i,
                forall|d: int|
                    0 <= d < i ==> (#[trigger] devices@[d]).wf() && devices@[d].spec_name()
                        == node_config.devices@[d].name@ && (devices@[d] is Engine <==> node_config.devices@[d].kind
                        == crate::config::DeviceType::Engine) && fresh(devices@[d]),
            decreases node_config.devices@.len() - i,
        {
            devices.push(new_device(&node_config.devices[i]));
            i = i + 1;
        }
        let r = Node {
            group,
            name: node_config.name.clone(),
            devices,
            seq: Sequence::new(),
            phase: Phase::Initializing,
            log: Ghost(Seq::empty()),
        };
        assert(device_seqs(r@.log).len() == 0);
        r
    }

    /// The last will to register at connect time: the node death message.
    pub fn last_will(&self, timestamp: u64) -> (r: LWT)
        ensures
            r@.topic == node_topic(self@.group, self@.name, "NDEATH"@),
            r@.payload == bd_seq_payload(0, timestamp),
    {
        LWT { topic: topic(&self.group, &self.name, "NDEATH"), payload: ndeath(0, timestamp) }
    }

    /// Publishes the births: the node birth (sequence 0, `bdSeq` 0), then
    /// one device birth per device, in order, numbered by the counter and
    /// announcing every declared metric with its initial value.
    pub fn birth(&mut self, timestamp: u64) -> (r: Vec<Message>)
        requires
            old(self)@.wf(),
            old(self)@.phase == Phase::Initializing,
        ensures
            final(self)@.wf(),
            final(self)@.phase == Phase::Running,
            final(self)@.group == old(self)@.group,
            final(self)@.name == old(self)@.name,
            final(self)@.devices == old(self)@.devices,
            final(self)@.counter == old(self)@.devices.len() % 256,
            r@.len() == old(self)@.devices.len() + 1,
            final(self)@.log.len() == r@.len(),
            forall|k: int| 0 <= k < r@.len() ==> (#[trigger] final(self)@.log[k]).message == r@[k]@,
            r@[0]@ == (MessageView {
                topic: node_topic(old(self)@.group, old(self)@.name, "NBIRTH"@),
                payload: bd_seq_payload(0, timestamp),
            }),
            forall|k: int|
                1 <= k <= old(self)@.devices.len() ==> (#[trigger] r@[k])@ == (MessageView {
                    topic: device_topic(
                        old(self)@.group,
                        old(self)@.name,
                        "DBIRTH"@,
                        old(self)@.devices[k - 1].spec_name(),
                    ),
                    payload: PayloadView {
                        seq: Some((k % 256) as u64),
                        metrics: old(self)@.devices[k - 1].declared().map_values(
                            |c: MetricConfigView| birth_entry(c, timestamp),
                        ),
                    },
                }),
    {
        let ghost v0 = self@;
        let mut out: Vec<Message> = Vec::new();
        out.push(Message { topic: topic(&self.group, &self.name, "NBIRTH"), payload: nbirth(0, timestamp) });
        let ghost e0 = Emitted { kind: MessageKind::NBirth, device: None, message: out@[0]@ };
        self.log = Ghost(Seq::empty().push(e0));
        proof {
            lemma_device_seqs_push(Seq::empty(), e0);
        }
        let mut i: usize = 0;
        while i < self.devices.len()
            invariant
                v0.wf(),
                v0.phase == Phase::Initializing,
                i <= self.devices@.len(),
                self@.devices == v0.devices,
                self@.group == v0.group,
                self@.name == v0.name,
                self.phase == Phase::Initializing,
                self@.counter == i % 256,
                self.seq.wf(),
                out@.len() == i + 1,
                self@.log.len() == i + 1,
                device_seqs(self@.log).len() == i,
                forall|k: int| 0 <= k < i ==> #[trigger] device_seqs(self@.log)[k] == Some(((k + 1) % 256) as u64),
                forall|k: int| 0 <= k <= i ==> (#[trigger] self@.log[k]).message == out@[k]@,
                forall|k: int| 0 <= k <= i ==> self@.addressed(#[trigger] self@.log[k]),
                self@.log[0].kind == MessageKind::NBirth,
                forall|d: int|
                    0 <= d < i ==> (#[trigger] self@.log[1 + d]).kind == MessageKind::DBirth && self@.log[1
                        + d].device == Some(d as nat),
                out@[0]@ == (MessageView {
                    topic: node_topic(v0.group, v0.name, "NBIRTH"@),
                    payload: bd_seq_payload(0, timestamp),
                }),
                forall|d: int|
                    0 <= d < i ==> (#[trigger] out@[1 + d])@ == (MessageView {
                        topic: device_topic(v0.group, v0.name, "DBIRTH"@, v0.devices[d].spec_name()),
                        payload: PayloadView {
                            seq: Some(((d + 1) % 256) as u64),
                            metrics: v0.devices[d].declared().map_values(
                                |c: MetricConfigView| birth_entry(c, timestamp),
                            ),
                        },
                    }),
            decreases self.devices@.len() - i,
        {
            let device = &self.devices[i];
            let t = topic_device(&self.group, &self.name, "DBIRTH", device);
            let configs = device.metrics_config();
            let n = self.seq.next();
            let payload = dbirth(n, &configs, timestamp);
            assert(payload@.metrics =~= v0.devices[i as int].declared().map_values(
                |c: MetricConfigView| birth_entry(c, timestamp),
            )) by {
                assert forall|j: int| 0 <= j < configs@.len() implies configs@[j]@ == (#[trigger] v0.devices[i as int].declared()[j]) by {
                    assert(configs@.map_values(|c: MetricConfig| c@)[j] == configs@[j]@);
                }
            }
            let m = Message { topic: t, payload };
            let ghost e = Emitted { kind: MessageKind::DBirth, device: Some(i as nat), message: m@ };
            out.push(m);
            proof {
                lemma_device_seqs_push(self.log@, e);
                assert((i as int + 1) % 256 == n) by {
                    assert(((i as int % 256) + 1) % 256 == (i as int + 1) % 256);
                }
            }
            self.log = Ghost(self.log@.push(e));
            i = i + 1;
        }
        self.phase = Phase::Running;
        proof {
            assert forall|k: int| 1 <= k <= v0.devices.len() implies (#[trigger] out@[k])@ == (MessageView {
                topic: device_topic(v0.group, v0.name, "DBIRTH"@, v0.devices[k - 1].spec_name()),
                payload: PayloadView {
                    seq: Some((k % 256) as u64),
                    metrics: v0.devices[k - 1].declared().map_values(|c: MetricConfigView| birth_entry(c, timestamp)),
                },
            }) by {
                assert(out@[1 + (k - 1)] == out@[k]);
            }
            let w = self@;
            assert forall|k: int| 0 <= k < w.log.len() implies w.addressed(#[trigger] w.log[k]) by {}
            assert forall|k: int| 0 <= k < w.log.len() implies (#[trigger] w.log[k]).kind != MessageKind::DData by {
                if k > 0 {
                    assert(w.log[1 + (k - 1)].kind == MessageKind::DBirth);
                }
            }
            assert(w.births_first());
        }
        out
    }

    /// Ticks device `d` once. An empty tick publishes nothing; otherwise the
    /// result is a data message on the device's topic, numbered by the
    /// counter, with one entry per reported metric.
    pub fn tick_device(&mut self, d: usize, timestamp: u64) -> (r: Option<Message>)
        requires
            old(self)@.wf(),
            old(self)@.phase == Phase::Running,
            d < old(self)@.devices.len(),
        ensures
            final(self)@.wf(),
            final(self)@.phase == Phase::Running,
            final(self)@.group == old(self)@.group,
            final(self)@.name == old(self)@.name,
            final(self)@.devices == old(self)@.devices.update(d as int, final(self)@.devices[d as int]),
            exists|out: Seq<(MetricConfigView, Value)>|
                {
                    &&& Device::tick_post(old(self)@.devices[d as int], final(self)@.devices[d as int], out)
                    &&& (r is None <==> out.len() == 0)
                    &&& r matches Some(m) ==> m@ == (MessageView {
                        topic: device_topic(
                            old(self)@.group,
                            old(self)@.name,
                            "DDATA"@,
                            old(self)@.devices[d as int].spec_name(),
                        ),
                        payload: PayloadView {
                            seq: Some(((old(self)@.counter + 1) % 256) as u64),
                            metrics: out.map_values(
                                |p: (MetricConfigView, Value)| data_entry(p.0, p.1, timestamp),
                            ),
                        },
                    })
                },
            r is None ==> final(self)@.log == old(self)@.log && final(self)@.counter == old(self)@.counter,
            r is Some ==> final(self)@.counter == (old(self)@.counter + 1) % 256,
            r matches Some(m) ==> final(self)@.log == old(self)@.log.push(
                Emitted { kind: MessageKind::DData, device: Some(d as nat), message: m@ },
            ),
    {
        let ghost v0 = self@;
        let mut device = self.devices.remove(d);
        assert(device == v0.devices[d as int]);
        let values = device.tick();
        let ghost out = reported(values@);
        self.devices.insert(d, device);
        assert(self.devices@ =~= v0.devices.update(d as int, device));
        proof {
            assert forall|e: int| 0 <= e < self@.devices.len() implies (#[trigger] self@.devices[e]).wf()
                && self@.devices[e].spec_name() == v0.devices[e].spec_name() && self@.devices[e].declared()
                == v0.devices[e].declared() by {
                if e != d {
                    assert(self@.devices[e] == v0.devices[e]);
                }
            }
            lemma_retick(v0, self@);
        }
        if values.len() == 0 {
            assert(out.len() == 0);
            return None;
        }
        let t = topic_device(&self.group, &self.name, "DDATA", &self.devices[d]);
        let n = self.seq.next();
        let payload = ddata(n, values, timestamp);
        let m = Message { topic: t, payload };
        proof {
            let metrics = out.map_values(|p: (MetricConfigView, Value)| data_entry(p.0, p.1, timestamp));
            assert(m@.payload.metrics =~= metrics);
            let e = Emitted { kind: MessageKind::DData, device: Some(d as nat), message: m@ };
            let u = NodeView { devices: self@.devices, ..v0 };
            let w = NodeView { log: v0.log.push(e), ..self@ };
            assert forall|j: int| 0 <= j < e.message.payload.metrics.len() implies declared_metric(
                w.devices[d as int],
                #[trigger] e.message.payload.metrics[j],
            ) by {
                assert(out[j] == (values@[j].0@, values@[j].1));
                let c = values@[j].0@;
                assert(v0.devices[d as int].declared().contains(c));
                let k = choose|k: int| 0 <= k < v0.devices[d as int].declared().len() && v0.devices[d as int].declared()[k] == c;
                assert(w.devices[d as int].declared()[k] == c);
            }
            lemma_extend(u, w, e);
        }
        self.log = Ghost(self.log@.push(Emitted { kind: MessageKind::DData, device: Some(d as nat), message: m@ }));
        Some(m)
    }

    /// One simulation tick: ticks every device once, in declaration order,
    /// and returns one data message for each device whose tick reported
    /// something, in that order, numbered on from the counter.
    pub fn step(&mut self, timestamp: u64) -> (r: Vec<Message>)
        requires
            old(self)@.wf(),
            old(self)@.phase == Phase::Running,
        ensures
            final(self)@.wf(),
            final(self)@.phase == Phase::Running,
            final(self)@.group == old(self)@.group,
            final(self)@.name == old(self)@.name,
            final(self)@.devices.len() == old(self)@.devices.len(),
            forall|d: int|
                0 <= d < old(self)@.devices.len() ==> (#[trigger] final(self)@.devices[d]).spec_name()
                    == old(self)@.devices[d].spec_name() && final(self)@.devices[d].declared()
                    == old(self)@.devices[d].declared(),
            exists|outs: Seq<Seq<(MetricConfigView, Value)>>|
                {
                    &&& outs.len() == old(self)@.devices.len()
                    &&& forall|d: int|
                        0 <= d < outs.len() ==> Device::tick_post(
                            old(self)@.devices[d],
                            final(self)@.devices[d],
                            #[trigger] outs[d],
                        )
                    &&& final(self)@.log == old(self)@.log + data_messages(old(self)@, outs, timestamp)
                    &&& r@.len() == data_messages(old(self)@, outs, timestamp).len()
                    &&& forall|k: int|
                        0 <= k < r@.len() ==> (#[trigger] r@[k])@ == data_messages(
                            old(self)@,
                            outs,
                            timestamp,
                        )[k].message
                },
            final(self)@.counter == (old(self)@.counter + r@.len()) % 256,
    {
        let ghost v0 = self@;
        let ghost mut outs: Seq<Seq<(MetricConfigView, Value)>> = Seq::empty();
        let mut out: Vec<Message> = Vec::new();
        let mut i: usize = 0;
        while i < self.devices.len()
            invariant
                self@.wf(),
                self@.phase == Phase::Running,
                self@.group == v0.group,
                self@.name == v0.name,
                self@.devices.len() == v0.devices.len(),
                i <= self@.devices.len(),
                outs.len() == i,
                forall|d: int| 0 <= d < i ==> Device::tick_post(v0.devices[d], self@.devices[d], #[trigger] outs[d]),
                forall|d: int|
                    0 <= d < i ==> (#[trigger] self@.devices[d]).spec_name() == v0.devices[d].spec_name()
                        && self@.devices[d].declared() == v0.devices[d].declared(),
                forall|d: int| i <= d < v0.devices.len() ==> #[trigger] self@.devices[d] == v0.devices[d],
                self@.log == v0.log + data_messages(v0, outs, timestamp),
                out@.len() == data_messages(v0, outs, timestamp).len(),
                forall|k: int|
                    0 <= k < out@.len() ==> (#[trigger] out@[k])@ == data_messages(v0, outs, timestamp)[k].message,
                self@.counter == (v0.counter + out@.len()) % 256,
            decreases self@.devices.len() - i,
        {
            let ghost before = self@;
            let ghost prev = data_messages(v0, outs, timestamp);
            let r = self.tick_device(i, timestamp);
            let ghost o = choose|o: Seq<(MetricConfigView, Value)>|
                {
                    &&& Device::tick_post(before.devices[i as int], self@.devices[i as int], o)
                    &&& (r is None <==> o.len() == 0)
                    &&& r matches Some(m) ==> m@ == (MessageView {
                        topic: device_topic(before.group, before.name, "DDATA"@, before.devices[i as int].spec_name()),
                        payload: PayloadView {
                            seq: Some(((before.counter + 1) % 256) as u64),
                            metrics: o.map_values(|p: (MetricConfigView, Value)| data_entry(p.0, p.1, timestamp)),
                        },
                    })
                };
            proof {
                let outs0 = outs;
                outs = outs.push(o);
                assert(outs.drop_last() =~= outs0);
                assert(((v0.counter + prev.len()) % 256 + 1) % 256 == (v0.counter + prev.len() + 1) % 256);
            }
            match r {
                Some(m) => {
                    out.push(m);
                },
                None => {},
            }
            proof {
                assert(self@.log =~= v0.log + data_messages(v0, outs, timestamp));
                assert forall|k: int| 0 <= k < out@.len() implies (#[trigger] out@[k])@ == data_messages(v0, outs, timestamp)[k].message by {
                    if k < prev.len() {
                        assert(out@[k]@ == prev[k].message);
                    }
                }
            }
            i = i + 1;
        }
        out
    }

    /// Publishes the deaths: one device death per device, in order,
    /// numbered by the counter and without metrics, then the node death
    /// (sequence 0, `bdSeq` 0). Nothing may be published after it.
    pub fn death(&mut self, timestamp: u64) -> (r: Vec<Message>)
        requires
            old(self)@.wf(),
            old(self)@.phase == Phase::Running,
        ensures
            final(self)@.wf(),
            final(self)@.phase == Phase::Terminated,
            final(self)@.group == old(self)@.group,
            final(self)@.name == old(self)@.name,
            final(self)@.devices == old(self)@.devices,
            r@.len() == old(self)@.devices.len() + 1,
            final(self)@.log.len() == old(self)@.log.len() + r@.len(),
            final(self)@.log.subrange(0, old(self)@.log.len() as int) == old(self)@.log,
            forall|k: int|
                0 <= k < r@.len() ==> (#[trigger] final(self)@.log[old(self)@.log.len() + k]).message == r@[k]@,
            forall|d: int|
                0 <= d < old(self)@.devices.len() ==> (#[trigger] r@[d])@ == (MessageView {
                    topic: device_topic(
                        old(self)@.group,
                        old(self)@.name,
                        "DDEATH"@,
                        old(self)@.devices[d].spec_name(),
                    ),
                    payload: PayloadView {
                        seq: Some(((old(self)@.counter + d + 1) % 256) as u64),
                        metrics: Seq::empty(),
                    },
                }),
            r@[old(self)@.devices.len() as int]@ == (MessageView {
                topic: node_topic(old(self)@.group, old(self)@.name, "NDEATH"@),
                payload: bd_seq_payload(0, timestamp),
            }),
    {
        let ghost v0 = self@;
        let mut out: Vec<Message> = Vec::new();
        let mut i: usize = 0;
        while i < self.devices.len()
            invariant
                self@.wf(),
                self@.phase == Phase::Running,
                self@.group == v0.group,
                self@.name == v0.name,
                self@.devices == v0.devices,
                i <= self@.devices.len(),
                out@.len() == i,
                self@.counter == (v0.counter + i) % 256,
                self@.log.len() == v0.log.len() + i,
                self@.log.subrange(0, v0.log.len() as int) == v0.log,
                forall|k: int| 0 <= k < i ==> (#[trigger] self@.log[v0.log.len() + k]).message == out@[k]@,
                forall|k: int|
                    0 <= k < i ==> (#[trigger] out@[k])@ == (MessageView {
                        topic: device_topic(v0.group, v0.name, "DDEATH"@, v0.devices[k].spec_name()),
                        payload: PayloadView { seq: Some(((v0.counter + k + 1) % 256) as u64), metrics: Seq::empty() },
                    }),
            decreases self@.devices.len() - i,
        {
            let ghost before = self@;
            let t = topic_device(&self.group, &self.name, "DDEATH", &self.devices[i]);
            let n = self.seq.next();
            let m = Message { topic: t, payload: ddeath(n) };
            proof {
                assert(m@.payload.metrics =~= Seq::<MetricView>::empty());
                assert(n == (v0.counter + i + 1) % 256) by {
                    assert(((v0.counter + i) % 256 + 1) % 256 == (v0.counter + i + 1) % 256);
                }
                let e = Emitted { kind: MessageKind::DDeath, device: Some(i as nat), message: m@ };
                lemma_extend(before, NodeView { log: before.log.push(e), ..self@ }, e);
            }
            self.log = Ghost(self.log@.push(Emitted { kind: MessageKind::DDeath, device: Some(i as nat), message: m@ }));
            out.push(m);
            proof {
                assert(self@.log.subrange(0, v0.log.len() as int) =~= before.log.subrange(0, v0.log.len() as int));
            }
            i = i + 1;
        }
        let ghost before = self@;
        let m = Message { topic: topic(&self.group, &self.name, "NDEATH"), payload: ndeath(0, timestamp) };
        self.phase = Phase::Terminated;
        proof {
            let e = Emitted { kind: MessageKind::NDeath, device: None, message: m@ };
            lemma_extend(before, NodeView { log: before.log.push(e), ..self@ }, e);
        }
        self.log = Ghost(self.log@.push(Emitted { kind: MessageKind::NDeath, device: None, message: m@ }));
        out.push(m);
        assert(self@.log.subrange(0, v0.log.len() as int) =~= before.log.subrange(0, v0.log.len() as int));
        out
    }
}

} // verus!