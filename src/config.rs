use vstd::prelude::*;

verus! {

/// The kinds of simulated device that a node can own.
#[derive(Clone, Copy, Debug, PartialEq, Eq, Structural)]
pub enum DeviceType {
    Engine,
    ClimateControl,
}

/// Configuration of one device: its name and its kind.
#[derive(Clone, Debug)]
pub struct Device {
    pub name: String,
    pub kind: DeviceType,
}

/// Configuration of one node: its name and its devices, in order.
#[derive(Clone, Debug)]
pub struct Node {
    pub name: String,
    pub devices: Vec<Device>,
}

/// Where the nodes connect.
#[derive(Clone, Debug)]
pub struct Broker {
    pub url: String,
}

/// Configuration of the whole simulation.
#[derive(Clone, Debug)]
pub struct Config {
    pub nodes: Vec<Node>,
    pub group: String,
    pub broker: Broker,
}

} // verus!
