use sparkplug_sim::config::{Device as DeviceConfig, DeviceType, Node as NodeConfig};
use sparkplug_sim::node::{Message, Node};
use sparkplug_sim::sparkplug::Value;

fn line1() -> Node {
    let config = NodeConfig {
        name: "line1".to_string(),
        devices: vec![
            DeviceConfig { name: "eng1".to_string(), kind: DeviceType::Engine },
            DeviceConfig { name: "hvac1".to_string(), kind: DeviceType::ClimateControl },
        ],
    };
    Node::new(&config, "plant1".to_string())
}

#[test]
fn last_will_is_node_death() {
    let node = line1();
    let lwt = node.last_will(10);
    assert_eq!(lwt.topic, "spBv1.0/plant1/NDEATH/line1");
    assert_eq!(lwt.payload.seq, Some(0));
    assert_eq!(lwt.payload.metrics.len(), 1);
    assert_eq!(lwt.payload.metrics[0].name, "bdSeq");
    assert_eq!(lwt.payload.metrics[0].value, Value::Int64(0));
}

#[test]
fn node_lifecycle_three_ticks() {
    let mut node = line1();
    let mut all: Vec<Message> = Vec::new();
    let births = node.birth(1);
    assert_eq!(births.len(), 3);
    assert_eq!(births[0].topic, "spBv1.0/plant1/NBIRTH/line1");
    assert_eq!(births[0].payload.seq, Some(0));
    assert_eq!(births[0].payload.metrics[0].name, "bdSeq");
    assert_eq!(births[1].topic, "spBv1.0/plant1/DBIRTH/line1/eng1");
    assert_eq!(births[1].payload.seq, Some(1));
    assert_eq!(births[1].payload.metrics.len(), 1);
    assert_eq!(births[1].payload.metrics[0].name, "rpm");
    assert_eq!(births[2].topic, "spBv1.0/plant1/DBIRTH/line1/hvac1");
    assert_eq!(births[2].payload.seq, Some(2));
    assert_eq!(births[2].payload.metrics.len(), 2);
    all.extend(births);

    for tick in 0..3 {
        let data = node.step(2 + tick);
        // The controller reports its temperature on every tick.
        let hvac: Vec<&Message> =
            data.iter().filter(|m| m.topic == "spBv1.0/plant1/DDATA/line1/hvac1").collect();
        assert_eq!(hvac.len(), 1);
        for m in &data {
            assert!(m.topic == "spBv1.0/plant1/DDATA/line1/eng1" || m.topic == "spBv1.0/plant1/DDATA/line1/hvac1");
            assert!(!m.payload.metrics.is_empty());
        }
        if tick == 0 {
            // The engine's countdown starts at zero, so it reports at once.
            assert_eq!(data.len(), 2);
            assert_eq!(data[0].topic, "spBv1.0/plant1/DDATA/line1/eng1");
        }
        if tick == 1 {
            // The engine drew a countdown of at least one tick, so it is silent now.
            assert_eq!(data.len(), 1);
        }
        if data.len() == 2 {
            assert_eq!(data[0].topic, "spBv1.0/plant1/DDATA/line1/eng1");
        }
        all.extend(data);
    }

    let deaths = node.death(9);
    assert_eq!(deaths.len(), 3);
    assert_eq!(deaths[0].topic, "spBv1.0/plant1/DDEATH/line1/eng1");
    assert!(deaths[0].payload.metrics.is_empty());
    assert_eq!(deaths[1].topic, "spBv1.0/plant1/DDEATH/line1/hvac1");
    assert_eq!(deaths[2].topic, "spBv1.0/plant1/NDEATH/line1");
    assert_eq!(deaths[2].payload.seq, Some(0));
    all.extend(deaths);

    // Device-scoped messages are numbered 1, 2, 3, ... in emission order.
    let numbers: Vec<u64> = all[1..all.len() - 1].iter().map(|m| m.payload.seq.unwrap()).collect();
    let expected: Vec<u64> = (1..=numbers.len() as u64).collect();
    assert_eq!(numbers, expected);
}
