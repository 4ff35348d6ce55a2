use sparkplug_sim::config::{Device as DeviceConfig, DeviceType};
use sparkplug_sim::device::new_device;
use sparkplug_sim::node::{topic, topic_device};

#[test]
fn node_topic_layout() {
    let t = topic(&"plant1".to_string(), &"line1".to_string(), "NBIRTH");
    assert_eq!(t, "spBv1.0/plant1/NBIRTH/line1");
}

#[test]
fn device_topic_example() {
    let dev = new_device(&DeviceConfig { name: "eng1".to_string(), kind: DeviceType::Engine });
    let group = "plant1".to_string();
    let node = "line1".to_string();
    let a = topic_device(&group, &node, "DDATA", &dev);
    let b = topic_device(&group, &node, "DDATA", &dev);
    assert_eq!(a, "spBv1.0/plant1/DDATA/line1/eng1");
    assert_eq!(a, b);
}
