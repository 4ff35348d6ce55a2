use sparkplug_sim::config::{Device as DeviceConfig, DeviceType};
use sparkplug_sim::device::{new_device, ClimateControl, Device, Engine};
use sparkplug_sim::sparkplug::{DataType, Value};

fn cfg(name: &str, kind: DeviceType) -> DeviceConfig {
    DeviceConfig { name: name.to_string(), kind }
}

#[test]
fn engine_declares_rpm() {
    let e = Engine::new(&cfg("eng1", DeviceType::Engine));
    let m = e.metrics_config();
    assert_eq!(m.len(), 1);
    assert_eq!(m[0].name, "rpm");
    assert_eq!(m[0].datatype, DataType::Int32);
    assert_eq!(m[0].initial_value, Value::Int32(0));
    assert_eq!(e.name(), "eng1");
}

#[test]
fn climate_declares_state_and_temperature() {
    let c = ClimateControl::new(&cfg("hvac1", DeviceType::ClimateControl));
    let m = c.metrics_config();
    assert_eq!(m.len(), 2);
    assert_eq!(m[0].name, "climateactive");
    assert_eq!(m[0].datatype, DataType::Boolean);
    assert_eq!(m[0].initial_value, Value::Bool(false));
    assert_eq!(m[1].name, "temperature");
    assert_eq!(m[1].datatype, DataType::Float);
    assert_eq!(m[1].initial_value, Value::Float32(20000));
    assert!(!c.active());
    assert_eq!(c.temperature(), 20000);
}

#[test]
fn engine_countdown_and_redraw() {
    let mut e = Engine::with_seed(&cfg("eng1", DeviceType::Engine), 42);
    assert_eq!(e.ticks_until_change(), 0);
    // The countdown starts at zero: the first tick draws a speed and a countdown.
    let out = e.tick();
    let rpm = e.last_value();
    assert!((100..500).contains(&rpm));
    assert_eq!(out.len(), 1);
    assert_eq!(out[0].0.name, "rpm");
    assert_eq!(out[0].1, Value::Int32(rpm));
    for _round in 0..20 {
        let wait = e.ticks_until_change();
        assert!((1..10).contains(&wait));
        let before = e.last_value();
        for left in (0..wait).rev() {
            assert!(e.tick().is_empty());
            assert_eq!(e.ticks_until_change(), left);
            assert_eq!(e.last_value(), before);
        }
        let out = e.tick();
        let now = e.last_value();
        assert!((100..500).contains(&now));
        assert!((1..10).contains(&e.ticks_until_change()));
        if now == before {
            assert!(out.is_empty());
        } else {
            assert_eq!(out.len(), 1);
            assert_eq!(out[0].1, Value::Int32(now));
        }
    }
}

#[test]
fn engine_same_seed_same_run() {
    let mut a = Engine::with_seed(&cfg("a", DeviceType::Engine), 7);
    let mut b = Engine::with_seed(&cfg("b", DeviceType::Engine), 7);
    for _ in 0..50 {
        let x: Vec<Value> = a.tick().into_iter().map(|p| p.1).collect();
        let y: Vec<Value> = b.tick().into_iter().map(|p| p.1).collect();
        assert_eq!(x, y);
        assert_eq!(a.ticks_until_change(), b.ticks_until_change());
    }
}

#[test]
fn climate_hysteresis_from_twenty_degrees() {
    let mut c = ClimateControl::with_seed(&cfg("hvac1", DeviceType::ClimateControl), 3);
    let mut flipped = false;
    for _ in 0..200 {
        let before = c.temperature();
        let out = c.tick();
        let t = c.temperature();
        assert!(t - before >= 100 && t - before < 1500);
        assert_eq!(out[0].0.name, "temperature");
        assert_eq!(out[0].1, Value::Float32(t));
        if t > 30000 {
            assert!(c.active());
            assert_eq!(out.len(), 2);
            assert_eq!(out[1].0.name, "climateactive");
            assert_eq!(out[1].1, Value::Bool(true));
            flipped = true;
            break;
        }
        assert!(!c.active());
        assert_eq!(out.len(), 1);
    }
    assert!(flipped);
    // Now active: it cools, and turns off once at or below 25 degrees.
    for _ in 0..200 {
        let before = c.temperature();
        let out = c.tick();
        let t = c.temperature();
        assert!(before - t >= 100 && before - t < 1500);
        if t <= 25000 {
            assert!(!c.active());
            assert_eq!(out.len(), 2);
            assert_eq!(out[1].1, Value::Bool(false));
            return;
        }
        assert!(c.active());
        assert_eq!(out.len(), 1);
    }
    panic!("the controller never switched off");
}

#[test]
fn ticks_report_only_declared_metrics() {
    for kind in [DeviceType::Engine, DeviceType::ClimateControl] {
        let mut d: Device = new_device(&cfg("dev", kind));
        let names: Vec<String> = d.metrics_config().into_iter().map(|c| c.name).collect();
        for _ in 0..300 {
            for (config, value) in d.tick() {
                assert!(names.contains(&config.name));
                let matches = match value {
                    Value::Int32(_) => config.datatype == DataType::Int32,
                    Value::Int64(_) => config.datatype == DataType::Int64,
                    Value::Bool(_) => config.datatype == DataType::Boolean,
                    Value::Float32(_) => config.datatype == DataType::Float,
                };
                assert!(matches);
            }
        }
    }
}

#[test]
fn new_device_picks_the_kind() {
    let e = new_device(&cfg("eng1", DeviceType::Engine));
    let c = new_device(&cfg("hvac1", DeviceType::ClimateControl));
    assert!(matches!(e, Device::Engine(_)));
    assert!(matches!(c, Device::ClimateControl(_)));
    assert_eq!(e.name(), "eng1");
    assert_eq!(c.name(), "hvac1");
}
