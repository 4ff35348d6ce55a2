use sparkplug_sim::sparkplug::{
    dbirth, ddata, ddeath, nbirth, ndeath, DataType, MetricConfig, Payload, Sequence, Value,
};

fn config(name: &str, datatype: DataType, initial_value: Value) -> MetricConfig {
    MetricConfig { name: name.to_string(), datatype, initial_value }
}

fn assert_bd_seq(p: &Payload, bd_seq: u64, ts: u64) {
    assert_eq!(p.seq, Some(0));
    assert_eq!(p.metrics.len(), 1);
    assert_eq!(p.metrics[0].name, "bdSeq");
    assert_eq!(p.metrics[0].datatype, DataType::Int64);
    assert_eq!(p.metrics[0].value, Value::Int64(bd_seq));
    assert_eq!(p.metrics[0].timestamp, ts);
}

#[test]
fn sequence_first_next_is_one() {
    let mut s = Sequence::new();
    assert_eq!(s.next(), 1);
    assert_eq!(s.next(), 2);
    assert_eq!(s.next(), 3);
}

#[test]
fn sequence_wraps_after_255() {
    let mut s = Sequence::new();
    let mut last = 0;
    for expected in 1..=255u64 {
        last = s.next();
        assert_eq!(last, expected);
    }
    assert_eq!(last, 255);
    assert_eq!(s.next(), 0);
    assert_eq!(s.next(), 1);
}

#[test]
fn sequence_covers_every_byte_once_per_wrap() {
    let mut s = Sequence::new();
    for _ in 0..100 {
        s.next();
    }
    let mut seen = vec![false; 256];
    let mut prev = 100u64;
    for _ in 0..256 {
        let r = s.next();
        assert_eq!(r, (prev + 1) % 256);
        assert!(!seen[r as usize]);
        seen[r as usize] = true;
        prev = r;
    }
    assert!(seen.iter().all(|b| *b));
}

#[test]
fn nbirth_carries_bd_seq() {
    assert_bd_seq(&nbirth(0, 1000), 0, 1000);
    assert_bd_seq(&nbirth(7, 5), 7, 5);
}

#[test]
fn ndeath_matches_nbirth() {
    assert_bd_seq(&ndeath(0, 1000), 0, 1000);
    assert_bd_seq(&ndeath(3, 9), 3, 9);
}

#[test]
fn dbirth_announces_initial_values() {
    let configs = vec![
        config("climateactive", DataType::Boolean, Value::Bool(false)),
        config("temperature", DataType::Float, Value::Float32(20000)),
    ];
    let p = dbirth(4, &configs, 77);
    assert_eq!(p.seq, Some(4));
    assert_eq!(p.metrics.len(), 2);
    assert_eq!(p.metrics[0].name, "climateactive");
    assert_eq!(p.metrics[0].datatype, DataType::Boolean);
    assert_eq!(p.metrics[0].value, Value::Bool(false));
    assert_eq!(p.metrics[1].name, "temperature");
    assert_eq!(p.metrics[1].value, Value::Float32(20000));
    assert_eq!(p.metrics[1].timestamp, 77);
}

#[test]
fn dbirth_without_metrics() {
    let p = dbirth(9, &Vec::new(), 1);
    assert_eq!(p.seq, Some(9));
    assert!(p.metrics.is_empty());
}

#[test]
fn ddata_carries_reported_values() {
    let values = vec![
        (config("rpm", DataType::Int32, Value::Int32(0)), Value::Int32(321)),
        (config("climateactive", DataType::Boolean, Value::Bool(false)), Value::Bool(true)),
    ];
    let p = ddata(12, values, 55);
    assert_eq!(p.seq, Some(12));
    assert_eq!(p.metrics.len(), 2);
    assert_eq!(p.metrics[0].name, "rpm");
    assert_eq!(p.metrics[0].datatype, DataType::Int32);
    assert_eq!(p.metrics[0].value, Value::Int32(321));
    assert_eq!(p.metrics[1].value, Value::Bool(true));
    assert_eq!(p.metrics[1].timestamp, 55);
}

#[test]
fn ddeath_has_no_metrics() {
    let p = ddeath(200);
    assert_eq!(p.seq, Some(200));
    assert!(p.metrics.is_empty());
}
