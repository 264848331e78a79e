use conntrack::FlowSteeringMode;
use conntrack::PipelineId;
use conntrack::SystemData;
use conntrack::TimeAdder;
use conntrack::shuffle_ports;

#[test]
fn test_shuffling() {
    let vec = shuffle_ports(0, 100);
    let sum: u16 = vec.iter().sum();
    assert_eq!(sum, 5050);
    let h1: u16 = vec.iter().enumerate().filter(|(i, _x)| i < &50).map(|(_i, x)| x).sum();
    let h2: u16 = vec.iter().enumerate().filter(|(i, _x)| i >= &50).map(|(_i, x)| x).sum();
    println!("h1= {}, h2= {}", h1, h2);
    assert!((h1 as i32 - 2525).abs() < 500);
}

#[test]
fn shuffled_range_is_a_permutation() {
    let mut vec = shuffle_ports(1000, 1009);
    assert_eq!(vec.len(), 10);
    vec.sort();
    assert_eq!(vec, (1000..=1009).collect::<Vec<u16>>());
}

#[test]
fn time_adder_reports_every_sample() {
    let mut t = TimeAdder::new("rx-batch", 3);
    assert_eq!(t.name().as_str(), "rx-batch");
    assert_eq!(t.add(100), None);
    assert_eq!(t.add(200), None);
    // the third addition reports sum, count and the per-count average
    assert_eq!(t.add(300), Some((600, 3, 200)));
    assert_eq!(t.add(50), None);
    assert_eq!(t.add(40), None);
    assert_eq!(t.add(30), Some((720, 6, 120)));
    assert_eq!(t.sum(), 720);
    assert_eq!(t.count(), 6);
    assert_eq!(t.sample_size(), 3);
}

#[test]
fn time_adder_with_sample_size_one() {
    let mut t = TimeAdder::new("per-call", 1);
    assert_eq!(t.add(7), Some((7, 1, 7)));
    assert_eq!(t.add(9), Some((16, 2, 8)));
}

#[test]
fn system_data_scales_kilohertz() {
    let s = SystemData::from_kilohertz(2_800_000);
    assert_eq!(s.cpu_clock, 2_800_000_000);
}

#[test]
fn pipeline_id_fields() {
    let p = PipelineId::new(2, 0, 1);
    assert_eq!(p.core, 2);
    assert_eq!(p.port_id, 0);
    assert_eq!(p.rxq, 1);
    assert_eq!(p, p.clone());
    let d = PipelineId::default();
    assert_eq!(d.core, 0);
    assert_ne!(p, d);
    assert_eq!(FlowSteeringMode::Port, FlowSteeringMode::Port);
    assert_ne!(FlowSteeringMode::Port, FlowSteeringMode::Ip);
}
