use hw_monitor::binary32::Binary32;
use hw_monitor::sensor::{classify, readings_of_group, select, sort_by_ordinal, Group, TemperatureReading};
use hw_monitor::snapshot::Sensor;
use hw_monitor::threshold::{
    classify_temperature, evaluate, evaluate_group, Status, CEILING, CEILING_BITS,
};

fn sensor(label: &str, temperature: f32) -> Sensor {
    Sensor { label: label.to_string(), temperature: Binary32::from_bits(temperature.to_bits()) }
}

fn reading(label: &str, ordinal: usize, temperature: f32) -> TemperatureReading {
    TemperatureReading {
        group: Group::Core,
        label: label.to_string(),
        ordinal,
        temperature: Binary32::from_bits(temperature.to_bits()),
    }
}

fn labels(readings: &Vec<TemperatureReading>) -> Vec<String> {
    readings.iter().map(|r| r.label.clone()).collect()
}

#[test]
fn core_group_is_sorted_by_ordinal() {
    let sensors = vec![
        sensor("coretemp-Core 3", 50.0),
        sensor("amdgpu edge", 40.0),
        sensor("coretemp-Core 12", 51.0),
        sensor("coretemp-Core 0", 52.0),
        sensor("nvme Composite", 30.0),
        sensor("coretemp-Core 1", 53.0),
    ];
    let classification = classify(&sensors);
    assert_eq!(
        labels(&classification.core),
        vec!["coretemp-Core 0", "coretemp-Core 1", "coretemp-Core 3", "coretemp-Core 12"]
    );
    let ordinals: Vec<usize> = classification.core.iter().map(|r| r.ordinal).collect();
    assert_eq!(ordinals, vec![0, 1, 3, 12]);
    assert_eq!(classification.core[0].temperature.bits, 52.0f32.to_bits());
    assert!(classification.core.iter().all(|r| r.group == Group::Core));
    assert!(classification.gpu.iter().all(|r| r.group == Group::Gpu));
    assert_eq!(labels(&classification.gpu), vec!["amdgpu edge"]);
}

#[test]
fn equal_ordinals_keep_the_order_of_the_sensors() {
    let sensors = vec![
        sensor("coretemp b 1", 1.0),
        sensor("coretemp Package", 2.0),
        sensor("coretemp a 1", 3.0),
        sensor("coretemp Core 0", 4.0),
        sensor("coretemp c 1", 5.0),
        sensor("coretemp also none", 6.0),
    ];
    let core = readings_of_group(&sensors, Group::Core);
    assert_eq!(
        labels(&core),
        vec![
            "coretemp Package",
            "coretemp Core 0",
            "coretemp also none",
            "coretemp b 1",
            "coretemp a 1",
            "coretemp c 1"
        ]
    );
}

#[test]
fn gpu_group_is_sorted_independently() {
    let sensors = vec![
        sensor("amdgpu 2", 1.0),
        sensor("coretemp Core 5", 2.0),
        sensor("gpu 1", 3.0),
        sensor("coretemp Core 4", 4.0),
        sensor("amdgpu 1", 5.0),
    ];
    let classification = classify(&sensors);
    assert_eq!(labels(&classification.gpu), vec!["gpu 1", "amdgpu 1", "amdgpu 2"]);
    assert_eq!(labels(&classification.core), vec!["coretemp Core 4", "coretemp Core 5"]);
}

#[test]
fn a_sensor_of_both_groups_is_in_both() {
    let sensors = vec![sensor("coretemp gpu 2", 1.0), sensor("acpitz", 2.0)];
    let classification = classify(&sensors);
    assert_eq!(labels(&classification.core), vec!["coretemp gpu 2"]);
    assert_eq!(labels(&classification.gpu), vec!["coretemp gpu 2"]);
}

#[test]
fn no_sensors_give_empty_groups() {
    let classification = classify(&Vec::new());
    assert!(classification.core.is_empty());
    assert!(classification.gpu.is_empty());
}

#[test]
fn selection_keeps_the_order_of_the_sensors() {
    let sensors = vec![sensor("coretemp 9", 1.0), sensor("x", 2.0), sensor("coretemp 2", 3.0)];
    let chosen = select(&sensors, Group::Core);
    assert_eq!(labels(&chosen), vec!["coretemp 9", "coretemp 2"]);
    assert_eq!(chosen[0].ordinal, 9);
    assert_eq!(chosen[1].ordinal, 2);
    assert!(select(&sensors, Group::Gpu).is_empty());
}

#[test]
fn sorting_agrees_with_a_stable_sort() {
    let mut state: u64 = 0xDEAD_BEEF_CAFE_F00D;
    let mut round = 0;
    while round < 300 {
        let mut readings = Vec::new();
        let mut expected = Vec::new();
        let mut i = 0;
        let len = round % 17;
        while i < len {
            state ^= state << 13;
            state ^= state >> 7;
            state ^= state << 17;
            let ordinal = (state % 5) as usize;
            let label = format!("r{}", i);
            readings.push(reading(&label, ordinal, i as f32));
            expected.push((ordinal, label));
            i += 1;
        }
        expected.sort_by_key(|pair| pair.0);
        let sorted = sort_by_ordinal(readings);
        let got: Vec<(usize, String)> = sorted.iter().map(|r| (r.ordinal, r.label.clone())).collect();
        assert_eq!(got, expected);
        round += 1;
    }
}

#[test]
fn overheat_is_strictly_above_the_ceiling() {
    assert_eq!(CEILING, 70);
    assert_eq!(CEILING_BITS, 70.0f32.to_bits());
    assert_eq!(classify_temperature(Binary32::from_bits(CEILING_BITS)), Status::Normal);
    assert_eq!(classify_temperature(Binary32::from_bits(CEILING_BITS + 1)), Status::Overheat);
    assert_eq!(classify_temperature(Binary32::from_bits(CEILING_BITS - 1)), Status::Normal);
    assert_eq!(classify_temperature(Binary32::from_bits(70.1f32.to_bits())), Status::Overheat);
    assert_eq!(classify_temperature(Binary32::from_bits(69.9f32.to_bits())), Status::Normal);
    assert_eq!(classify_temperature(Binary32::from_bits((-75.0f32).to_bits())), Status::Normal);
    assert_eq!(classify_temperature(Binary32::from_bits(f32::NAN.to_bits())), Status::Normal);
    assert_eq!(classify_temperature(Binary32::from_bits(f32::INFINITY.to_bits())), Status::Overheat);
}

#[test]
fn any_overheat_is_the_disjunction_over_both_groups() {
    let cool = classify(&vec![sensor("coretemp 0", 65.0), sensor("gpu 0", 70.0)]);
    let evaluation = evaluate(&cool);
    assert_eq!(evaluation.core, vec![Status::Normal]);
    assert_eq!(evaluation.gpu, vec![Status::Normal]);
    assert!(!evaluation.any_overheat);

    let hot_core = classify(&vec![sensor("coretemp 0", 65.0), sensor("coretemp 1", 75.0)]);
    let evaluation = evaluate(&hot_core);
    assert_eq!(evaluation.core, vec![Status::Normal, Status::Overheat]);
    assert!(evaluation.gpu.is_empty());
    assert!(evaluation.any_overheat);

    let hot_gpu = classify(&vec![sensor("coretemp 0", 65.0), sensor("amdgpu", 90.5)]);
    let evaluation = evaluate(&hot_gpu);
    assert_eq!(evaluation.core, vec![Status::Normal]);
    assert_eq!(evaluation.gpu, vec![Status::Overheat]);
    assert!(evaluation.any_overheat);

    let ignored = classify(&vec![sensor("nvme", 99.0)]);
    assert!(!evaluate(&ignored).any_overheat);

    let none = evaluate(&classify(&Vec::new()));
    assert!(!none.any_overheat);
}

#[test]
fn statuses_of_one_group() {
    let readings = vec![reading("a", 0, 70.5), reading("b", 1, 20.0), reading("c", 2, 71.0)];
    let result = evaluate_group(&readings);
    assert_eq!(result.0, vec![Status::Overheat, Status::Normal, Status::Overheat]);
    assert!(result.1);
    let result = evaluate_group(&Vec::new());
    assert!(result.0.is_empty());
    assert!(!result.1);
}
