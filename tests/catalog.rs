use audio_engine::catalog::{
    best_config, AudioDevices, ConfigRange, DeviceInfo, DeviceQueryError, DeviceReport,
    DeviceTable, SampleFormat,
};

fn range(channels: u16, min: u32, max: u32, f: SampleFormat) -> ConfigRange {
    ConfigRange { channels, min_sample_rate: min, max_sample_rate: max, sample_format: f }
}

fn report(name: &str, configs: Vec<ConfigRange>) -> DeviceReport {
    DeviceReport { name: name.to_string(), configs }
}

fn host_inputs() -> Vec<DeviceReport> {
    vec![
        report("mic", vec![range(1, 8_000, 48_000, SampleFormat::I16)]),
        report(
            "interface",
            vec![
                range(2, 44_100, 96_000, SampleFormat::F32),
                range(8, 44_100, 192_000, SampleFormat::I16),
                range(4, 44_100, 192_000, SampleFormat::U16),
            ],
        ),
    ]
}

#[test]
fn best_config_takes_first_highest_rate() {
    let configs = vec![
        range(2, 8_000, 44_100, SampleFormat::F32),
        range(6, 8_000, 96_000, SampleFormat::I16),
        range(2, 8_000, 96_000, SampleFormat::U16),
    ];
    assert_eq!(
        best_config(&configs),
        Some(DeviceInfo { sample_rate: 96_000, channels: 6, sample_format: SampleFormat::I16 })
    );
    assert_eq!(best_config(&Vec::new()), None);
}

#[test]
fn table_lists_each_device_at_its_best() {
    let table = DeviceTable::from_reports(&host_inputs()).unwrap();
    assert_eq!(table.entries.len(), 2);
    assert_eq!(
        table.get(&"interface".to_string()),
        Some(DeviceInfo { sample_rate: 192_000, channels: 8, sample_format: SampleFormat::I16 })
    );
    assert_eq!(
        table.get(&"mic".to_string()),
        Some(DeviceInfo { sample_rate: 48_000, channels: 1, sample_format: SampleFormat::I16 })
    );
    assert!(table.contains(&"mic".to_string()));
    assert!(!table.contains(&"speaker".to_string()));
    assert_eq!(table.get(&"speaker".to_string()), None);
}

#[test]
fn later_device_of_same_name_replaces_earlier() {
    let reports = vec![
        report("usb", vec![range(1, 8_000, 16_000, SampleFormat::I16)]),
        report("usb", vec![range(2, 8_000, 32_000, SampleFormat::F32)]),
    ];
    let table = DeviceTable::from_reports(&reports).unwrap();
    assert_eq!(table.entries.len(), 1);
    assert_eq!(
        table.get(&"usb".to_string()),
        Some(DeviceInfo { sample_rate: 32_000, channels: 2, sample_format: SampleFormat::F32 })
    );
}

#[test]
fn device_without_config_fails_enumeration() {
    let outputs = vec![report("dead", Vec::new())];
    let r = AudioDevices::enumerate(&host_inputs(), &outputs);
    assert!(matches!(r, Err(DeviceQueryError::NoSupportedConfig)));
}

#[test]
fn enumeration_twice_in_other_order_agrees() {
    let first = AudioDevices::enumerate(&host_inputs(), &Vec::new()).unwrap();
    let mut reversed = host_inputs();
    reversed.reverse();
    let second = AudioDevices::enumerate(&reversed, &Vec::new()).unwrap();
    for name in ["mic", "interface"] {
        let n = name.to_string();
        assert_eq!(first.input_devices.get(&n), second.input_devices.get(&n));
        assert!(first.input_devices.get(&n).is_some());
    }
    assert_eq!(first.input_devices.entries.len(), second.input_devices.entries.len());
    assert_eq!(second.output_devices.entries.len(), 0);
}

#[test]
fn empty_catalog_lists_nothing() {
    let devices = AudioDevices::new();
    assert!(devices.input_devices.entries.is_empty());
    assert!(devices.output_devices.entries.is_empty());
}

#[test]
fn insert_replaces_by_name() {
    let mut t = DeviceTable::new();
    let a = DeviceInfo { sample_rate: 1, channels: 1, sample_format: SampleFormat::U16 };
    let b = DeviceInfo { sample_rate: 2, channels: 2, sample_format: SampleFormat::F32 };
    t.insert("x".to_string(), a);
    t.insert("y".to_string(), a);
    t.insert("x".to_string(), b);
    assert_eq!(t.entries.len(), 2);
    assert_eq!(t.get(&"x".to_string()), Some(b));
    assert_eq!(t.get(&"y".to_string()), Some(a));
}
