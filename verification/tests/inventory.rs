use memdev::error::Error;
use memdev::memory::{MemDevice, MemType, Memory};
use memdev::props::PropMap;

fn pm(pairs: &[(&str, &str)]) -> PropMap {
    let mut m = PropMap::new();
    for (k, v) in pairs {
        m.insert((*k).to_string(), (*v).to_string());
    }
    m
}

#[test]
fn slot_subset_is_exact() {
    let snapshot = pm(&[
        ("MEMORY_DEVICE_0_MANUFACTURER", "Acme"),
        ("MEMORY_DEVICE_0_RANK", "2"),
        ("MEMORY_DEVICE_1_MANUFACTURER", "Globex"),
        ("MEMORY_DEVICE_10_MANUFACTURER", "Initech"),
        ("UNRELATED", "x"),
    ]);
    let d0 = MemDevice::new(0, &snapshot);
    assert_eq!(d0.manufacturer.as_deref(), Some("Acme"));
    assert_eq!(d0.extra_props.get("RANK").map(String::as_str), Some("2"));
    let d1 = MemDevice::new(1, &snapshot);
    assert_eq!(d1.manufacturer.as_deref(), Some("Globex"));
    assert!(d1.extra_props.get("RANK").is_none());
    // slot 1's prefix must not capture slot 10's keys
    assert!(d1.extra_props.get("0_MANUFACTURER").is_none());
    let d10 = MemDevice::new(10, &snapshot);
    assert_eq!(d10.manufacturer.as_deref(), Some("Initech"));
}

#[test]
fn named_fields_verbatim_and_absent() {
    let d = MemDevice::new(
        0,
        &pm(&[
            ("MEMORY_DEVICE_0_MANUFACTURER", "  Spaced Vendor "),
            ("MEMORY_DEVICE_0_FORM_FACTOR", "SODIMM"),
        ]),
    );
    assert_eq!(d.manufacturer.as_deref(), Some("  Spaced Vendor "));
    assert_eq!(d.form_factor.as_deref(), Some("SODIMM"));
    let empty = MemDevice::new(3, &pm(&[]));
    assert!(empty.manufacturer.is_none());
    assert!(empty.form_factor.is_none());
    assert!(empty.frequency.is_none());
    assert_eq!(empty.mem_type, MemType::Unknown);
    assert_eq!(empty.extra_props.num_entries(), 0);
}

#[test]
fn extra_props_disjoint_from_lifted_keys() {
    let d = MemDevice::new(
        0,
        &pm(&[
            ("MEMORY_DEVICE_0_MANUFACTURER", "Acme"),
            ("MEMORY_DEVICE_0_CONFIGURED_SPEED_MTS", "4800"),
            ("MEMORY_DEVICE_0_FORM_FACTOR", "DIMM"),
            ("MEMORY_DEVICE_0_TYPE", "DDR4"),
            ("MEMORY_DEVICE_0_SERIAL", "12345"),
            ("MEMORY_DEVICE_0_RANK", "2"),
        ]),
    );
    assert!(d.extra_props.get("MANUFACTURER").is_none());
    assert!(d.extra_props.get("CONFIGURED_SPEED_MTS").is_none());
    assert!(d.extra_props.get("FORM_FACTOR").is_none());
    assert!(d.extra_props.get("TYPE").is_none());
    assert_eq!(d.extra_props.num_entries(), 2);
    assert_eq!(d.extra_props.get("SERIAL").map(String::as_str), Some("12345"));
    assert_eq!(d.extra_props.get("RANK").map(String::as_str), Some("2"));
}

#[test]
fn classification_is_total_and_exact() {
    assert_eq!(MemType::from("DDR5".to_string()), MemType::Ddr5);
    assert_eq!(MemType::from("DDR4".to_string()), MemType::Ddr4);
    assert_eq!(MemType::from("DDR3".to_string()), MemType::Ddr3);
    assert_eq!(MemType::from("Unknown".to_string()), MemType::Unknown);
    assert_eq!(
        MemType::from("LPDDR5".to_string()),
        MemType::Other("LPDDR5".to_string())
    );
    // case sensitive: an unrecognized casing stays verbatim
    assert_eq!(
        MemType::from("ddr4".to_string()),
        MemType::Other("ddr4".to_string())
    );
    // absent key classifies as Unknown
    let d = MemDevice::new(0, &pm(&[]));
    assert_eq!(d.mem_type, MemType::Unknown);
}

#[test]
fn frequency_parse_failure_degrades_to_none() {
    let bad = MemDevice::new(
        0,
        &pm(&[("MEMORY_DEVICE_0_CONFIGURED_SPEED_MTS", "notanumber")]),
    );
    assert!(bad.frequency.is_none());
    // the malformed value is gone for good: lifted, then dropped
    assert!(bad.extra_props.get("CONFIGURED_SPEED_MTS").is_none());
    let good = MemDevice::new(0, &pm(&[("MEMORY_DEVICE_0_CONFIGURED_SPEED_MTS", "4800")]));
    assert_eq!(good.frequency, Some(4800));
    let overflow = MemDevice::new(
        0,
        &pm(&[("MEMORY_DEVICE_0_CONFIGURED_SPEED_MTS", "18446744073709551616")]),
    );
    assert!(overflow.frequency.is_none());
    let max = MemDevice::new(
        0,
        &pm(&[("MEMORY_DEVICE_0_CONFIGURED_SPEED_MTS", "18446744073709551615")]),
    );
    assert_eq!(max.frequency, Some(u64::MAX));
}

#[test]
fn count_key_absent_is_missing() {
    let r = Memory::new(&pm(&[("MEMORY_DEVICE_0_TYPE", "DDR4")]));
    assert_eq!(r.unwrap_err(), Error::Missing);
}

#[test]
fn count_value_not_an_integer_is_parse_int() {
    let r = Memory::new(&pm(&[("MEMORY_ARRAY_NUM_DEVICES", "abc")]));
    assert_eq!(r.unwrap_err(), Error::ParseInt);
}

#[test]
fn count_zero_is_an_empty_inventory() {
    let mem = Memory::new(&pm(&[("MEMORY_ARRAY_NUM_DEVICES", "0")])).unwrap();
    assert!(mem.devices.is_empty());
}

#[test]
fn count_bounds_the_slots_built() {
    let mem = Memory::new(&pm(&[
        ("MEMORY_ARRAY_NUM_DEVICES", "2"),
        ("MEMORY_DEVICE_0_TYPE", "DDR4"),
        ("MEMORY_DEVICE_1_TYPE", "DDR5"),
        ("MEMORY_DEVICE_2_TYPE", "DDR3"),
    ]))
    .unwrap();
    assert_eq!(mem.devices.len(), 2);
    assert_eq!(mem.devices[0].mem_type, MemType::Ddr4);
    assert_eq!(mem.devices[1].mem_type, MemType::Ddr5);
    // a slot inside the count with no keys is an empty record, not an error
    let sparse = Memory::new(&pm(&[("MEMORY_ARRAY_NUM_DEVICES", "3")])).unwrap();
    assert_eq!(sparse.devices.len(), 3);
    assert!(sparse.devices.iter().all(|d| d.manufacturer.is_none()
        && d.frequency.is_none()
        && d.form_factor.is_none()
        && d.mem_type == MemType::Unknown));
}

#[test]
fn building_twice_is_idempotent() {
    let snapshot = pm(&[
        ("MEMORY_ARRAY_NUM_DEVICES", "2"),
        ("MEMORY_DEVICE_0_MANUFACTURER", "Acme"),
        ("MEMORY_DEVICE_0_CONFIGURED_SPEED_MTS", "4800"),
        ("MEMORY_DEVICE_0_TYPE", "DDR5"),
        ("MEMORY_DEVICE_1_FORM_FACTOR", "SODIMM"),
        ("MEMORY_DEVICE_1_SERIAL", "999"),
    ]);
    let a = Memory::new(&snapshot).unwrap();
    let b = Memory::new(&snapshot).unwrap();
    assert_eq!(a, b);
    assert_eq!(a.devices.len(), 2);
}

#[test]
fn collector_later_occurrence_wins() {
    let pairs: Vec<(String, String)> = vec![
        ("MEMORY_ARRAY_NUM_DEVICES".to_string(), "1".to_string()),
        ("MEMORY_DEVICE_0_TYPE".to_string(), "DDR3".to_string()),
        ("MEMORY_DEVICE_0_TYPE".to_string(), "DDR5".to_string()),
    ];
    let snapshot = PropMap::from_pairs(pairs);
    assert_eq!(snapshot.get("MEMORY_DEVICE_0_TYPE").map(String::as_str), Some("DDR5"));
    let mem = Memory::new(&snapshot).unwrap();
    assert_eq!(mem.devices[0].mem_type, MemType::Ddr5);
}
