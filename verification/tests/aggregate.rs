use memdev::memory::{avg_frequency, sum_frequency, MemType, Memory};
use memdev::props::PropMap;

fn pm(pairs: &[(&str, &str)]) -> PropMap {
    let mut m = PropMap::new();
    for (k, v) in pairs {
        m.insert((*k).to_string(), (*v).to_string());
    }
    m
}

#[test]
fn average_of_nothing_is_zero() {
    assert_eq!(avg_frequency(Vec::new()), 0);
}

#[test]
fn average_of_one_is_itself() {
    assert_eq!(avg_frequency(vec![4800]), 4800);
}

#[test]
fn average_of_two_is_their_mean() {
    assert_eq!(avg_frequency(vec![4800, 5200]), 5000);
}

#[test]
fn average_truncates_a_fractional_mean() {
    assert_eq!(avg_frequency(vec![4800, 4801]), 4800);
}

#[test]
fn sum_adds_all_frequencies() {
    assert_eq!(sum_frequency(vec![1, 2, 3]), 6);
    assert_eq!(sum_frequency(Vec::new()), 0);
}

#[test]
fn memory_average_skips_devices_without_a_frequency() {
    let mem = Memory::new(&pm(&[
        ("MEMORY_ARRAY_NUM_DEVICES", "3"),
        ("MEMORY_DEVICE_0_CONFIGURED_SPEED_MTS", "4800"),
        ("MEMORY_DEVICE_2_CONFIGURED_SPEED_MTS", "5600"),
    ]))
    .unwrap();
    assert_eq!(mem.avg_frequency(), 5200);
    let silent = Memory::new(&pm(&[("MEMORY_ARRAY_NUM_DEVICES", "2")])).unwrap();
    assert_eq!(silent.avg_frequency(), 0);
}

#[test]
fn mem_types_deduplicates() {
    let mem = Memory::new(&pm(&[
        ("MEMORY_ARRAY_NUM_DEVICES", "3"),
        ("MEMORY_DEVICE_0_TYPE", "DDR5"),
        ("MEMORY_DEVICE_1_TYPE", "DDR4"),
        ("MEMORY_DEVICE_2_TYPE", "DDR5"),
    ]))
    .unwrap();
    let types = mem.mem_types();
    assert_eq!(types.len(), 2);
    assert!(types.iter().any(|t| t == "DDR5"));
    assert!(types.iter().any(|t| t == "DDR4"));
}

#[test]
fn form_factors_skip_absent_and_deduplicate() {
    let mem = Memory::new(&pm(&[
        ("MEMORY_ARRAY_NUM_DEVICES", "3"),
        ("MEMORY_DEVICE_0_FORM_FACTOR", "SODIMM"),
        ("MEMORY_DEVICE_2_FORM_FACTOR", "SODIMM"),
    ]))
    .unwrap();
    let ffs = mem.form_factors();
    assert_eq!(ffs.len(), 1);
    assert_eq!(ffs[0], "SODIMM");
}

#[test]
fn render_gives_display_text() {
    assert_eq!(MemType::Ddr5.render(), "DDR5");
    assert_eq!(MemType::Ddr4.render(), "DDR4");
    assert_eq!(MemType::Ddr3.render(), "DDR3");
    assert_eq!(MemType::Unknown.render(), "Unknown");
    assert_eq!(MemType::Other("LPDDR5".to_string()).render(), "LPDDR5");
}

#[test]
fn display_unit_composes_every_segment() {
    let mem = Memory::new(&pm(&[
        ("MEMORY_ARRAY_NUM_DEVICES", "2"),
        ("MEMORY_DEVICE_0_TYPE", "DDR5"),
        ("MEMORY_DEVICE_0_FORM_FACTOR", "SODIMM"),
        ("MEMORY_DEVICE_0_CONFIGURED_SPEED_MTS", "4800"),
        ("MEMORY_DEVICE_1_TYPE", "DDR5"),
        ("MEMORY_DEVICE_1_FORM_FACTOR", "SODIMM"),
        ("MEMORY_DEVICE_1_CONFIGURED_SPEED_MTS", "4800"),
    ]))
    .unwrap();
    // 8.0 GB used of 16.0 GB, given in hundredths of the unit
    assert_eq!(
        mem.display_unit(800, 1600, "GB"),
        "8.00GB / 16.00GB DDR5 (SODIMM) @ 4800 MHz"
    );
}

#[test]
fn display_unit_omits_empty_segments() {
    let empty = Memory::new(&pm(&[("MEMORY_ARRAY_NUM_DEVICES", "0")])).unwrap();
    assert_eq!(empty.display_unit(800, 1600, "GB"), "8.00GB / 16.00GB");
}

#[test]
fn display_unit_omits_segments_independently() {
    // a device with a type but no form factor and no frequency
    let mem = Memory::new(&pm(&[
        ("MEMORY_ARRAY_NUM_DEVICES", "1"),
        ("MEMORY_DEVICE_0_TYPE", "DDR4"),
    ]))
    .unwrap();
    assert_eq!(mem.display_unit(50, 100, "GiB"), "0.50GiB / 1.00GiB DDR4");
}

#[test]
fn display_lists_join_with_comma_and_space() {
    let mem = Memory::new(&pm(&[
        ("MEMORY_ARRAY_NUM_DEVICES", "2"),
        ("MEMORY_DEVICE_0_TYPE", "DDR4"),
        ("MEMORY_DEVICE_0_FORM_FACTOR", "DIMM"),
        ("MEMORY_DEVICE_1_TYPE", "DDR5"),
        ("MEMORY_DEVICE_1_FORM_FACTOR", "SODIMM"),
    ]))
    .unwrap();
    assert_eq!(
        mem.display_unit(0, 3200, "GB"),
        "0.00GB / 32.00GB DDR4, DDR5 (DIMM, SODIMM)"
    );
}
