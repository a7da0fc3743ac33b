use perfmon::MsrAddress;
use perfmon::PerfEventValue;
use perfmon::PerfVersion;
use perfmon::hexdump;

#[test]
fn test_scaled_value_equal_times() {
    let v = PerfEventValue { value: 100, time_enabled: 80, time_running: 80, id: 1 };
    assert_eq!(v.raw_value(), 100);
    assert_eq!(v.scaled_value(), 100);
    let idle = PerfEventValue { value: 7, time_enabled: 0, time_running: 0, id: 1 };
    assert_eq!(idle.scaled_value(), 7);
}

#[test]
fn test_scaled_value_proportional() {
    let v = PerfEventValue { value: 100, time_enabled: 100, time_running: 50, id: 1 };
    assert_eq!(v.scaled_value(), 50);
    let v = PerfEventValue { value: 99, time_enabled: 100, time_running: 33, id: 1 };
    assert_eq!(v.scaled_value(), 32);
}

#[test]
fn test_value_equality_ignores_times() {
    let a = PerfEventValue { value: 5, time_enabled: 1, time_running: 1, id: 1 };
    let b = PerfEventValue { value: 5, time_enabled: 9, time_running: 2, id: 4 };
    let c = PerfEventValue { value: 6, time_enabled: 1, time_running: 1, id: 1 };
    assert!(a == b);
    assert!(a != c);
}

#[test]
fn test_value_from_bytes() {
    let mut bytes = Vec::new();
    bytes.extend_from_slice(&11u64.to_le_bytes());
    bytes.extend_from_slice(&22u64.to_le_bytes());
    bytes.extend_from_slice(&33u64.to_le_bytes());
    bytes.extend_from_slice(&44u64.to_le_bytes());
    let v = PerfEventValue::from_bytes(&bytes).unwrap();
    assert_eq!(v.value, 11);
    assert_eq!(v.time_enabled, 22);
    assert_eq!(v.time_running, 33);
    assert_eq!(v.id, 44);
    assert!(PerfEventValue::from_bytes(&bytes[0..16]).is_err());
}

#[test]
fn test_perf_version() {
    let pv = PerfVersion::new(4, 13);
    assert_eq!(pv.major(), 4);
    assert_eq!(pv.minor(), 13);
    assert!(!pv.direct());
    assert!(pv.has_name());
    assert!(!pv.offcore());
    assert!(!pv.ldlat());
    let pv = pv.with_format_flags(true, true);
    assert!(pv.offcore());
    assert!(pv.ldlat());
    let old = PerfVersion::new(4, 3).with_format_flags(true, true);
    assert!(old.direct());
    assert!(!old.has_name());
    assert!(!old.offcore());
    assert!(!old.ldlat());
}

#[test]
fn test_msr_map() {
    assert_eq!(MsrAddress::MSR_LDLAT.msr_map(), "ldlat=");
    assert_eq!(MsrAddress::MSR_FRONTEND.msr_map(), "frontend=");
    assert_eq!(MsrAddress::MSR_OFFCORE_RSP0.msr_map(), "offcore_rsp=");
    assert_eq!(MsrAddress::MSR_OFFCORE_RSP1.msr_map(), "offcore_rsp=");
}

#[test]
fn test_msr_addr() {
    assert_eq!(MsrAddress::MSR_LDLAT.addr(), 0x3f6);
    assert_eq!(MsrAddress::INST_RETIRED_ANY_ADDR.addr(), 0x309);
    assert_eq!(MsrAddress::IA32_PMC3.addr(), 0xc4);
}

#[test]
fn test_hexdump() {
    assert_eq!(hexdump(&[]), "");
    assert_eq!(hexdump(&[0x00, 0xab, 0x0f]), "00 AB 0F");
    let long: Vec<u8> = (0..33).map(|x| x as u8).collect();
    let dump = hexdump(&long);
    let lines: Vec<&str> = dump.split('\n').collect();
    assert_eq!(lines.len(), 2);
    assert!(lines[0].starts_with("00 01 02"));
    assert_eq!(lines[1], "20");
}
