use perfmon::Error;
use perfmon::EventWrapper;
use perfmon::HPCEvent;
use perfmon::MetricEvent;
use perfmon::RawEvent;
use perfmon::find_pmu_by_name;

fn record(pairs: &[(&str, &str)]) -> RawEvent {
    let mut r = RawEvent::new();
    for (k, v) in pairs {
        r.insert(k, v);
    }
    r
}

#[test]
fn test_hpc_from_raw_event() {
    let revt = record(&[
        ("EventName", "INST_RETIRED.ANY"),
        ("Topic", "pipeline"),
        ("BriefDescription", "Instructions retired."),
        ("EventCode", "0x3C"),
        ("UMask", "0x01"),
        ("CounterMask", "2"),
        ("EdgeDetect", "1"),
        ("Invert", "0"),
        ("MSRIndex", "0x1A6,0x1A7"),
        ("MSRValue", "0x3F"),
    ]);
    let evt = HPCEvent::from_raw_event(&revt).unwrap();
    assert_eq!(evt.name, "INST_RETIRED.ANY");
    assert_eq!(evt.topic, "pipeline");
    assert_eq!(evt.desc, "Instructions retired.");
    assert_eq!(evt.long_desc, "");
    assert_eq!(evt.event_code, Some(0x3c));
    assert_eq!(evt.umask, Some(0x01));
    assert_eq!(evt.cmask, Some(2));
    assert!(evt.edge);
    assert!(!evt.inv);
    assert_eq!(evt.msr, Some((0x1a6, 0x3f)));
    assert!(evt.pmu.is_none());
}

#[test]
fn test_hpc_single_digit_msr() {
    let revt = record(&[
        ("EventName", "E"),
        ("Topic", "t"),
        ("MSRIndex", "3"),
        ("MSRValue", "7"),
    ]);
    let evt = HPCEvent::from_raw_event(&revt).unwrap();
    assert_eq!(evt.msr, Some((3, 7)));
    assert_eq!(evt.event_code, Some(0));
}

#[test]
fn test_hpc_unit_mapping() {
    let revt = record(&[("EventName", "E"), ("Topic", "t"), ("Unit", "CBO")]);
    let evt = HPCEvent::from_raw_event(&revt).unwrap();
    let (lin, raw) = evt.pmu.unwrap();
    assert_eq!(lin, "uncore_cbox");
    assert_eq!(raw, "CBO");

    let revt = record(&[("EventName", "E"), ("Topic", "t"), ("Unit", "IMC")]);
    let evt = HPCEvent::from_raw_event(&revt).unwrap();
    let (lin, _) = evt.pmu.unwrap();
    assert_eq!(lin, "uncore_IMC");
}

#[test]
fn test_hpc_ncu_override() {
    let revt = record(&[
        ("EventName", "E"),
        ("Topic", "t"),
        ("EventCode", "0x3C"),
        ("UMask", "0x07"),
        ("Unit", "NCU"),
    ]);
    let evt = HPCEvent::from_raw_event(&revt).unwrap();
    assert_eq!(evt.event_code, Some(0xff));
    assert_eq!(evt.umask, Some(0));
    let (lin, _) = evt.pmu.unwrap();
    assert_eq!(lin, "uncore_cbox_0");
}

#[test]
fn test_hpc_extsel() {
    let revt = record(&[
        ("EventName", "E"),
        ("Topic", "t"),
        ("EventCode", "0x10"),
        ("ExtSel", "0x1"),
    ]);
    let evt = HPCEvent::from_raw_event(&revt).unwrap();
    assert_eq!(evt.event_code, Some(0x10 | (1 << 21)));
}

#[test]
fn test_hpc_parse_error() {
    let revt = record(&[("EventName", "E"), ("Topic", "t"), ("EventCode", "0xZZ")]);
    let err = HPCEvent::from_raw_event(&revt).unwrap_err();
    assert!(matches!(err, Error::ParseInt));
    let revt = record(&[("EventName", "E"), ("Topic", "t"), ("CounterMask", "999")]);
    let err = HPCEvent::from_raw_event(&revt).unwrap_err();
    assert!(matches!(err, Error::ParseInt));
}

#[test]
fn test_pmu_from_json() {
    assert_eq!(HPCEvent::_pmu_from_json("CBO"), Some("uncore_cbox"));
    assert_eq!(HPCEvent::_pmu_from_json("QPI LL"), Some("uncore_qpi"));
    assert_eq!(HPCEvent::_pmu_from_json("L3PMC"), Some("amd_l3"));
    assert_eq!(HPCEvent::_pmu_from_json("SOMETHING"), None);
}

#[test]
fn test_metric_event_from_raw() {
    let revt = record(&[
        ("MetricName", "IPC"),
        ("Topic", "toplevel"),
        ("MetricExpr", "INST_RETIRED.ANY / CPU_CLK_UNHALTED.THREAD"),
        ("MetricGroup", "TopDownL1"),
    ]);
    let evt = MetricEvent::from_raw_event(&revt).unwrap();
    assert_eq!(evt.name, "IPC");
    assert_eq!(evt.topic, "toplevel");
    assert_eq!(evt.expr.1, "INST_RETIRED.ANY / CPU_CLK_UNHALTED.THREAD");
    assert_eq!(evt.metric_group, Some("TopDownL1".to_string()));
    let deps = evt.expr.0.get_counters();
    assert_eq!(
        deps,
        vec!["INST_RETIRED.ANY".to_string(), "CPU_CLK_UNHALTED.THREAD".to_string()]
    );
}

#[test]
fn test_metric_event_bad_formula() {
    let revt = record(&[("MetricName", "M"), ("Topic", "t"), ("MetricExpr", "1 +")]);
    let err = MetricEvent::from_raw_event(&revt).unwrap_err();
    assert!(matches!(err, Error::ParseMetricExpr));
}

#[test]
fn test_event_wrapper_dispatch() {
    let hw = record(&[("EventName", "E"), ("Topic", "t")]);
    assert!(matches!(EventWrapper::from_raw_event(&hw).unwrap(), EventWrapper::HPC(_)));
    let metric = record(&[("MetricName", "M"), ("Topic", "t"), ("MetricExpr", "A + B")]);
    assert!(matches!(EventWrapper::from_raw_event(&metric).unwrap(), EventWrapper::Metric(_)));
    let neither = record(&[("Topic", "t")]);
    assert!(matches!(EventWrapper::from_raw_event(&neither).unwrap_err(), Error::ParseEvent));
}

#[test]
fn test_raw_event_lookup() {
    let revt = record(&[("A", "1"), ("B", "2"), ("A", "3")]);
    assert_eq!(revt.get("A"), Some("1".to_string()));
    assert_eq!(revt.get("B"), Some("2".to_string()));
    assert_eq!(revt.get("C"), None);
    assert!(revt.contains_key("A"));
    assert!(!revt.contains_key("C"));
}

#[test]
fn test_find_pmu_by_name() {
    let mut events = Vec::new();
    for name in ["INST_RETIRED.ANY", "INST_RETIRED.ANY_P", "CPU_CLK_UNHALTED.THREAD"] {
        let revt = record(&[("EventName", name), ("Topic", "t")]);
        events.push(HPCEvent::from_raw_event(&revt).unwrap());
    }
    let hits = find_pmu_by_name(&events, "INST_RETIRED").unwrap();
    assert_eq!(hits, vec![0, 1]);
    let hits = find_pmu_by_name(&events, "THREAD$").unwrap();
    assert_eq!(hits, vec![2]);
    let err = find_pmu_by_name(&events, "foo(bar").unwrap_err();
    assert!(matches!(err, Error::InvalidRegex));
}
