use perfmon::Error;
use perfmon::EventValues;
use perfmon::MetricExpr;
use perfmon::Rational;

fn values(pairs: &[(&str, i64)]) -> EventValues {
    let mut vals = EventValues::new();
    for (name, v) in pairs {
        vals.insert(name, Rational::from_int(*v));
    }
    vals
}

#[test]
fn test_metric_expression() {
    let test_strings = vec![
        "1 - ( (IDQ_UOPS_NOT_DELIVERED.CORE / (4 * cycles)) + (( UOPS_ISSUED.ANY - UOPS_RETIRED.RETIRE_SLOTS + 4 * INT_MISC.RECOVERY_CYCLES ) / (4 * cycles)) + (UOPS_RETIRED.RETIRE_SLOTS / (4 * cycles)) )",
        "1 - CPU_CLK_THREAD_UNHALTED.ONE_THREAD_ACTIVE / ( CPU_CLK_THREAD_UNHALTED.REF_XCLK_ANY / 2 ) if #SMT_on else 0",
        "min( 1 , IDQ.MITE_UOPS / ( (UOPS_RETIRED.RETIRE_SLOTS / INST_RETIRED.ANY) * 16 * ( ICACHE.HIT + ICACHE.MISSES ) / 4.0 ) )",
    ];

    let metrics: Vec<MetricExpr> = test_strings
        .iter()
        .map(|x| {
            let expr = MetricExpr::parse_str(x);
            assert!(expr.is_ok());
            expr.unwrap()
        })
        .collect();
    assert_eq!(test_strings.len(), metrics.len());

    let events: Vec<Vec<String>> = metrics
        .iter()
        .map(|x| {
            let counters = x.get_counters();
            assert!(!counters.is_empty());
            counters
        })
        .collect();
    assert_eq!(test_strings.len(), events.len());
}

#[test]
fn test_metric_sum_dependencies() {
    let expr = MetricExpr::parse_str("A + B").unwrap();
    let counters = expr.get_counters();
    assert_eq!(counters, vec!["A".to_string(), "B".to_string()]);
    let result = expr.evaluate(&values(&[("A", 1), ("B", 2)])).unwrap();
    assert_eq!(result.num, 3);
    assert_eq!(result.den, 1);
}

#[test]
fn test_metric_min_evaluates_lesser() {
    let expr = MetricExpr::parse_str("min(A, B)").unwrap();
    let counters = expr.get_counters();
    assert_eq!(counters, vec!["A".to_string(), "B".to_string()]);
    let result = expr.evaluate(&values(&[("A", 7), ("B", 3)])).unwrap();
    assert_eq!(result.num, 3);
    assert_eq!(result.den, 1);
    let result = expr.evaluate(&values(&[("A", 2), ("B", 5)])).unwrap();
    assert_eq!(result.num, 2);
    assert_eq!(result.den, 1);
}

#[test]
fn test_metric_divide_by_zero() {
    let expr = MetricExpr::parse_str("A / B").unwrap();
    let err = expr.evaluate(&values(&[("A", 1), ("B", 0)])).unwrap_err();
    assert!(matches!(err, Error::DivisionByZero));
}

#[test]
fn test_metric_round_trip() {
    let text = "1 - ( A / (4 * B) ) if #SMT_on else 2.5";
    let e1 = MetricExpr::parse_str(text).unwrap();
    let e2 = MetricExpr::parse_str(text).unwrap();
    let lookup = values(&[("A", 8), ("B", 1), ("#SMT_on", 1)]);
    let r1 = e1.evaluate(&lookup).unwrap();
    let r2 = e2.evaluate(&lookup).unwrap();
    assert_eq!(r1.num, r2.num);
    assert_eq!(r1.den, r2.den);
    assert_eq!(e1.get_counters(), e2.get_counters());
}

#[test]
fn test_metric_conditional_branches() {
    let expr = MetricExpr::parse_str("A if #SMT_on else B").unwrap();
    let on = expr.evaluate(&values(&[("A", 10), ("B", 20), ("#SMT_on", 1)])).unwrap();
    assert_eq!(on.num, 10);
    let off = expr.evaluate(&values(&[("A", 10), ("B", 20), ("#SMT_on", 0)])).unwrap();
    assert_eq!(off.num, 20);
}

#[test]
fn test_metric_unresolved_event() {
    let expr = MetricExpr::parse_str("A + MISSING.EVENT").unwrap();
    let err = expr.evaluate(&values(&[("A", 1)])).unwrap_err();
    match err {
        Error::UnresolvedEvent(name) => assert_eq!(name, "MISSING.EVENT"),
        other => panic!("unexpected error {:?}", other),
    }
}

#[test]
fn test_metric_overflow() {
    let expr = MetricExpr::parse_str("9223372036854775807 + 9223372036854775807").unwrap();
    let err = expr.evaluate(&EventValues::new()).unwrap_err();
    assert!(matches!(err, Error::ArithmeticOverflow));
}

#[test]
fn test_metric_fractional_literal() {
    let expr = MetricExpr::parse_str("A / 4.0").unwrap();
    let result = expr.evaluate(&values(&[("A", 10)])).unwrap();
    // 10/1 divided by 40/10 is 100/40, unreduced.
    assert_eq!(result.num, 100);
    assert_eq!(result.den, 40);
}

#[test]
fn test_metric_parse_error() {
    let err = MetricExpr::parse_str("A + + B").unwrap_err();
    assert!(matches!(err, Error::ParseMetricExpr));
    let err = MetricExpr::parse_str("min(A,)").unwrap_err();
    assert!(matches!(err, Error::ParseMetricExpr));
    let err = MetricExpr::parse_str("").unwrap_err();
    assert!(matches!(err, Error::ParseMetricExpr));
}

#[test]
fn test_metric_min_three_arguments() {
    let expr = MetricExpr::parse_str("min(A, B, C)").unwrap();
    let counters = expr.get_counters();
    assert_eq!(counters, vec!["A".to_string(), "B".to_string(), "C".to_string()]);
    let result = expr.evaluate(&values(&[("A", 4), ("B", 9), ("C", 2)])).unwrap();
    assert_eq!(result.num, 2);
    assert_eq!(result.den, 1);
}

#[test]
fn test_metric_precedence() {
    // Multiplication binds tighter than addition, both left-associative.
    let expr = MetricExpr::parse_str("A + B * C").unwrap();
    let result = expr.evaluate(&values(&[("A", 1), ("B", 2), ("C", 3)])).unwrap();
    assert_eq!(result.num, 7);
    assert_eq!(result.den, 1);
    let expr = MetricExpr::parse_str("A - B - C").unwrap();
    let result = expr.evaluate(&values(&[("A", 10), ("B", 3), ("C", 2)])).unwrap();
    assert_eq!(result.num, 5);
    assert_eq!(result.den, 1);
}
