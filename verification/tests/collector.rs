use metrics_cloudwatch_embedded::builder::{Builder, InitError};
use metrics_cloudwatch_embedded::collector::{Collector, CounterHandle, GaugeHandle, HistogramHandle};
use metrics_cloudwatch_embedded::emf::Unit;
use metrics_cloudwatch_embedded::json::{Chunk, JsonText};
use metrics_cloudwatch_embedded::labels::Label;
use metrics_cloudwatch_embedded::model::{MetricKind, Recorded, RegisterError};
use metrics_cloudwatch_embedded::value::{JsonScalar, JsonValue};

fn text_of(out: JsonText) -> String {
    let mut text = String::new();
    for chunk in out.into_chunks() {
        match chunk {
            Chunk::Text(s) => text.push_str(&s),
            Chunk::Float(bits) => {
                text.push_str(&serde_json::to_string(&f64::from_bits(bits)).unwrap())
            }
        }
    }
    text
}

fn labels(pairs: &[(&str, &str)]) -> Vec<Label> {
    pairs.iter().map(|(k, v)| Label::new(k, v)).collect()
}

fn collector(emit_zeros: bool) -> Collector {
    Builder::new()
        .cloudwatch_namespace("namespace")
        .with_dimension("Address", "10.172.207.225")
        .with_dimension("Port", "7779")
        .with_timestamp(1687657545423)
        .emit_zeros(emit_zeros)
        .init()
        .unwrap()
}

fn bare() -> Collector {
    Builder::new().cloudwatch_namespace("n").with_timestamp(1).init().unwrap()
}

fn record_everything(metrics: &mut Collector) -> CounterHandle {
    let a = labels(&[("module", "directory"), ("api", "a_function")]);
    let b = labels(&[("module", "directory"), ("api", "b_function")]);
    metrics.describe_counter("success", Some(Unit::Count));
    metrics.describe_histogram("runtime", Some(Unit::Milliseconds));
    let (success_a, _) = metrics.register_counter("success", &a);
    metrics.counter_add(&success_a, 1);
    let (not_found, _) = metrics.register_counter("not_found", &a);
    metrics.counter_add(&not_found, 1);
    metrics.describe_counter("not_found", Some(Unit::Count));
    let (success_b, _) = metrics.register_counter("success", &b);
    metrics.counter_add(&success_b, 1);
    let (again, _) = metrics.register_counter("success", &a);
    metrics.counter_add(&again, 1);
    let (thing, _) = metrics.register_gauge("thing", &a);
    metrics.gauge_set(&thing, 3.15f64.to_bits());
    let (runtime, _) = metrics.register_histogram("runtime", &a);
    metrics.histogram_record(&runtime, 4.0f64.to_bits());
    let (thing, _) = metrics.register_gauge("thing", &a);
    metrics.gauge_set(&thing, 7.11f64.to_bits());
    let (runtime, _) = metrics.register_histogram("runtime", &a);
    metrics.histogram_record(&runtime, 5.0f64.to_bits());
    success_a
}

const FIRST_FLUSH: &str = r#"{"_aws":{"Timestamp":1687657545423,"CloudWatchMetrics":[{"Namespace":"namespace","Dimensions":[["Address","Port","module","api"]],"Metrics":[{"Name":"not_found","Unit":"Count"},{"Name":"runtime","Unit":"Milliseconds"},{"Name":"success","Unit":"Count"},{"Name":"thing"}]}]},"Address":"10.172.207.225","Port":"7779","api":"a_function","module":"directory","not_found":1,"runtime":[4.0,5.0],"success":2,"thing":7.11}
{"_aws":{"Timestamp":1687657545423,"CloudWatchMetrics":[{"Namespace":"namespace","Dimensions":[["Address","Port","module","api"]],"Metrics":[{"Name":"success","Unit":"Count"}]}]},"Address":"10.172.207.225","Port":"7779","api":"b_function","module":"directory","success":1}
"#;

#[test]
fn end_to_end_with_every_kind() {
    let mut metrics = collector(false);
    record_everything(&mut metrics);
    assert_eq!(text_of(metrics.flush(0)), FIRST_FLUSH);
}

#[test]
fn end_to_end_counters() {
    let mut metrics = collector(false);
    let a = labels(&[("module", "directory"), ("api", "a_function")]);
    let b = labels(&[("module", "directory"), ("api", "b_function")]);
    let (h, _) = metrics.register_counter("success", &a);
    metrics.counter_add(&h, 1);
    let (h, _) = metrics.register_counter("success", &a);
    metrics.counter_add(&h, 1);
    let (h, _) = metrics.register_counter("success", &b);
    metrics.counter_add(&h, 1);
    let (h, _) = metrics.register_counter("not_found", &a);
    metrics.counter_add(&h, 1);
    let text = text_of(metrics.flush(0));
    assert_eq!(
        text,
        r#"{"_aws":{"Timestamp":1687657545423,"CloudWatchMetrics":[{"Namespace":"namespace","Dimensions":[["Address","Port","module","api"]],"Metrics":[{"Name":"not_found"},{"Name":"success"}]}]},"Address":"10.172.207.225","Port":"7779","api":"a_function","module":"directory","not_found":1,"success":2}
{"_aws":{"Timestamp":1687657545423,"CloudWatchMetrics":[{"Namespace":"namespace","Dimensions":[["Address","Port","module","api"]],"Metrics":[{"Name":"success"}]}]},"Address":"10.172.207.225","Port":"7779","api":"b_function","module":"directory","success":1}
"#
    );
    let lines: Vec<&str> = text.lines().collect();
    assert_eq!(lines.len(), 2);
    for line in &lines {
        let doc: serde_json::Value = serde_json::from_str(line).unwrap();
        let dims = &doc["_aws"]["CloudWatchMetrics"][0]["Dimensions"][0];
        assert_eq!(serde_json::to_string(dims).unwrap(), r#"["Address","Port","module","api"]"#);
    }
}

#[test]
fn counter_without_a_delta_is_left_out() {
    let mut metrics = collector(false);
    let success = record_everything(&mut metrics);
    assert_eq!(text_of(metrics.flush(0)), FIRST_FLUSH);

    metrics.counter_add(&success, 1);
    let text = text_of(metrics.flush(0));
    assert_eq!(
        text,
        r#"{"_aws":{"Timestamp":1687657545423,"CloudWatchMetrics":[{"Namespace":"namespace","Dimensions":[["Address","Port","module","api"]],"Metrics":[{"Name":"success","Unit":"Count"},{"Name":"thing"}]}]},"Address":"10.172.207.225","Port":"7779","api":"a_function","module":"directory","success":1,"thing":7.11}
"#
    );
    assert!(!text.contains("not_found"));
}

#[test]
fn counter_without_a_delta_is_listed_with_zero() {
    let mut metrics = collector(true);
    let success = record_everything(&mut metrics);
    assert_eq!(text_of(metrics.flush(0)), FIRST_FLUSH);

    metrics.counter_add(&success, 1);
    assert_eq!(
        text_of(metrics.flush(0)),
        r#"{"_aws":{"Timestamp":1687657545423,"CloudWatchMetrics":[{"Namespace":"namespace","Dimensions":[["Address","Port","module","api"]],"Metrics":[{"Name":"not_found","Unit":"Count"},{"Name":"success","Unit":"Count"},{"Name":"thing"}]}]},"Address":"10.172.207.225","Port":"7779","api":"a_function","module":"directory","not_found":0,"success":1,"thing":7.11}
{"_aws":{"Timestamp":1687657545423,"CloudWatchMetrics":[{"Namespace":"namespace","Dimensions":[["Address","Port","module","api"]],"Metrics":[{"Name":"success","Unit":"Count"}]}]},"Address":"10.172.207.225","Port":"7779","api":"b_function","module":"directory","success":0}
"#
    );
}

#[test]
fn registering_again_gives_the_same_state() {
    let mut metrics = bare();
    let l = labels(&[("a", "1"), ("b", "2")]);
    let (first, e1) = metrics.register_counter("x", &l);
    let (second, e2) = metrics.register_counter("x", &l);
    assert_eq!(e1, None);
    assert_eq!(e2, None);
    assert!(!first.is_noop() && !second.is_noop());
    assert_eq!(first.slot(), second.slot());
    assert_eq!(CounterHandle::noop().slot(), None);
    assert_eq!(metrics.metric_count(), 1);
    metrics.counter_add(&first, 2);
    assert_eq!(metrics.counter_value(&second), Some(2));
    metrics.counter_add(&second, 3);
    assert_eq!(metrics.counter_value(&first), Some(5));
}

#[test]
fn the_order_of_the_labels_plays_no_part_in_the_identity() {
    let mut metrics = bare();
    let (first, _) = metrics.register_counter("x", &labels(&[("a", "1"), ("b", "2")]));
    let (second, _) = metrics.register_counter("x", &labels(&[("b", "2"), ("a", "1")]));
    assert_eq!(metrics.metric_count(), 1);
    assert_eq!(metrics.label_set_count(), 1);
    metrics.counter_add(&first, 1);
    metrics.counter_add(&second, 1);
    let text = text_of(metrics.flush(0));
    assert_eq!(
        text,
        "{\"_aws\":{\"Timestamp\":1,\"CloudWatchMetrics\":[{\"Namespace\":\"n\",\"Dimensions\":[[\"a\",\"b\"]],\"Metrics\":[{\"Name\":\"x\"}]}]},\"a\":\"1\",\"b\":\"2\",\"x\":2}\n"
    );
}

#[test]
fn another_kind_under_the_same_identity_is_refused() {
    let mut metrics = bare();
    let l = labels(&[("k", "v")]);
    let (counter, _) = metrics.register_counter("x", &l);
    metrics.counter_add(&counter, 4);
    let (gauge, error) = metrics.register_gauge("x", &l);
    assert!(gauge.is_noop());
    assert_eq!(error, Some(RegisterError::KindMismatch { existing: MetricKind::Counter }));
    metrics.gauge_set(&gauge, 1.0f64.to_bits());
    assert_eq!(metrics.gauge_value(&gauge), None);
    assert_eq!(metrics.counter_value(&counter), Some(4));
    metrics.counter_add(&counter, 1);
    assert_eq!(metrics.counter_value(&counter), Some(5));
    let (histogram, error) = metrics.register_histogram("x", &l);
    assert!(histogram.is_noop());
    assert_eq!(error, Some(RegisterError::KindMismatch { existing: MetricKind::Counter }));
    assert_eq!(metrics.histogram_record(&histogram, 0), Recorded::Ignored);
    assert_eq!(metrics.metric_count(), 1);
}

#[test]
fn each_kind_refuses_the_others() {
    let mut metrics = bare();
    let l = labels(&[]);
    metrics.register_gauge("g", &l);
    metrics.register_histogram("h", &l);
    let (c, e) = metrics.register_counter("g", &l);
    assert!(c.is_noop());
    assert_eq!(e, Some(RegisterError::KindMismatch { existing: MetricKind::Gauge }));
    let (c, e) = metrics.register_counter("h", &l);
    assert!(c.is_noop());
    assert_eq!(e, Some(RegisterError::KindMismatch { existing: MetricKind::Histogram }));
    let (g, e) = metrics.register_gauge("h", &l);
    assert!(g.is_noop());
    assert_eq!(e, Some(RegisterError::KindMismatch { existing: MetricKind::Histogram }));
    let (h, e) = metrics.register_histogram("g", &l);
    assert!(h.is_noop());
    assert_eq!(e, Some(RegisterError::KindMismatch { existing: MetricKind::Gauge }));
}

#[test]
fn the_same_name_under_other_labels_is_another_metric() {
    let mut metrics = bare();
    let (counter, e1) = metrics.register_counter("x", &labels(&[("k", "1")]));
    let (gauge, e2) = metrics.register_gauge("x", &labels(&[("k", "2")]));
    assert_eq!(e1, None);
    assert_eq!(e2, None);
    assert!(!counter.is_noop() && !gauge.is_noop());
    assert_eq!(metrics.metric_count(), 2);
    assert_eq!(metrics.label_set_count(), 2);
}

#[test]
fn counter_reports_the_sum_of_its_adds() {
    let mut metrics = bare();
    let (h, _) = metrics.register_counter("c", &labels(&[]));
    for delta in [1u64, 2, 3, 10, 100] {
        metrics.counter_add(&h, delta);
    }
    assert_eq!(metrics.counter_value(&h), Some(116));
    assert_eq!(
        text_of(metrics.flush(0)),
        "{\"_aws\":{\"Timestamp\":1,\"CloudWatchMetrics\":[{\"Namespace\":\"n\",\"Dimensions\":[[]],\"Metrics\":[{\"Name\":\"c\"}]}]},\"c\":116}\n"
    );
    assert_eq!(metrics.counter_value(&h), Some(0));
    assert_eq!(text_of(metrics.flush(0)), "");
}

#[test]
fn counter_wraps_at_two_to_the_sixty_four() {
    let mut metrics = bare();
    let (h, _) = metrics.register_counter("c", &labels(&[]));
    metrics.counter_add(&h, u64::MAX);
    metrics.counter_add(&h, 3);
    assert_eq!(metrics.counter_value(&h), Some(2));
    metrics.counter_add(&h, u64::MAX - 1);
    assert_eq!(metrics.counter_value(&h), Some(0));
}

#[test]
fn zero_counter_is_listed_when_zeros_are_asked_for() {
    let mut metrics = Builder::new()
        .cloudwatch_namespace("n")
        .with_timestamp(1)
        .emit_zeros(true)
        .init()
        .unwrap();
    metrics.register_counter("c", &labels(&[]));
    let expected = "{\"_aws\":{\"Timestamp\":1,\"CloudWatchMetrics\":[{\"Namespace\":\"n\",\"Dimensions\":[[]],\"Metrics\":[{\"Name\":\"c\"}]}]},\"c\":0}\n";
    assert_eq!(text_of(metrics.flush(0)), expected);
    assert_eq!(text_of(metrics.flush(0)), expected);
}

#[test]
fn gauge_keeps_its_value_over_flushes() {
    let mut metrics = bare();
    let (h, _) = metrics.register_gauge("g", &labels(&[]));
    metrics.gauge_set(&h, 1.5f64.to_bits());
    metrics.gauge_set(&h, 2.5f64.to_bits());
    let expected = "{\"_aws\":{\"Timestamp\":1,\"CloudWatchMetrics\":[{\"Namespace\":\"n\",\"Dimensions\":[[]],\"Metrics\":[{\"Name\":\"g\"}]}]},\"g\":2.5}\n";
    assert_eq!(text_of(metrics.flush(0)), expected);
    assert_eq!(text_of(metrics.flush(0)), expected);
    assert_eq!(metrics.gauge_value(&h), Some(2.5f64.to_bits()));
    metrics.gauge_set(&h, 0.25f64.to_bits());
    assert!(text_of(metrics.flush(0)).ends_with("\"g\":0.25}\n"));
}

#[test]
fn gauge_that_was_never_set_reports_zero() {
    let mut metrics = bare();
    metrics.register_gauge("g", &labels(&[]));
    assert!(text_of(metrics.flush(0)).ends_with("\"g\":0.0}\n"));
}

#[test]
fn histogram_is_drained_in_recorded_order() {
    let mut metrics = bare();
    let (h, _) = metrics.register_histogram("h", &labels(&[]));
    for v in [3.0f64, 1.0, 2.0] {
        assert_eq!(metrics.histogram_record(&h, v.to_bits()), Recorded::Kept);
    }
    assert_eq!(metrics.histogram_len(&h), Some(3));
    assert_eq!(
        text_of(metrics.flush(0)),
        "{\"_aws\":{\"Timestamp\":1,\"CloudWatchMetrics\":[{\"Namespace\":\"n\",\"Dimensions\":[[]],\"Metrics\":[{\"Name\":\"h\"}]}]},\"h\":[3.0,1.0,2.0]}\n"
    );
    assert_eq!(metrics.histogram_len(&h), Some(0));
    assert_eq!(text_of(metrics.flush(0)), "");
}

#[test]
fn histogram_keeps_a_hundred_samples_and_drops_the_rest() {
    let mut metrics = bare();
    let (h, _) = metrics.register_histogram("h", &labels(&[]));
    let mut kept = 0;
    let mut dropped = 0;
    for i in 0..150 {
        match metrics.histogram_record(&h, (i as f64).to_bits()) {
            Recorded::Kept => kept += 1,
            Recorded::Dropped => dropped += 1,
            Recorded::Ignored => panic!("the handle is one of a histogram"),
        }
    }
    assert_eq!(kept, 100);
    assert_eq!(dropped, 50);
    let text = text_of(metrics.flush(0));
    let doc: serde_json::Value = serde_json::from_str(text.trim_end()).unwrap();
    let samples = doc["h"].as_array().unwrap();
    assert_eq!(samples.len(), 100);
    for (i, sample) in samples.iter().enumerate() {
        assert_eq!(sample.as_f64().unwrap(), i as f64);
    }
    assert_eq!(metrics.histogram_record(&h, 0), Recorded::Kept);
}

#[test]
fn too_many_dimensions_are_refused() {
    let mut builder = Builder::new().cloudwatch_namespace("n").with_timestamp(1);
    for i in 0..29 {
        builder = builder.with_dimension(&format!("d{}", i), "v");
    }
    let mut metrics = builder.init().unwrap();
    let two = labels(&[("a", "1"), ("b", "2")]);
    let (c, e) = metrics.register_counter("x", &two);
    assert!(c.is_noop());
    assert_eq!(e, Some(RegisterError::TooManyDimensions));
    let (g, e) = metrics.register_gauge("x", &two);
    assert!(g.is_noop());
    assert_eq!(e, Some(RegisterError::TooManyDimensions));
    let (h, e) = metrics.register_histogram("x", &two);
    assert!(h.is_noop());
    assert_eq!(e, Some(RegisterError::TooManyDimensions));
    assert_eq!(metrics.metric_count(), 0);
    metrics.counter_add(&c, 1);
    assert_eq!(text_of(metrics.flush(0)), "");

    let (c, e) = metrics.register_counter("x", &labels(&[("a", "1")]));
    assert!(!c.is_noop());
    assert_eq!(e, None);
}

#[test]
fn handles_that_do_nothing_change_nothing() {
    let mut metrics = bare();
    metrics.counter_add(&CounterHandle::noop(), 1);
    metrics.gauge_set(&GaugeHandle::noop(), 1);
    assert_eq!(metrics.histogram_record(&HistogramHandle::noop(), 1), Recorded::Ignored);
    assert_eq!(metrics.counter_value(&CounterHandle::noop()), None);
    assert_eq!(metrics.gauge_value(&GaugeHandle::noop()), None);
    assert_eq!(metrics.histogram_len(&HistogramHandle::noop()), None);
    assert_eq!(text_of(metrics.flush(0)), "");
}

#[test]
fn units_belong_to_names_under_every_label_set() {
    let mut metrics = bare();
    let (a, _) = metrics.register_counter("c", &labels(&[("k", "1")]));
    let (b, _) = metrics.register_counter("c", &labels(&[("k", "2")]));
    metrics.counter_add(&a, 1);
    metrics.counter_add(&b, 1);
    metrics.describe_gauge("c", Some(Unit::Seconds));
    let text = text_of(metrics.flush(0));
    assert_eq!(text.matches(r#"{"Name":"c","Unit":"Seconds"}"#).count(), 2);
    metrics.counter_add(&a, 1);
    metrics.update_unit("c", None);
    let text = text_of(metrics.flush(0));
    assert!(text.contains(r#""Metrics":[{"Name":"c"}]"#));
}

#[test]
fn properties_stay_until_they_are_removed() {
    let mut metrics = bare();
    let (h, _) = metrics.register_counter("c", &labels(&[]));
    metrics.set_property("RequestId", JsonValue::Scalar(JsonScalar::Text("ABC123".to_string())));
    metrics.set_property("Attempt", JsonValue::Scalar(JsonScalar::Unsigned(1)));
    metrics.set_property("Attempt", JsonValue::Scalar(JsonScalar::Unsigned(2)));
    metrics.counter_add(&h, 1);
    assert_eq!(
        text_of(metrics.flush(0)),
        "{\"_aws\":{\"Timestamp\":1,\"CloudWatchMetrics\":[{\"Namespace\":\"n\",\"Dimensions\":[[]],\"Metrics\":[{\"Name\":\"c\"}]}]},\"Attempt\":2,\"RequestId\":\"ABC123\",\"c\":1}\n"
    );
    metrics.remove_property("Attempt");
    metrics.remove_property("Missing");
    metrics.counter_add(&h, 1);
    assert_eq!(
        text_of(metrics.flush(0)),
        "{\"_aws\":{\"Timestamp\":1,\"CloudWatchMetrics\":[{\"Namespace\":\"n\",\"Dimensions\":[[]],\"Metrics\":[{\"Name\":\"c\"}]}]},\"RequestId\":\"ABC123\",\"c\":1}\n"
    );
}

#[test]
fn label_sets_are_flushed_in_their_order_and_names_in_theirs() {
    let mut metrics = bare();
    for (set, name) in [("z", "b"), ("a", "d"), ("m", "c"), ("a", "a")] {
        let (h, _) = metrics.register_counter(name, &labels(&[("k", set)]));
        metrics.counter_add(&h, 1);
    }
    let text = text_of(metrics.flush(0));
    let lines: Vec<&str> = text.lines().collect();
    assert_eq!(lines.len(), 3);
    assert!(lines[0].ends_with(r#""k":"a","a":1,"d":1}"#));
    assert!(lines[1].ends_with(r#""k":"m","c":1}"#));
    assert!(lines[2].ends_with(r#""k":"z","b":1}"#));
}

#[test]
fn flushing_label_set_by_label_set_writes_what_a_flush_writes() {
    let mut whole = collector(false);
    let mut stepwise = collector(false);
    record_everything(&mut whole);
    record_everything(&mut stepwise);
    let mut text = String::new();
    for i in 0..stepwise.label_set_count() {
        text.push_str(&text_of(stepwise.flush_label_set(i, 0)));
    }
    assert_eq!(text, text_of(whole.flush(0)));
    assert_eq!(text_of(stepwise.flush_label_set(7, 0)), "");
    assert_eq!(text_of(stepwise.flush(0)), text_of(whole.flush(0)));
}

#[test]
fn a_label_set_that_is_not_flushed_keeps_its_counters() {
    let mut metrics = bare();
    let (a, _) = metrics.register_counter("c", &labels(&[("k", "1")]));
    let (b, _) = metrics.register_counter("c", &labels(&[("k", "2")]));
    metrics.counter_add(&a, 1);
    metrics.counter_add(&b, 2);
    assert!(text_of(metrics.flush_label_set(0, 0)).ends_with("\"c\":1}\n"));
    assert_eq!(metrics.counter_value(&a), Some(0));
    assert_eq!(metrics.counter_value(&b), Some(2));
}

#[test]
fn the_time_of_the_flush_is_written_where_none_is_configured() {
    let mut metrics = Builder::new().cloudwatch_namespace("n").init().unwrap();
    assert_eq!(metrics.timestamp(42), 42);
    let (h, _) = metrics.register_counter("c", &labels(&[]));
    metrics.counter_add(&h, 1);
    assert!(text_of(metrics.flush(1700000000000)).starts_with(r#"{"_aws":{"Timestamp":1700000000000,"#));
    assert_eq!(collector(false).timestamp(42), 1687657545423);
}

#[test]
fn write_single_bypasses_the_registry() {
    let mut metrics = collector(false);
    metrics.set_property("RequestId", JsonValue::Scalar(JsonScalar::Text("r".to_string())));
    let text = text_of(metrics.write_single(
        "ColdStart",
        Some(Unit::Count),
        JsonValue::Scalar(JsonScalar::Unsigned(1)),
        0,
    ));
    assert_eq!(
        text,
        r#"{"_aws":{"Timestamp":1687657545423,"CloudWatchMetrics":[{"Namespace":"namespace","Dimensions":[["Address","Port"]],"Metrics":[{"Name":"ColdStart","Unit":"Count"}]}]},"Address":"10.172.207.225","Port":"7779","RequestId":"r","ColdStart":1}
"#
    );
    assert_eq!(metrics.metric_count(), 0);
    assert_eq!(text_of(metrics.flush(0)), "");
    let text = text_of(metrics.write_single("t", None, JsonValue::Scalar(JsonScalar::Float(0.5f64.to_bits())), 0));
    assert!(text.contains(r#""Metrics":[{"Name":"t"}]"#));
    assert!(text.ends_with("\"t\":0.5}\n"));
}

#[test]
fn a_later_dimension_of_the_same_name_gives_the_value() {
    let mut metrics = Builder::new()
        .cloudwatch_namespace("n")
        .with_dimension("k", "static")
        .with_timestamp(1)
        .init()
        .unwrap();
    let (h, _) = metrics.register_counter("c", &labels(&[("k", "label")]));
    metrics.counter_add(&h, 1);
    assert_eq!(
        text_of(metrics.flush(0)),
        "{\"_aws\":{\"Timestamp\":1,\"CloudWatchMetrics\":[{\"Namespace\":\"n\",\"Dimensions\":[[\"k\",\"k\"]],\"Metrics\":[{\"Name\":\"c\"}]}]},\"k\":\"label\",\"c\":1}\n"
    );
}

#[test]
fn a_builder_without_a_namespace_gives_no_collector() {
    let error = Builder::new().with_dimension("a", "b").init().err().unwrap();
    assert_eq!(error, InitError::NamespaceMissing);
    assert_eq!(error.message(), "cloudwatch_namespace missing");
    assert!(Builder::new().build().is_err());
}

#[test]
fn a_builder_hands_on_what_it_was_given() {
    let config = Builder::new()
        .cloudwatch_namespace("first")
        .cloudwatch_namespace("second")
        .with_dimension("a", "1")
        .with_dimension("b", "2")
        .with_timestamp(9)
        .emit_zeros(true)
        .lambda_cold_start_metric("ColdStart")
        .with_lambda_request_id("RequestId")
        .with_lambda_xray_trace_id("TraceId")
        .build()
        .unwrap();
    assert_eq!(config.cloudwatch_namespace, "second");
    assert_eq!(
        config.default_dimensions,
        vec![("a".to_string(), "1".to_string()), ("b".to_string(), "2".to_string())]
    );
    assert_eq!(config.timestamp, Some(9));
    assert!(config.emit_zeros);
    assert_eq!(config.lambda_cold_start.as_deref(), Some("ColdStart"));
    assert_eq!(config.lambda_request_id.as_deref(), Some("RequestId"));
    assert_eq!(config.lambda_xray_trace_id.as_deref(), Some("TraceId"));
    let plain = Builder::new().cloudwatch_namespace("n").build().unwrap();
    assert_eq!(plain.timestamp, None);
    assert!(!plain.emit_zeros);
    assert!(plain.default_dimensions.is_empty());
    assert_eq!(plain.lambda_cold_start, None);
}

#[test]
fn the_cold_start_is_announced_once() {
    let mut metrics = Builder::new()
        .cloudwatch_namespace("MetricsTest")
        .with_dimension("Function", "MetricsTest")
        .with_timestamp(1688294472338)
        .lambda_cold_start_metric("ColdStart")
        .with_lambda_request_id("RequestId")
        .init()
        .unwrap();
    assert!(metrics.in_cold_start());
    let first = metrics.begin_invocation("fce53486", None, 0).unwrap();
    assert_eq!(
        text_of(first),
        r#"{"_aws":{"Timestamp":1688294472338,"CloudWatchMetrics":[{"Namespace":"MetricsTest","Dimensions":[["Function"]],"Metrics":[{"Name":"ColdStart","Unit":"Count"}]}]},"Function":"MetricsTest","RequestId":"fce53486","ColdStart":1}
"#
    );
    let (h, _) = metrics.register_counter("requests", &labels(&[("Method", "Default")]));
    metrics.counter_add(&h, 1);
    assert_eq!(
        text_of(metrics.end_invocation(0)),
        r#"{"_aws":{"Timestamp":1688294472338,"CloudWatchMetrics":[{"Namespace":"MetricsTest","Dimensions":[["Function","Method"]],"Metrics":[{"Name":"requests"}]}]},"Function":"MetricsTest","Method":"Default","RequestId":"fce53486","requests":1}
"#
    );
    assert!(!metrics.in_cold_start());
    assert!(metrics.begin_invocation("second", None, 0).is_none());
    metrics.counter_add(&h, 1);
    assert!(text_of(metrics.end_invocation(0)).contains(r#""RequestId":"second""#));
}

#[test]
fn an_invocation_sets_only_the_configured_properties() {
    let mut metrics = bare();
    assert!(metrics.begin_invocation("id", Some("trace"), 0).is_none());
    let (h, _) = metrics.register_counter("c", &labels(&[]));
    metrics.counter_add(&h, 1);
    assert!(text_of(metrics.end_invocation(0)).ends_with("]}]},\"c\":1}\n"));

    let mut traced = Builder::new()
        .cloudwatch_namespace("n")
        .with_timestamp(1)
        .with_lambda_xray_trace_id("Trace")
        .init()
        .unwrap();
    traced.begin_invocation("id", Some("Root=1"), 0);
    let (h, _) = traced.register_counter("c", &labels(&[]));
    traced.counter_add(&h, 1);
    assert!(text_of(traced.end_invocation(0)).ends_with("\"Trace\":\"Root=1\",\"c\":1}\n"));
    traced.begin_invocation("id", None, 0);
    traced.counter_add(&h, 1);
    assert!(text_of(traced.end_invocation(0)).ends_with("\"Trace\":null,\"c\":1}\n"));
    traced.end_cold_start();
    assert!(!traced.in_cold_start());
}

#[test]
fn register_by_kind_gives_the_slot() {
    let mut metrics = bare();
    let l = labels(&[("k", "v")]);
    let (slot, error) = metrics.register("x", &l, MetricKind::Gauge);
    assert_eq!(error, None);
    assert_eq!(slot, Some(0));
    assert_eq!(metrics.register("x", &l, MetricKind::Gauge), (Some(0), None));
    assert_eq!(metrics.register("y", &l, MetricKind::Counter), (Some(1), None));
    assert_eq!(
        metrics.register("y", &l, MetricKind::Histogram),
        (None, Some(RegisterError::KindMismatch { existing: MetricKind::Counter }))
    );
    assert_eq!(metrics.config().cloudwatch_namespace, "n");
}

#[test]
fn property_calls_can_be_chained() {
    let mut metrics = bare();
    let (h, _) = metrics.register_counter("requests", &labels(&[("Method", "Default")]));
    metrics.counter_add(&h, 1);
    let out = metrics
        .set_property("RequestId", JsonValue::Scalar(JsonScalar::Text("ABC123".to_string())))
        .set_property("Gone", JsonValue::Scalar(JsonScalar::Bool(true)))
        .remove_property("Gone")
        .flush(0);
    assert_eq!(
        text_of(out),
        "{\"_aws\":{\"Timestamp\":1,\"CloudWatchMetrics\":[{\"Namespace\":\"n\",\"Dimensions\":[[\"Method\"]],\"Metrics\":[{\"Name\":\"requests\"}]}]},\"Method\":\"Default\",\"RequestId\":\"ABC123\",\"requests\":1}\n"
    );
}
