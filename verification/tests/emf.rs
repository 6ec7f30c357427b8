use metrics_cloudwatch_embedded::emf::{
    unit_to_str, EmbeddedMetric, EmbeddedMetrics, EmbeddedMetricsAws, EmbeddedNamespace, Unit,
};
use metrics_cloudwatch_embedded::json::{Chunk, JsonText};
use metrics_cloudwatch_embedded::name_map::NameMap;
use metrics_cloudwatch_embedded::value::{JsonScalar, JsonValue};

fn text_of(out: JsonText) -> String {
    let mut text = String::new();
    for chunk in out.into_chunks() {
        match chunk {
            Chunk::Text(s) => text.push_str(&s),
            Chunk::Float(bits) => {
                text.push_str(&serde_json::to_string(&f64::from_bits(bits)).unwrap())
            }
        }
    }
    text
}

fn float(value: f64) -> JsonValue {
    JsonValue::Scalar(JsonScalar::Float(value.to_bits()))
}

#[test]
fn embedded_metrics() {
    let mut metrics_test = EmbeddedMetrics {
        aws: EmbeddedMetricsAws {
            timestamp: 0,
            cloudwatch_metrics: [EmbeddedNamespace {
                namespace: "GameServerMetrics".to_string(),
                dimensions: [vec!["Address".to_string(), "Port".to_string()]],
                metrics: Vec::new(),
            }],
        },
        dimensions: NameMap::new(),
        properties: NameMap::new(),
        values: NameMap::new(),
    };

    metrics_test.aws.timestamp = 1687394207903;

    metrics_test.dimensions.insert("Address", "10.172.207.225".to_string());
    metrics_test.dimensions.insert("Port", "7779".to_string());

    metrics_test.aws.cloudwatch_metrics[0].metrics.clear();
    metrics_test.values.clear();

    metrics_test.aws.cloudwatch_metrics[0].metrics.push(EmbeddedMetric {
        name: "FrameTime".to_string(),
        unit: Some(unit_to_str(&Unit::Milliseconds)),
    });
    metrics_test.values.insert("FrameTime", float(10.0));

    metrics_test.aws.cloudwatch_metrics[0].metrics.push(EmbeddedMetric {
        name: "CpuUsage".to_string(),
        unit: Some(unit_to_str(&Unit::Percent)),
    });
    metrics_test.values.insert("CpuUsage", float(5.5));

    metrics_test.aws.cloudwatch_metrics[0].metrics.push(EmbeddedMetric {
        name: "MemoryUsage".to_string(),
        unit: Some(unit_to_str(&Unit::Kibibytes)),
    });
    metrics_test
        .values
        .insert("MemoryUsage", JsonValue::Scalar(JsonScalar::Unsigned(10 * 1024)));

    assert_eq!(
        text_of(metrics_test.to_json()),
        r#"{"_aws":{"Timestamp":1687394207903,"CloudWatchMetrics":[{"Namespace":"GameServerMetrics","Dimensions":[["Address","Port"]],"Metrics":[{"Name":"FrameTime","Unit":"Milliseconds"},{"Name":"CpuUsage","Unit":"Percent"},{"Name":"MemoryUsage","Unit":"Kilobytes"}]}]},"Address":"10.172.207.225","Port":"7779","CpuUsage":5.5,"FrameTime":10.0,"MemoryUsage":10240}"#
    );
}

#[test]
fn every_unit_has_its_cloudwatch_name() {
    let expected = [
        (Unit::Count, "Count"),
        (Unit::Percent, "Percent"),
        (Unit::Seconds, "Seconds"),
        (Unit::Milliseconds, "Milliseconds"),
        (Unit::Microseconds, "Microseconds"),
        (Unit::Nanoseconds, "Nanoseconds"),
        (Unit::Tebibytes, "Terabytes"),
        (Unit::Gibibytes, "Gigabytes"),
        (Unit::Mebibytes, "Megabytes"),
        (Unit::Kibibytes, "Kilobytes"),
        (Unit::Bytes, "Bytes"),
        (Unit::TerabitsPerSecond, "Terabits/Second"),
        (Unit::GigabitsPerSecond, "Gigabits/Second"),
        (Unit::MegabitsPerSecond, "Megabits/Second"),
        (Unit::KilobitsPerSecond, "Kilobits/Second"),
        (Unit::BitsPerSecond, "Bits/Second"),
        (Unit::CountPerSecond, "Count/Second"),
    ];
    for (unit, name) in expected {
        assert_eq!(unit_to_str(&unit), name);
    }
}

#[test]
fn metric_without_unit_has_no_unit_member() {
    let metric = EmbeddedMetric { name: "thing".to_string(), unit: None };
    let mut out = JsonText::new();
    metric.render(&mut out);
    assert_eq!(text_of(out), r#"{"Name":"thing"}"#);
}

#[test]
fn document_without_members_is_the_metadata_alone() {
    let doc = EmbeddedMetrics {
        aws: EmbeddedMetricsAws {
            timestamp: 7,
            cloudwatch_metrics: [EmbeddedNamespace {
                namespace: "n".to_string(),
                dimensions: [Vec::new()],
                metrics: Vec::new(),
            }],
        },
        dimensions: NameMap::new(),
        properties: NameMap::new(),
        values: NameMap::new(),
    };
    assert_eq!(
        text_of(doc.to_json()),
        r#"{"_aws":{"Timestamp":7,"CloudWatchMetrics":[{"Namespace":"n","Dimensions":[[]],"Metrics":[]}]}}"#
    );
}

#[test]
fn names_and_values_are_escaped_as_serde_json_escapes_them() {
    let mut doc = EmbeddedMetrics {
        aws: EmbeddedMetricsAws {
            timestamp: 1,
            cloudwatch_metrics: [EmbeddedNamespace {
                namespace: "a\"b".to_string(),
                dimensions: [vec!["k\\".to_string()]],
                metrics: Vec::new(),
            }],
        },
        dimensions: NameMap::new(),
        properties: NameMap::new(),
        values: NameMap::new(),
    };
    doc.dimensions.insert("k\\", "line\nbreak".to_string());
    let text = text_of(doc.to_json());
    let parsed: serde_json::Value = serde_json::from_str(&text).unwrap();
    assert_eq!(parsed["_aws"]["CloudWatchMetrics"][0]["Namespace"], "a\"b");
    assert_eq!(parsed["k\\"], "line\nbreak");
    assert!(text.contains(r#""Namespace":"a\"b""#));
    assert!(text.contains(r#""k\\":"line\nbreak""#));
}
