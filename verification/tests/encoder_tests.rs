use std::collections::HashMap;

use metrics_json::flatten::flatten_metric_with_labels;
use metrics_json::json_encoder::JsonEncoder;
use metrics_json::model::{Entry, LabelPair, Metric, MetricFamily, MetricType, Value};

fn metric_with_labels(labels: &[(&str, &str)]) -> Metric {
    Metric {
        labels: labels
            .iter()
            .map(|(n, v)| LabelPair { name: n.to_string(), value: v.to_string() })
            .collect(),
        value_bits: 0,
        sample_count: 0,
        sample_sum_bits: 0,
    }
}

fn counter(name: &str, labels: &[(&str, &str)], value: f64) -> MetricFamily {
    let mut m = metric_with_labels(labels);
    m.value_bits = value.to_bits();
    MetricFamily { name: name.to_string(), kind: MetricType::Counter, metrics: vec![m] }
}

fn gauge(name: &str, labels: &[(&str, &str)], value: f64) -> MetricFamily {
    let mut m = metric_with_labels(labels);
    m.value_bits = value.to_bits();
    MetricFamily { name: name.to_string(), kind: MetricType::Gauge, metrics: vec![m] }
}

fn histogram(name: &str, labels: &[(&str, &str)], count: u64, sum: f64) -> MetricFamily {
    let mut m = metric_with_labels(labels);
    m.sample_count = count;
    m.sample_sum_bits = sum.to_bits();
    MetricFamily { name: name.to_string(), kind: MetricType::Histogram, metrics: vec![m] }
}

fn number_tokens(entries: &[Entry]) -> Vec<(String, String)> {
    entries
        .iter()
        .map(|e| {
            let v = match e.value {
                Value::Scalar(bits) => f64::from_bits(bits),
                Value::Count(count) => count as f64,
            };
            (e.key.clone(), serde_json::to_string(&v).unwrap())
        })
        .collect()
}

fn encode_to_json(families: &Vec<MetricFamily>) -> String {
    let encoder = JsonEncoder;
    let entries = encoder.flatten_families(families);
    let fields = number_tokens(&entries);
    encoder.render_object(&fields)
}

fn parse(json: &str) -> HashMap<String, f64> {
    serde_json::from_str(json).unwrap()
}

#[test]
fn counter_without_labels_keeps_base_name() {
    let out = encode_to_json(&vec![counter("requests", &[], 8.0)]);
    assert_eq!(out, "{\"requests\":8.0}");
    let parsed = parse(&out);
    assert_eq!(parsed.len(), 1);
    assert_eq!(parsed["requests"], 8.0);
}

#[test]
fn flatten_joins_label_values_in_order() {
    let m = metric_with_labels(&[("method", "GET"), ("service", "accounts")]);
    let key = flatten_metric_with_labels("requests", &m);
    assert_eq!(key, "requests.GET.accounts");
}

#[test]
fn flatten_skips_empty_label_values() {
    let m = metric_with_labels(&[("method", "GET"), ("service", "")]);
    let key = flatten_metric_with_labels("requests", &m);
    assert_eq!(key, "requests.GET");
}

#[test]
fn flatten_with_all_values_empty_keeps_base_name() {
    let m = metric_with_labels(&[("a", ""), ("b", "")]);
    let key = flatten_metric_with_labels("requests", &m);
    assert_eq!(key, "requests");
}

#[test]
fn flatten_without_labels_keeps_base_name() {
    let m = metric_with_labels(&[]);
    let key = flatten_metric_with_labels("requests", &m);
    assert_eq!(key, "requests");
}

#[test]
fn histogram_emits_count_and_sum_only() {
    let out = encode_to_json(&vec![histogram("latency", &[], 5, 12.5)]);
    let parsed = parse(&out);
    assert_eq!(parsed.len(), 2);
    assert_eq!(parsed["latency_count"], 5.0);
    assert_eq!(parsed["latency_sum"], 12.5);
}

#[test]
fn histogram_labels_follow_the_suffixed_name() {
    let out = encode_to_json(&vec![histogram("latency", &[("method", "GET")], 2, 0.25)]);
    let parsed = parse(&out);
    assert_eq!(parsed.len(), 2);
    assert_eq!(parsed["latency_count.GET"], 2.0);
    assert_eq!(parsed["latency_sum.GET"], 0.25);
}

#[test]
fn unsupported_kind_contributes_nothing() {
    let mut m = metric_with_labels(&[]);
    m.value_bits = (3.0f64).to_bits();
    let family = MetricFamily {
        name: "summaryish".to_string(),
        kind: MetricType::Other,
        metrics: vec![m],
    };
    let out = encode_to_json(&vec![family]);
    assert_eq!(out, "{}");
}

#[test]
fn later_family_wins_on_key_collision() {
    let out = encode_to_json(&vec![counter("requests", &[], 1.0), counter("requests", &[], 2.0)]);
    let parsed = parse(&out);
    assert_eq!(parsed.len(), 1);
    assert_eq!(parsed["requests"], 2.0);
}

#[test]
fn later_sample_wins_within_a_family() {
    let mut first = metric_with_labels(&[("method", "GET")]);
    first.value_bits = (1.0f64).to_bits();
    let mut second = metric_with_labels(&[("method", "GET")]);
    second.value_bits = (7.0f64).to_bits();
    let family = MetricFamily {
        name: "requests".to_string(),
        kind: MetricType::Counter,
        metrics: vec![first, second],
    };
    let parsed = parse(&encode_to_json(&vec![family]));
    assert_eq!(parsed.len(), 1);
    assert_eq!(parsed["requests.GET"], 7.0);
}

#[test]
fn empty_input_renders_empty_object() {
    assert_eq!(encode_to_json(&vec![]), "{}");
}

#[test]
fn output_parses_back_to_the_built_map() {
    let families = vec![
        counter("requests", &[("method", "GET"), ("service", "accounts")], 8.0),
        gauge("queue_depth", &[], -2.5),
        histogram("latency", &[], 5, 12.5),
    ];
    let out = encode_to_json(&families);
    let parsed = parse(&out);

    let mut expected = HashMap::new();
    expected.insert("requests.GET.accounts".to_string(), 8.0);
    expected.insert("queue_depth".to_string(), -2.5);
    expected.insert("latency_count".to_string(), 5.0);
    expected.insert("latency_sum".to_string(), 12.5);
    assert_eq!(parsed, expected);

    let again: HashMap<String, f64> =
        serde_json::from_str(&serde_json::to_string(&parsed).unwrap()).unwrap();
    assert_eq!(again, expected);
}

#[test]
fn gauge_values_pass_through() {
    let parsed = parse(&encode_to_json(&vec![gauge("temperature", &[], -40.25)]));
    assert_eq!(parsed.len(), 1);
    assert_eq!(parsed["temperature"], -40.25);
}

#[test]
fn keys_are_escaped_when_rendered() {
    let encoder = JsonEncoder;
    let fields = vec![("a\"b".to_string(), "1.0".to_string())];
    assert_eq!(encoder.render_object(&fields), "{\"a\\\"b\":1.0}");
}

#[test]
fn format_type_is_json() {
    let encoder = JsonEncoder;
    assert_eq!(encoder.format_type(), "application/json");
}
