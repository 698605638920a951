use prometheus_exporter::{
    ExpiringMetric, Metric, MetricEntry, MetricKind, MetricValue, StringSet, Tags,
};
use std::collections::hash_map::DefaultHasher;
use std::hash::{Hash, Hasher};

fn set(values: &[&str]) -> MetricValue {
    let values = values.iter().map(|value| value.to_string()).collect();
    MetricValue::StringSet {
        values: StringSet::from_values(values),
    }
}

fn numbers(shape: u64, data: &[f64]) -> MetricValue {
    MetricValue::Numeric {
        shape: vec![shape],
        data: data.iter().map(|number| number.to_bits()).collect(),
    }
}

fn tags(pairs: &[(&str, &str)]) -> Tags {
    let pairs = pairs.iter();
    Tags::from_pairs(
        pairs
            .map(|(name, value)| (name.to_string(), value.to_string()))
            .collect(),
    )
}

fn metric(name: &str, value: MetricValue) -> Metric {
    Metric {
        name: name.to_owned(),
        namespace: Some("ns".to_owned()),
        timestamp: Some(17),
        tags: Some(tags(&[("some_tag", "some_value")])),
        kind: MetricKind::Incremental,
        value,
    }
}

fn hash(entry: &ExpiringMetric) -> u64 {
    let mut hasher = DefaultHasher::new();
    entry.hash(&mut hasher);
    hasher.finish()
}

#[test]
fn string_set_holds_no_string_twice() {
    let mut values = StringSet::from_values(vec!["a".to_owned(), "b".to_owned(), "a".to_owned()]);
    assert_eq!(values.len(), 2);
    assert!(!values.insert("b".to_owned()));
    assert!(values.insert("c".to_owned()));
    assert_eq!(values.len(), 3);
    assert!(values.contains(&"c".to_owned()));
    assert!(!values.contains(&"d".to_owned()));

    let mut more = StringSet::new();
    assert_eq!(more.len(), 0);
    more.insert("d".to_owned());
    more.insert("a".to_owned());
    values.extend(&more);
    assert_eq!(values.len(), 4);
    assert!(values.contains(&"d".to_owned()));
    assert_eq!(values.clone().len(), 4);
    let mut strings = values.values().clone();
    strings.sort();
    assert_eq!(strings, vec!["a", "b", "c", "d"]);
}

#[test]
fn to_absolute_changes_the_kind_alone() {
    let metric = metric("m", set(&["a", "b"]));
    let absolute = metric.to_absolute();
    assert_eq!(absolute.kind, MetricKind::Absolute);
    assert_eq!(absolute.name, "m");
    assert_eq!(absolute.namespace, Some("ns".to_owned()));
    assert_eq!(absolute.timestamp, Some(17));
    assert_eq!(
        absolute.tags.as_ref().unwrap().pairs(),
        &vec![("some_tag".to_owned(), "some_value".to_owned())]
    );
    assert!(absolute.value.is_set());
    match absolute.value {
        MetricValue::StringSet { values } => assert_eq!(values.len(), 2),
        _ => unreachable!(),
    }
    assert!(!numbers(1, &[1.0]).is_set());
}

#[test]
fn add_and_reset() {
    let mut kept = metric("m", set(&["a", "b"]));
    kept.add(&metric("m", set(&["b", "c"])), vec![]);
    match &kept.value {
        MetricValue::StringSet { values } => assert_eq!(values.len(), 3),
        _ => unreachable!(),
    }
    kept.reset();
    match &kept.value {
        MetricValue::StringSet { values } => assert_eq!(values.len(), 0),
        _ => unreachable!(),
    }

    let mut kept = metric("m", numbers(1, &[1.5]));
    kept.add(&metric("m", numbers(1, &[2.0])), vec![3.5f64.to_bits()]);
    match &kept.value {
        MetricValue::Numeric { data, .. } => assert_eq!(data, &vec![3.5f64.to_bits()]),
        _ => unreachable!(),
    }
    kept.add(&metric("m", numbers(2, &[2.0])), vec![9]);
    kept.add(&metric("m", set(&["a"])), vec![9]);
    match &kept.value {
        MetricValue::Numeric { data, .. } => assert_eq!(data, &vec![3.5f64.to_bits()]),
        _ => unreachable!(),
    }
}

#[test]
fn expiry_is_strict_and_lasts() {
    let entry = ExpiringMetric::new(metric("m", set(&[])), 100);
    assert!(!entry.is_expired(0));
    assert!(!entry.is_expired(99));
    assert!(!entry.is_expired(100));
    assert!(entry.is_expired(101));
    assert!(entry.is_expired(1_000));
}

#[test]
fn get_mut_changes_the_metric() {
    let mut entry = ExpiringMetric::new(metric("m", set(&["a"])), 100);
    assert_eq!(entry.get_ref().name, "m");
    entry.get_mut().reset();
    match &entry.get_ref().value {
        MetricValue::StringSet { values } => assert_eq!(values.len(), 0),
        _ => unreachable!(),
    }
    assert_eq!(entry.next_flush, 100);

    let mut inner = MetricEntry::new(metric("n", set(&["a"])));
    inner.get_mut().name = "o".to_owned();
    assert_eq!(inner.get_ref().name, "o");
}

#[test]
fn equality_goes_by_series() {
    let one = ExpiringMetric::new(metric("m", set(&["a"])), 1);
    let other = ExpiringMetric::new(metric("m", set(&["b", "c"])), 2);
    assert!(one == one);
    assert!(one == other);
    assert!(other == one);
    assert_eq!(hash(&one), hash(&other));

    assert!(one != ExpiringMetric::new(metric("n", set(&["a"])), 1));
    assert!(one != ExpiringMetric::new(metric("m", numbers(1, &[1.0])), 1));
    assert!(one != ExpiringMetric::new(metric("m", set(&["a"])).to_absolute(), 1));
    let mut third = metric("m", set(&["a"]));
    third.namespace = None;
    assert!(one != ExpiringMetric::new(third, 1));
    let mut third = metric("m", set(&["a"]));
    third.tags = None;
    assert!(one != ExpiringMetric::new(third, 1));
    let mut third = metric("m", set(&["a"]));
    third.tags = Some(tags(&[("some_tag", "other_value")]));
    assert!(one != ExpiringMetric::new(third, 1));
    let mut third = metric("m", set(&["a"]));
    third.timestamp = None;
    let third = ExpiringMetric::new(third, 1);
    assert!(one == third);
    assert_eq!(hash(&one), hash(&third));

    let one = ExpiringMetric::new(metric("m", numbers(1, &[1.0])), 1);
    assert!(one == ExpiringMetric::new(metric("m", numbers(1, &[2.0])), 1));
    assert!(one != ExpiringMetric::new(metric("m", numbers(2, &[1.0])), 1));
}

#[test]
fn tags_are_listed_in_ascending_order() {
    let tags = tags(&[
        ("b", "1"),
        ("a", "2"),
        ("ab", "3"),
        ("\u{e9}", "4"),
        ("", "5"),
        ("B", "6"),
        ("b", "7"),
    ]);
    let names: Vec<&str> = tags.pairs().iter().map(|pair| pair.0.as_str()).collect();
    let values: Vec<&str> = tags.pairs().iter().map(|pair| pair.1.as_str()).collect();
    assert_eq!(names, vec!["", "B", "a", "ab", "b", "\u{e9}"]);
    // of two values for one name the later counts
    assert_eq!(values, vec!["5", "6", "2", "3", "7", "4"]);

    let mut sorted = names.clone();
    sorted.sort();
    assert_eq!(names, sorted);

    let mut copy = tags.clone();
    assert_eq!(copy.pairs(), tags.pairs());
    copy.insert("aa".to_owned(), "8".to_owned());
    copy.insert("B".to_owned(), "9".to_owned());
    let names: Vec<&str> = copy.pairs().iter().map(|pair| pair.0.as_str()).collect();
    assert_eq!(names, vec!["", "B", "a", "aa", "ab", "b", "\u{e9}"]);
    assert_eq!(copy.pairs()[1].1, "9");
    assert!(Tags::new().pairs().is_empty());
}

#[test]
fn order_of_tags_makes_no_other_series() {
    let mut one = metric("m", set(&["a"]));
    one.tags = Some(tags(&[("x", "1"), ("y", "2")]));
    let mut other = metric("m", set(&["b"]));
    other.tags = Some(tags(&[("y", "2"), ("x", "1")]));
    let one = ExpiringMetric::new(one, 1);
    let other = ExpiringMetric::new(other, 2);
    assert!(one == other);
    assert_eq!(hash(&one), hash(&other));
    assert_eq!(one.inner.hash_parts(), other.inner.hash_parts());
}

#[test]
fn hash_is_made_of_name_namespace_and_tags() {
    let mut metric = metric("m", set(&["a"]));
    metric.tags = Some(tags(&[("y", "2"), ("x", "1")]));
    let entry = MetricEntry::new(metric);
    assert_eq!(entry.hash_parts(), vec!["m", "ns", "x", "1", "y", "2"]);

    let mut hasher = DefaultHasher::new();
    for part in entry.hash_parts() {
        part.hash(&mut hasher);
    }
    assert_eq!(hash(&ExpiringMetric::new(entry.metric, 9)), hasher.finish());
}
