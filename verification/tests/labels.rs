use metrics_cloudwatch_embedded::labels::{
    canonical_labels, compare_label_sets, duplicate_labels, Label,
};
use metrics_cloudwatch_embedded::name_map::NameMap;
use metrics_cloudwatch_embedded::order::{compare_bytes, compare_text, Sign};

fn labels(pairs: &[(&str, &str)]) -> Vec<Label> {
    pairs.iter().map(|(k, v)| Label::new(k, v)).collect()
}

fn pairs(labels: &Vec<Label>) -> Vec<(String, String)> {
    labels.iter().map(|l| (l.key.clone(), l.value.clone())).collect()
}

fn sign_of(ordering: std::cmp::Ordering) -> Sign {
    match ordering {
        std::cmp::Ordering::Less => Sign::Less,
        std::cmp::Ordering::Equal => Sign::Equal,
        std::cmp::Ordering::Greater => Sign::Greater,
    }
}

#[test]
fn text_is_compared_as_str_is() {
    let samples = ["", "a", "A", "ab", "b", "aa", "é", "z", "\u{10000}", "\u{ffff}", "a\u{0}"];
    for x in samples {
        for y in samples {
            assert_eq!(compare_text(x, y), sign_of(x.cmp(y)), "{:?} {:?}", x, y);
            assert_eq!(compare_bytes(x.as_bytes(), y.as_bytes()), sign_of(x.as_bytes().cmp(y.as_bytes())));
        }
    }
}

#[test]
fn labels_are_compared_by_key_then_by_value() {
    assert_eq!(Label::new("a", "2").compare(&Label::new("b", "1")), Sign::Less);
    assert_eq!(Label::new("a", "2").compare(&Label::new("a", "1")), Sign::Greater);
    assert_eq!(Label::new("a", "1").compare(&Label::new("a", "1")), Sign::Equal);
    assert_eq!(Label::new("b", "").compare(&Label::new("a", "z")), Sign::Greater);
}

#[test]
fn label_sets_are_compared_label_by_label() {
    let a = labels(&[("a", "1")]);
    let ab = labels(&[("a", "1"), ("b", "2")]);
    let b = labels(&[("b", "0")]);
    assert_eq!(compare_label_sets(&a, &ab), Sign::Less);
    assert_eq!(compare_label_sets(&ab, &a), Sign::Greater);
    assert_eq!(compare_label_sets(&ab, &b), Sign::Less);
    assert_eq!(compare_label_sets(&ab, &duplicate_labels(&ab)), Sign::Equal);
    assert_eq!(compare_label_sets(&labels(&[]), &a), Sign::Less);
    assert_eq!(compare_label_sets(&labels(&[]), &labels(&[])), Sign::Equal);
}

#[test]
fn canonical_form_is_sorted_and_keeps_every_label() {
    let given = labels(&[("module", "directory"), ("api", "a"), ("module", "a"), ("api", "a")]);
    let sorted = canonical_labels(&given);
    let mut expected = pairs(&given);
    expected.sort();
    assert_eq!(pairs(&sorted), expected);
    assert_eq!(pairs(&canonical_labels(&sorted)), expected);
    assert!(canonical_labels(&labels(&[])).is_empty());
}

#[test]
fn canonical_form_is_that_of_every_order() {
    let one = canonical_labels(&labels(&[("a", "1"), ("b", "2"), ("c", "3")]));
    let other = canonical_labels(&labels(&[("c", "3"), ("a", "1"), ("b", "2")]));
    assert_eq!(pairs(&one), pairs(&other));
    let different = canonical_labels(&labels(&[("c", "3"), ("a", "1"), ("b", "3")]));
    assert_ne!(pairs(&one), pairs(&different));
}

#[test]
fn name_map_keeps_its_names_in_order() {
    let mut map: NameMap<u64> = NameMap::new();
    for (name, value) in [("m", 1u64), ("a", 2), ("z", 3), ("m", 4), ("b", 5)] {
        map.insert(name, value);
    }
    assert_eq!(map.len(), 4);
    let names: Vec<&str> = (0..map.len()).map(|i| map.name_at(i)).collect();
    assert_eq!(names, vec!["a", "b", "m", "z"]);
    assert_eq!(*map.value_at(2), 4);
    assert_eq!(map.get("m"), Some(&4));
    assert_eq!(map.get("n"), None);
    map.remove("a");
    map.remove("missing");
    assert_eq!(map.len(), 3);
    assert_eq!(map.get("a"), None);
    map.push_back("zz", 9);
    assert_eq!(map.name_at(3), "zz");
    map.clear();
    assert_eq!(map.len(), 0);
}
