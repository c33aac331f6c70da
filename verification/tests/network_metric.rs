use relay_rank::network_metric::{
    build_inference, count_observation, extract_asn_path, fold_observations, split_observations,
    ASes, Inference, Mapping,
};
use relay_rank::text::str_to_chars;
use relay_rank::tor_status::{ParseError, RelayId};

fn names(a: &ASes) -> Vec<String> {
    let mut v = a.names().clone();
    v.sort();
    v
}

#[test]
fn asn_paths() {
    assert!(extract_asn_path(&str_to_chars("None")).is_none());
    let a = extract_asn_path(&str_to_chars("3320-1299-3320-64512")).unwrap();
    assert_eq!(names(&a), vec!["1299", "3320", "64512"]);
    let b = extract_asn_path(&str_to_chars("")).unwrap();
    assert_eq!(names(&b), vec![""]);
}

#[test]
fn observation_lines() {
    let line = str_to_chars("x 3 1-2 2-3 None 7-8");
    let (g, e) = split_observations(&line, 5, 3).unwrap();
    let (idx, c2g, g2c) = g.unwrap();
    assert_eq!(idx, 3);
    assert_eq!(names(&c2g.unwrap()), vec!["1", "2"]);
    assert_eq!(names(&g2c.unwrap()), vec!["2", "3"]);
    assert!(e.is_none());
    let (g, e) = split_observations(&line, 3, 4).unwrap();
    assert!(g.is_none());
    let (_, e2d, d2e) = e.unwrap();
    assert!(e2d.is_none());
    assert_eq!(names(&d2e.unwrap()), vec!["7", "8"]);
    assert_eq!(
        split_observations(&str_to_chars("x 3 1 2 3"), 5, 5).err(),
        Some(ParseError::MissingField)
    );
    assert_eq!(
        split_observations(&str_to_chars("x y 1 2 3 4"), 5, 5).err(),
        Some(ParseError::InvalidNumber)
    );
}

fn mapping() -> Mapping {
    Mapping {
        client_guard: vec![RelayId::new([1; 20]), RelayId::new([2; 20]), RelayId::new([1; 20])],
        exit_destination: vec![RelayId::new([3; 20])],
    }
}

#[test]
fn inference_groups_observations_by_relay() {
    let text = "header line\nx 0 1-2 2 4 5\nx 1 9 None None None\nx 2 1 3 None None\n";
    let inference = build_inference(&str_to_chars(text), &mapping()).unwrap();
    let (guards, exits) = inference.into_parts();
    assert_eq!(guards.len(), 2);
    assert_eq!(guards[0].0, RelayId::new([1; 20]));
    assert_eq!(guards[0].1.len(), 2);
    assert_eq!(names(&guards[0].1[0]), vec!["1", "2"]);
    assert_eq!(names(&guards[0].1[1]), vec!["1", "3"]);
    assert_eq!(guards[1].0, RelayId::new([2; 20]));
    assert_eq!(names(&guards[1].1[0]), vec!["9"]);
    assert_eq!(exits.len(), 1);
    assert_eq!(exits[0].0, RelayId::new([3; 20]));
    assert_eq!(names(&exits[0].1[0]), vec!["4", "5"]);
}

#[test]
fn inference_stops_at_first_bad_line() {
    let text = "header\nx 0 1 2 3 4\nbad\n";
    assert_eq!(build_inference(&str_to_chars(text), &mapping()).err(), Some(ParseError::MissingField));
    let only_header = build_inference(&str_to_chars("header\n"), &mapping()).unwrap();
    let (g, e) = only_header.into_parts();
    assert!(g.is_empty() && e.is_empty());
}

#[test]
fn folding_one_observation() {
    let mut inference = Inference::new();
    let line = str_to_chars("x 0 1-2 2 4 5");
    let obs = split_observations(&line, 3, 1).unwrap();
    fold_observations(&mut inference, obs, &mapping());
    assert_eq!(inference.guards().len(), 1);
    assert_eq!(inference.exits().len(), 1);
}

#[test]
fn counting_observations() {
    let text = "header\nx 0 1-2 2 None None\nx 2 1 3-1 None None\nx 0 4 None None None\n";
    let inference = build_inference(&str_to_chars(text), &mapping()).unwrap();
    let (guards, _) = inference.into_parts();
    let (_, observations) = guards.into_iter().next().unwrap();
    let n = observations.len();
    let count = count_observation(observations);
    let mut entries = count.entries().clone();
    entries.sort();
    assert_eq!(
        entries,
        vec![("1".to_string(), 2), ("2".to_string(), 1), ("3".to_string(), 1), ("4".to_string(), 1)]
    );
    assert!(entries.iter().all(|(_, c)| (*c as usize) <= n));
}

#[test]
fn ases_union() {
    let a = extract_asn_path(&str_to_chars("1-2")).unwrap();
    let b = extract_asn_path(&str_to_chars("2-3")).unwrap();
    assert_eq!(names(&a.union(&b)), vec!["1", "2", "3"]);
    let mut c = ASes::new();
    c.insert("7".to_string());
    c.insert("7".to_string());
    assert_eq!(names(&c), vec!["7"]);
    assert!(c.contains(&"7".to_string()));
}
