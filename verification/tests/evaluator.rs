use epilog_collector::attributes::AttributeMap;
use epilog_collector::collect::{build_record, record_id_for, CollectError};
use epilog_collector::record::Field;
use epilog_collector::rules::{
    condition_holds, construct_components, construct_score, ComponentRule, Condition, EvalError,
    ScoreRule, Settings,
};
use epilog_collector::time::TimestampError;

fn job(pairs: &[(&str, &str)]) -> AttributeMap {
    let mut attrs = AttributeMap::new();
    for (k, v) in pairs {
        attrs.insert(k.to_string(), v.to_string());
    }
    attrs
}

fn only_if(key: &str, matches: &str) -> Option<Condition> {
    Some(Condition::new(key.to_string(), matches.to_string()).unwrap())
}

fn score_rule(name: &str, factor: f64, cond: Option<Condition>) -> ScoreRule {
    ScoreRule { name: name.to_string(), factor_bits: factor.to_bits(), only_if: cond }
}

fn component_rule(
    name: &str,
    key: &str,
    cond: Option<Condition>,
    scores: Vec<ScoreRule>,
) -> ComponentRule {
    ComponentRule { name: name.to_string(), key: key.to_string(), only_if: cond, scores }
}

fn settings(components: Vec<ComponentRule>) -> Settings {
    Settings { record_prefix: "slurm".to_string(), site_id: "site1".to_string(), components }
}

fn finished_job() -> AttributeMap {
    job(&[
        ("UserId", "alice"),
        ("GroupId", "grp1"),
        ("StartTime", "2022-01-01T00:00:00"),
        ("EndTime", "2022-01-01T01:00:00"),
        ("NNodes", "2"),
    ])
}

#[test]
fn one_unconditional_component_gives_a_complete_record() {
    let config = settings(vec![component_rule("nodes", "NNodes", None, vec![])]);
    let record = build_record(&config, 4711, &finished_job()).unwrap();
    let components = record.components();
    assert_eq!(components.len(), 1);
    assert_eq!(components[0].name(), "nodes");
    assert_eq!(components[0].amount(), 2);
    assert!(components[0].scores().is_empty());
    assert_eq!(record.record_id(), "slurm-4711");
    assert_eq!(record.site_id(), "site1");
    assert_eq!(record.user_id(), "alice");
    assert_eq!(record.group_id(), "grp1");
    let start = record.start_time().seconds();
    let stop = record.stop_time().unwrap().seconds();
    assert_eq!(start, 1_640_995_200);
    assert_eq!(stop - start, 3600);
    assert_eq!(record.runtime(), Some(3600));
}

#[test]
fn score_condition_on_partition_decides_inclusion() {
    let rule = || score_rule("gpu_weight", 2.5, only_if("Partition", "^gpu.*"));
    let cpu = job(&[("Partition", "cpu-short")]);
    let gpu = job(&[("Partition", "gpu-a100")]);
    assert!(construct_score(&rule(), &cpu).unwrap().is_none());
    let score = construct_score(&rule(), &gpu).unwrap().unwrap();
    assert_eq!(score.name(), "gpu_weight");
    assert_eq!(f64::from_bits(score.factor_bits()), 2.5);
}

#[test]
fn score_condition_inside_a_component() {
    let config = || {
        settings(vec![component_rule(
            "cores",
            "NumCPUs",
            None,
            vec![
                score_rule("base", 1.0, None),
                score_rule("gpu_weight", 2.5, only_if("Partition", "^gpu.*")),
                score_rule("tail", 0.5, None),
            ],
        )])
    };
    let cpu = job(&[("Partition", "cpu-short"), ("NumCPUs", "8")]);
    let out = construct_components(&config(), &cpu).unwrap();
    assert_eq!(out.len(), 1);
    let names: Vec<&str> = out[0].scores().iter().map(|s| s.name()).collect();
    assert_eq!(names, vec!["base", "tail"]);
    let gpu = job(&[("Partition", "gpu-a100"), ("NumCPUs", "8")]);
    let out = construct_components(&config(), &gpu).unwrap();
    let names: Vec<&str> = out[0].scores().iter().map(|s| s.name()).collect();
    assert_eq!(names, vec!["base", "gpu_weight", "tail"]);
    assert_eq!(out[0].amount(), 8);
}

#[test]
fn unmatched_component_is_left_out_and_the_others_stay() {
    let with = settings(vec![
        component_rule("first", "A", None, vec![]),
        component_rule("middle", "B", only_if("Partition", "^gpu"), vec![]),
        component_rule("last", "C", None, vec![]),
    ]);
    let without = settings(vec![
        component_rule("first", "A", None, vec![]),
        component_rule("last", "C", None, vec![]),
    ]);
    let attrs = job(&[("A", "1"), ("B", "2"), ("C", "3"), ("Partition", "cpu")]);
    let a = construct_components(&with, &attrs).unwrap();
    let b = construct_components(&without, &attrs).unwrap();
    let flat = |v: &Vec<epilog_collector::domain::Component>| {
        v.iter().map(|c| (c.name().to_string(), c.amount())).collect::<Vec<_>>()
    };
    assert_eq!(flat(&a), vec![("first".to_string(), 1), ("last".to_string(), 3)]);
    assert_eq!(flat(&a), flat(&b));
}

#[test]
fn matched_component_is_included_in_configuration_order() {
    let config = settings(vec![
        component_rule("first", "A", None, vec![]),
        component_rule("middle", "B", only_if("Partition", "^gpu"), vec![]),
        component_rule("last", "C", None, vec![]),
    ]);
    let attrs = job(&[("A", "1"), ("B", "2"), ("C", "3"), ("Partition", "gpu-v100")]);
    let out = construct_components(&config, &attrs).unwrap();
    let names: Vec<&str> = out.iter().map(|c| c.name()).collect();
    assert_eq!(names, vec!["first", "middle", "last"]);
}

#[test]
fn unconditional_component_is_included_whatever_else_the_job_holds() {
    let config = settings(vec![component_rule("nodes", "NNodes", None, vec![])]);
    for extra in [("Partition", "x"), ("Anything", ""), ("NNodes2", "7")] {
        let attrs = job(&[("NNodes", "12"), extra]);
        let out = construct_components(&config, &attrs).unwrap();
        assert_eq!(out.len(), 1);
        assert_eq!(out[0].amount(), 12);
    }
}

#[test]
fn the_pattern_may_match_anywhere_in_the_value() {
    let unanchored = only_if("Partition", "a1");
    assert_eq!(condition_holds(&unanchored, &job(&[("Partition", "gpu-a100")])).unwrap(), true);
    assert_eq!(condition_holds(&unanchored, &job(&[("Partition", "gpu-v100")])).unwrap(), false);
    assert_eq!(condition_holds(&None, &job(&[])).unwrap(), true);
}

#[test]
fn malformed_pattern_is_refused_when_the_condition_is_made() {
    let e = Condition::new("Partition".to_string(), "gpu(".to_string()).unwrap_err();
    assert_eq!(e.source, "gpu(");
    assert!(Condition::new("Partition".to_string(), "^gpu.*".to_string()).is_ok());
}

#[test]
fn condition_on_a_missing_attribute_is_an_error() {
    let config = settings(vec![component_rule("c", "A", only_if("Partition", "x"), vec![])]);
    match construct_components(&config, &job(&[("A", "1")])) {
        Err(EvalError::MissingAttribute { key }) => assert_eq!(key, "Partition"),
        other => panic!("unexpected: {:?}", other),
    }
}

#[test]
fn missing_amount_attribute_is_an_error() {
    let config = settings(vec![component_rule("c", "A", None, vec![])]);
    match construct_components(&config, &job(&[("B", "1")])) {
        Err(EvalError::MissingAttribute { key }) => assert_eq!(key, "A"),
        other => panic!("unexpected: {:?}", other),
    }
}

#[test]
fn unparsable_amount_names_key_and_value() {
    let config = settings(vec![component_rule("c", "A", None, vec![])]);
    for bad in ["", "-1", "1.5", "12a", "+", "18446744073709551616"] {
        match construct_components(&config, &job(&[("A", bad)])) {
            Err(EvalError::UnparsableAmount { key, value }) => {
                assert_eq!(key, "A");
                assert_eq!(value, bad);
            },
            other => panic!("unexpected for {:?}: {:?}", bad, other),
        }
    }
}

#[test]
fn invalid_score_name_and_factor_are_errors() {
    let attrs = job(&[("A", "1")]);
    let config = settings(vec![component_rule("c", "A", None, vec![score_rule("a/b", 1.0, None)])]);
    match construct_components(&config, &attrs) {
        Err(EvalError::InvalidScoreName { raw }) => assert_eq!(raw, "a/b"),
        other => panic!("unexpected: {:?}", other),
    }
    for bad in [-1.0, f64::INFINITY, f64::NAN, f64::NEG_INFINITY] {
        let config =
            settings(vec![component_rule("c", "A", None, vec![score_rule("s", bad, None)])]);
        match construct_components(&config, &attrs) {
            Err(EvalError::InvalidFactor { name, factor_bits }) => {
                assert_eq!(name, "s");
                assert_eq!(factor_bits, bad.to_bits());
            },
            other => panic!("unexpected: {:?}", other),
        }
    }
}

#[test]
fn component_name_is_sanitized_and_must_then_be_valid() {
    let attrs = job(&[("A", "1")]);
    let config = settings(vec![component_rule("no(d)es/", "A", None, vec![])]);
    let out = construct_components(&config, &attrs).unwrap();
    assert_eq!(out[0].name(), "nodes");
    let config = settings(vec![component_rule("(/)", "A", None, vec![])]);
    match construct_components(&config, &attrs) {
        Err(EvalError::InvalidComponentName { raw }) => assert_eq!(raw, "(/)"),
        other => panic!("unexpected: {:?}", other),
    }
}

#[test]
fn first_failing_rule_gives_the_error() {
    let config = settings(vec![
        component_rule("a", "A", None, vec![]),
        component_rule("b", "Missing1", None, vec![]),
        component_rule("c", "Missing2", None, vec![]),
    ]);
    match construct_components(&config, &job(&[("A", "1")])) {
        Err(EvalError::MissingAttribute { key }) => assert_eq!(key, "Missing1"),
        other => panic!("unexpected: {:?}", other),
    }
}

#[test]
fn record_id_joins_prefix_and_job_number() {
    assert_eq!(record_id_for("slurm", 0), "slurm-0");
    assert_eq!(record_id_for("sl/ur{m}", 1234567890), "slurm-1234567890");
    assert_eq!(record_id_for("", u64::MAX), "-18446744073709551615");
}

#[test]
fn build_record_reports_missing_attributes_in_order() {
    let config = settings(vec![]);
    let expect_missing = |attrs: &AttributeMap, wanted: &str| match build_record(&config, 1, attrs)
    {
        Err(CollectError::MissingAttribute { key }) => assert_eq!(key, wanted),
        other => panic!("unexpected: {:?}", other),
    };
    expect_missing(&job(&[]), "UserId");
    expect_missing(&job(&[("UserId", "u")]), "GroupId");
    expect_missing(&job(&[("UserId", "u"), ("GroupId", "g")]), "StartTime");
    expect_missing(
        &job(&[("UserId", "u"), ("GroupId", "g"), ("StartTime", "2022-01-01T00:00:00")]),
        "EndTime",
    );
}

#[test]
fn build_record_reports_rule_timestamp_and_name_errors() {
    let base = [
        ("UserId", "alice"),
        ("GroupId", "grp1"),
        ("StartTime", "2022-01-01T00:00:00"),
        ("EndTime", "2022-01-01T01:00:00"),
    ];
    let config = settings(vec![component_rule("nodes", "NNodes", None, vec![])]);
    match build_record(&config, 1, &job(&base)) {
        Err(CollectError::Rule(EvalError::MissingAttribute { key })) => assert_eq!(key, "NNodes"),
        other => panic!("unexpected: {:?}", other),
    }
    let config = settings(vec![]);
    let mut attrs = job(&base);
    attrs.insert("StartTime".to_string(), "yesterday".to_string());
    match build_record(&config, 1, &attrs) {
        Err(CollectError::Timestamp { key, error: TimestampError::Unparsable { text, .. } }) => {
            assert_eq!(key, "StartTime");
            assert_eq!(text, "yesterday");
        },
        other => panic!("unexpected: {:?}", other),
    }
    let mut attrs = job(&base);
    attrs.insert("UserId".to_string(), "<>".to_string());
    match build_record(&config, 1, &attrs) {
        Err(CollectError::InvalidField(e)) => {
            assert_eq!(e.field, Field::UserId);
            assert_eq!(e.raw, "<>");
        },
        other => panic!("unexpected: {:?}", other),
    }
}
