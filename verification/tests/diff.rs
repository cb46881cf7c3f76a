use tfstatediff::diff::outputs::render_output;
use tfstatediff::diff::{
    compare, diff_attributes, diff_outputs, diff_resources, AttrChange, OutputDiff, ResourceChangeKind,
    ResourceDiff, REDACTED,
};
use tfstatediff::map::SortedMap;
use tfstatediff::state::{InstanceState, OutputValue, ResourceState, TfState};
use tfstatediff::value::{Json, Num};

fn text(s: &str) -> Json {
    Json::String(s.to_string())
}

fn number(n: u64) -> Json {
    Json::Num(Num::PosInt(n))
}

fn object(members: Vec<(&str, Json)>) -> Json {
    let mut map = SortedMap::new();
    for (key, value) in members {
        map.insert(key.to_string(), value);
    }
    Json::Object(map)
}

fn outputs(members: Vec<(&str, Json, bool)>) -> SortedMap<OutputValue> {
    let mut map = SortedMap::new();
    for (name, value, sensitive) in members {
        map.insert(name.to_string(), OutputValue { value, sensitive });
    }
    map
}

fn make_resource(ty: &str, name: &str, attrs: Json) -> ResourceState {
    ResourceState {
        module: String::new(),
        mode: "managed".to_string(),
        resource_type: ty.to_string(),
        name: name.to_string(),
        instances: vec![InstanceState {
            index_key: None,
            attributes: attrs,
            sensitive_attributes: vec![],
        }],
    }
}

fn addresses(diffs: &[ResourceDiff]) -> Vec<&str> {
    diffs.iter().map(|d| d.address.as_str()).collect()
}

fn names(diffs: &[OutputDiff]) -> Vec<&str> {
    diffs.iter().map(|d| d.name.as_str()).collect()
}

#[test]
fn diff_attributes_reports_only_changed_leaves() {
    let old = object(vec![
        ("instance_type", text("t2.micro")),
        ("tags", object(vec![("Name", text("web"))])),
    ]);
    let new = object(vec![
        ("instance_type", text("t2.large")),
        ("tags", object(vec![("Name", text("web"))])),
    ]);
    let changes = diff_attributes(&old, &new);
    assert_eq!(changes.len(), 1);
    assert_eq!(changes[0].path, "instance_type");
    assert_eq!(changes[0].old.as_deref(), Some("t2.micro"));
    assert_eq!(changes[0].new.as_deref(), Some("t2.large"));
}

#[test]
fn diff_attributes_redacts_sensitive_paths_on_both_sides() {
    let old = object(vec![("password", text("hunter2"))]);
    let new = object(vec![("password", text("correct-horse-battery-staple"))]);
    let changes = diff_attributes(&old, &new);
    assert_eq!(changes[0].old.as_deref(), Some(REDACTED));
    assert_eq!(changes[0].new.as_deref(), Some(REDACTED));
}

#[test]
fn diff_attributes_reports_added_and_removed_leaves() {
    let old = object(vec![("a", text("1"))]);
    let new = object(vec![("b", text("2"))]);
    let changes = diff_attributes(&old, &new);
    assert_eq!(changes.len(), 2);
    let added = changes.iter().find(|c| c.path == "b").unwrap();
    assert_eq!(added.old, None);
    assert_eq!(added.new.as_deref(), Some("2"));
    let removed = changes.iter().find(|c| c.path == "a").unwrap();
    assert_eq!(removed.new, None);
}

#[test]
fn diff_resources_detects_created_resource() {
    let old = vec![];
    let new = vec![make_resource("aws_instance", "web", object(vec![]))];
    let diffs = diff_resources(&old, &new);
    assert_eq!(diffs.len(), 1);
    assert_eq!(diffs[0].kind, ResourceChangeKind::Created);
    assert_eq!(diffs[0].address, "aws_instance.web");
}

#[test]
fn diff_resources_detects_destroyed_resource() {
    let old = vec![make_resource("aws_instance", "web", object(vec![]))];
    let new = vec![];
    let diffs = diff_resources(&old, &new);
    assert_eq!(diffs[0].kind, ResourceChangeKind::Destroyed);
}

#[test]
fn diff_resources_detects_attribute_drift() {
    let old = vec![make_resource(
        "aws_instance",
        "web",
        object(vec![("instance_type", text("t2.micro"))]),
    )];
    let new = vec![make_resource(
        "aws_instance",
        "web",
        object(vec![("instance_type", text("t2.large"))]),
    )];
    let diffs = diff_resources(&old, &new);
    assert_eq!(diffs.len(), 1);
    assert_eq!(diffs[0].kind, ResourceChangeKind::Changed);
    assert_eq!(diffs[0].attr_changes.len(), 1);
}

#[test]
fn diff_resources_omits_identical_resources() {
    let old = vec![make_resource(
        "aws_instance",
        "web",
        object(vec![("instance_type", text("t2.micro"))]),
    )];
    let new = vec![make_resource(
        "aws_instance",
        "web",
        object(vec![("instance_type", text("t2.micro"))]),
    )];
    assert!(diff_resources(&old, &new).is_empty());
}

#[test]
fn diff_outputs_redacts_sensitive_flag_regardless_of_key_name() {
    let mut old = SortedMap::new();
    old.insert(
        "db_endpoint_url".to_string(),
        OutputValue {
            value: text("old-host:5432"),
            sensitive: true,
        },
    );
    let mut new = SortedMap::new();
    new.insert(
        "db_endpoint_url".to_string(),
        OutputValue {
            value: text("new-host:5432"),
            sensitive: true,
        },
    );
    let diffs = diff_outputs(&old, &new);
    assert_eq!(diffs.len(), 1);
    assert_eq!(diffs[0].old.as_deref(), Some(REDACTED));
    assert_eq!(diffs[0].new.as_deref(), Some(REDACTED));
}

#[test]
fn compare_flags_lineage_mismatch() {
    let old = TfState {
        terraform_version: String::new(),
        serial: 1,
        lineage: "aaa".to_string(),
        outputs: SortedMap::new(),
        resources: vec![],
    };
    let new = TfState {
        lineage: "bbb".to_string(),
        ..old_state_like(&old)
    };
    let comparison = compare(&old, &new);
    assert!(!comparison.lineage_matches);
}

fn old_state_like(s: &TfState) -> TfState {
    TfState {
        terraform_version: s.terraform_version.clone(),
        serial: s.serial,
        lineage: s.lineage.clone(),
        outputs: SortedMap::new(),
        resources: vec![],
    }
}

#[test]
fn an_unknown_lineage_matches_any_other() {
    for (a, b, matches) in [
        ("aaa", "aaa", true),
        ("", "bbb", true),
        ("aaa", "", true),
        ("", "", true),
        ("aaa", "aab", false),
    ] {
        let old = TfState {
            terraform_version: "1.5".to_string(),
            serial: 3,
            lineage: a.to_string(),
            outputs: SortedMap::new(),
            resources: vec![],
        };
        let new = TfState {
            terraform_version: "1.6".to_string(),
            serial: 9,
            lineage: b.to_string(),
            outputs: SortedMap::new(),
            resources: vec![],
        };
        let comparison = compare(&old, &new);
        assert_eq!(comparison.lineage_matches, matches);
        assert_eq!(comparison.old_lineage, a);
        assert_eq!(comparison.new_lineage, b);
        assert_eq!(comparison.old_serial, 3);
        assert_eq!(comparison.new_serial, 9);
        assert!(comparison.resource_diffs.is_empty());
        assert!(comparison.output_diffs.is_empty());
    }
}

#[test]
fn attribute_changes_come_in_order_and_swap_with_the_sides() {
    let old = object(vec![("b", number(1)), ("a", text("x")), ("gone", Json::Null), ("same", number(4))]);
    let new = object(vec![("b", number(2)), ("a", text("y")), ("came", Json::Bool(true)), ("same", number(4))]);
    let there = diff_attributes(&old, &new);
    let expected = vec![
        AttrChange { path: "a".to_string(), old: Some("x".to_string()), new: Some("y".to_string()) },
        AttrChange { path: "b".to_string(), old: Some("1".to_string()), new: Some("2".to_string()) },
        AttrChange { path: "came".to_string(), old: None, new: Some("true".to_string()) },
        AttrChange { path: "gone".to_string(), old: Some("null".to_string()), new: None },
    ];
    assert_eq!(there, expected);
    let back = diff_attributes(&new, &old);
    assert_eq!(back.len(), there.len());
    for i in 0..back.len() {
        assert_eq!(back[i].path, there[i].path);
        assert_eq!(back[i].old, there[i].new);
        assert_eq!(back[i].new, there[i].old);
    }
}

#[test]
fn leaves_are_compared_by_their_texts() {
    let old = object(vec![("n", number(1)), ("e", object(vec![]))]);
    let new = object(vec![("n", text("1")), ("e", Json::Array(vec![]))]);
    assert!(diff_attributes(&old, &new).is_empty());
}

#[test]
fn secrets_that_appear_or_go_show_the_marker_on_one_side() {
    let old = object(vec![("tokens", Json::Array(vec![text("t0")]))]);
    let new = object(vec![("tokens", Json::Array(vec![text("t0"), text("t1")]))]);
    let changes = diff_attributes(&old, &new);
    assert_eq!(changes.len(), 1);
    assert_eq!(changes[0].path, "tokens[1]");
    assert_eq!(changes[0].old, None);
    assert_eq!(changes[0].new.as_deref(), Some(REDACTED));
}

#[test]
fn differences_do_not_depend_on_the_secrets() {
    let first = diff_attributes(
        &object(vec![("secret", text("a")), ("x", number(1))]),
        &object(vec![("secret", text("b")), ("x", number(2))]),
    );
    let second = diff_attributes(
        &object(vec![("secret", text("c")), ("x", number(1))]),
        &object(vec![("secret", text("d")), ("x", number(2))]),
    );
    assert_eq!(first, second);
}

#[test]
fn instances_are_matched_by_address() {
    fn workers(count: u64, key_first: bool) -> Vec<ResourceState> {
        let mut r = make_resource("aws_instance", "worker", object(vec![]));
        r.instances = Vec::new();
        for i in 0..count {
            let k = if key_first { i } else { count - 1 - i };
            r.instances.push(InstanceState {
                index_key: Some(number(k)),
                attributes: object(vec![("id", number(k))]),
                sensitive_attributes: vec![],
            });
        }
        vec![r]
    }
    let diffs = diff_resources(&workers(2, true), &workers(1, true));
    assert_eq!(addresses(&diffs), vec!["aws_instance.worker[1]"]);
    assert_eq!(diffs[0].kind, ResourceChangeKind::Destroyed);
    assert!(diffs[0].attr_changes.is_empty());
    assert!(diff_resources(&workers(3, true), &workers(3, false)).is_empty());
}

#[test]
fn of_two_instances_at_one_address_the_last_counts() {
    let old = vec![make_resource("t", "n", object(vec![("x", number(2))]))];
    let new = vec![
        make_resource("t", "n", object(vec![("x", number(1))])),
        make_resource("t", "n", object(vec![("x", number(2))])),
    ];
    assert!(diff_resources(&old, &new).is_empty());
    let diffs = diff_resources(&new[..1], &new);
    assert_eq!(diffs.len(), 1);
    assert_eq!(diffs[0].attr_changes[0].old.as_deref(), Some("1"));
    assert_eq!(diffs[0].attr_changes[0].new.as_deref(), Some("2"));
}

#[test]
fn resource_differences_come_in_order_and_swap_with_the_sides() {
    let old = vec![
        make_resource("t", "gone", object(vec![])),
        make_resource("t", "changed", object(vec![("x", number(1))])),
    ];
    let new = vec![
        make_resource("t", "came", object(vec![])),
        make_resource("t", "changed", object(vec![("x", number(2))])),
    ];
    let there = diff_resources(&old, &new);
    assert_eq!(addresses(&there), vec!["t.came", "t.changed", "t.gone"]);
    assert_eq!(there[0].kind, ResourceChangeKind::Created);
    assert_eq!(there[1].kind, ResourceChangeKind::Changed);
    assert_eq!(there[2].kind, ResourceChangeKind::Destroyed);
    let back = diff_resources(&new, &old);
    assert_eq!(addresses(&back), addresses(&there));
    assert_eq!(back[0].kind, ResourceChangeKind::Destroyed);
    assert_eq!(back[1].kind, ResourceChangeKind::Changed);
    assert_eq!(back[2].kind, ResourceChangeKind::Created);
    assert_eq!(back[1].attr_changes[0].old.as_deref(), Some("2"));
}

#[test]
fn outputs_are_rendered_by_kind() {
    let plain = OutputValue { value: text("host"), sensitive: false };
    assert_eq!(render_output(&plain), "host");
    let list = OutputValue { value: Json::Array(vec![number(1), text("a")]), sensitive: false };
    assert_eq!(render_output(&list), "[1,\"a\"]");
    let null = OutputValue { value: Json::Null, sensitive: false };
    assert_eq!(render_output(&null), "null");
    let hidden = OutputValue { value: text("host"), sensitive: true };
    assert_eq!(render_output(&hidden), REDACTED);
}

#[test]
fn outputs_are_compared_as_they_are() {
    let old = outputs(vec![
        ("flag", text("x"), false),
        ("gone", number(1), false),
        ("kind", number(1), false),
        ("rotated", text("a"), true),
        ("same", text("a"), true),
    ]);
    let new = outputs(vec![
        ("came", Json::Bool(false), false),
        ("flag", text("x"), true),
        ("kind", text("1"), false),
        ("rotated", text("b"), true),
        ("same", text("a"), true),
    ]);
    let diffs = diff_outputs(&old, &new);
    assert_eq!(names(&diffs), vec!["came", "flag", "gone", "kind", "rotated"]);
    assert_eq!(diffs[0].old, None);
    assert_eq!(diffs[0].new.as_deref(), Some("false"));
    assert_eq!(diffs[1].old.as_deref(), Some("x"));
    assert_eq!(diffs[1].new.as_deref(), Some(REDACTED));
    assert_eq!(diffs[2].old.as_deref(), Some("1"));
    assert_eq!(diffs[2].new, None);
    assert_eq!(diffs[3].old.as_deref(), Some("1"));
    assert_eq!(diffs[3].new.as_deref(), Some("1"));
    assert_eq!(diffs[4].old.as_deref(), Some(REDACTED));
    assert_eq!(diffs[4].new.as_deref(), Some(REDACTED));
}

#[test]
fn positive_and_negative_zero_are_the_same_output() {
    let zero = |x: f64| Json::Num(Num::Float(serde_json::Number::from_f64(x).unwrap()));
    let old = outputs(vec![("z", zero(0.0), false)]);
    let new = outputs(vec![("z", zero(-0.0), false)]);
    assert!(diff_outputs(&old, &new).is_empty());
}

#[test]
fn the_order_of_resources_plays_no_part() {
    let web = |size: &str| make_resource("aws_instance", "web", object(vec![("size", text(size))]));
    let db = |size: &str| make_resource("aws_db", "main", object(vec![("size", text(size))]));
    let one_way = diff_resources(&[web("a"), db("b")], &[web("c"), db("b")]);
    let other_way = diff_resources(&[db("b"), web("a")], &[web("c"), db("b")]);
    assert_eq!(addresses(&one_way), vec!["aws_instance.web"]);
    assert_eq!(addresses(&other_way), vec!["aws_instance.web"]);
    assert_eq!(one_way[0].attr_changes, other_way[0].attr_changes);
}

#[test]
fn resources_that_share_an_address_count_in_their_order() {
    let web = |size: &str| make_resource("aws_instance", "web", object(vec![("size", text(size))]));
    assert!(diff_resources(&[web("a"), web("b")], &[web("b")]).is_empty());
    assert_eq!(diff_resources(&[web("b"), web("a")], &[web("b")]).len(), 1);
    assert!(diff_resources(&[web("b"), web("b")], &[web("b")]).is_empty());
}
