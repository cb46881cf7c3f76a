use tfstatediff::diff::compare;
use tfstatediff::map::SortedMap;
use tfstatediff::report::{exit_code, report};
use tfstatediff::state::{InstanceState, OutputValue, ResourceState, TfState};
use tfstatediff::value::{Json, Num};

fn text(s: &str) -> Json {
    Json::String(s.to_string())
}

fn object(members: Vec<(&str, Json)>) -> Json {
    let mut map = SortedMap::new();
    for (key, value) in members {
        map.insert(key.to_string(), value);
    }
    Json::Object(map)
}

fn resource(ty: &str, name: &str, instances: Vec<(Option<u64>, Json)>) -> ResourceState {
    let mut made = Vec::new();
    for (key, attributes) in instances {
        made.push(InstanceState {
            index_key: key.map(|k| Json::Num(Num::PosInt(k))),
            attributes,
            sensitive_attributes: vec![],
        });
    }
    ResourceState {
        module: String::new(),
        mode: "managed".to_string(),
        resource_type: ty.to_string(),
        name: name.to_string(),
        instances: made,
    }
}

fn state(serial: u64, lineage: &str, outputs: Vec<(&str, Json, bool)>, resources: Vec<ResourceState>) -> TfState {
    let mut map = SortedMap::new();
    for (name, value, sensitive) in outputs {
        map.insert(name.to_string(), OutputValue { value, sensitive });
    }
    TfState {
        terraform_version: "1.5.0".to_string(),
        serial,
        lineage: lineage.to_string(),
        outputs: map,
        resources,
    }
}

fn instance(instance_type: &str, env: &str) -> ResourceState {
    resource(
        "aws_instance",
        "web",
        vec![(
            None,
            object(vec![
                ("instance_type", text(instance_type)),
                ("tags", object(vec![("Env", text(env)), ("Name", text("web"))])),
            ]),
        )],
    )
}

fn database(class: &str, password: &str) -> ResourceState {
    resource(
        "aws_db_instance",
        "main",
        vec![(
            None,
            object(vec![("instance_class", text(class)), ("password", text(password))]),
        )],
    )
}

fn old_state(password: &str) -> TfState {
    state(
        4,
        "l-1",
        vec![("db_password", text(password), true), ("instance_ip", text("10.0.0.1"), false)],
        vec![
            instance("t3.micro", "dev"),
            database("db.t3.small", password),
            resource("aws_instance", "worker", vec![(Some(0), object(vec![])), (Some(1), object(vec![]))]),
            resource("aws_s3_bucket", "logs", vec![(None, object(vec![]))]),
        ],
    )
}

fn new_state(password: &str) -> TfState {
    state(
        7,
        "l-1",
        vec![("db_password", text(password), true), ("instance_ip", text("10.0.0.2"), false)],
        vec![
            instance("t3.large", "prod"),
            database("db.t3.large", password),
            resource("aws_instance", "worker", vec![(Some(0), object(vec![]))]),
            resource("aws_security_group", "web_sg", vec![(None, object(vec![]))]),
        ],
    )
}

const FULL_REPORT: &str = "Serial: 4 -> 7

Resource changes:
  ~ aws_db_instance.main (2 attribute(s) changed)
      instance_class: db.t3.small -> db.t3.large
      password: (sensitive value, redacted) -> (sensitive value, redacted)
  ~ aws_instance.web (2 attribute(s) changed)
      instance_type: t3.micro -> t3.large
      tags.Env: dev -> prod
  - aws_instance.worker[1] (destroyed)
  - aws_s3_bucket.logs (destroyed)
  + aws_security_group.web_sg (created)

Output changes:
  db_password: (sensitive value, redacted) -> (sensitive value, redacted)
  instance_ip: 10.0.0.1 -> 10.0.0.2
";

#[test]
fn every_kind_of_change_is_reported() {
    let comparison = compare(&old_state("hunter2"), &new_state("hunter3"));
    assert_eq!(report(&comparison), FULL_REPORT);
    assert_eq!(exit_code(&comparison), 1);
}

#[test]
fn the_report_does_not_depend_on_the_secrets() {
    let comparison = compare(&old_state("alpha"), &new_state("omega"));
    assert_eq!(report(&comparison), FULL_REPORT);
}

#[test]
fn a_state_has_no_changes_against_itself() {
    let comparison = compare(&old_state("x"), &old_state("x"));
    assert_eq!(
        report(&comparison),
        "Serial: 4 -> 4\n\nNo resource changes.\n\nNo output changes.\n"
    );
    assert_eq!(exit_code(&comparison), 0);
    assert!(comparison.lineage_matches);
}

#[test]
fn a_lineage_mismatch_is_reported_first_and_is_no_change() {
    let comparison = compare(&state(1, "aaa", vec![], vec![]), &state(2, "bbb", vec![], vec![]));
    assert_eq!(
        report(&comparison),
        "WARNING: state lineage differs (aaa vs bbb) \u{2014} these snapshots are not from the same state history; a diff may not be meaningful.\n\nSerial: 1 -> 2\n\nNo resource changes.\n\nNo output changes.\n"
    );
    assert_eq!(exit_code(&comparison), 0);
}

#[test]
fn missing_sides_have_a_placeholder() {
    let old = state(1, "", vec![("a", text("x"), false)], vec![resource("t", "n", vec![(None, object(vec![("k", text("v"))]))])]);
    let new = state(1, "", vec![("b", text("y"), false)], vec![resource("t", "n", vec![(None, object(vec![("l", text("w"))]))])]);
    let comparison = compare(&old, &new);
    assert_eq!(
        report(&comparison),
        "Serial: 1 -> 1\n\nResource changes:\n  ~ t.n (2 attribute(s) changed)\n      k: v -> <absent>\n      l: <absent> -> w\n\nOutput changes:\n  a: x -> <absent>\n  b: <absent> -> y\n"
    );
}

#[test]
fn one_changed_output_is_enough_for_the_exit_code() {
    let old = state(1, "", vec![("a", text("x"), false)], vec![]);
    let new = state(1, "", vec![("a", text("y"), false)], vec![]);
    assert_eq!(exit_code(&compare(&old, &new)), 1);
    let grown = state(1, "", vec![("a", text("x"), false)], vec![resource("t", "n", vec![(None, Json::Null)])]);
    assert_eq!(exit_code(&compare(&old, &grown)), 1);
}
