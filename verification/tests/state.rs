use tfstatediff::state::{default_mode, resource_address, ResourceState};
use tfstatediff::value::{Json, Num};

fn resource(module: &str, mode: &str, ty: &str, name: &str) -> ResourceState {
    ResourceState {
        module: module.to_string(),
        mode: mode.to_string(),
        resource_type: ty.to_string(),
        name: name.to_string(),
        instances: vec![],
    }
}

#[test]
fn resource_address_for_plain_root_resource() {
    let r = resource("", "managed", "aws_instance", "web");
    assert_eq!(resource_address(&r, None), "aws_instance.web");
}

#[test]
fn resource_address_for_data_source() {
    let r = resource("", "data", "aws_ami", "ubuntu");
    assert_eq!(resource_address(&r, None), "data.aws_ami.ubuntu");
}

#[test]
fn resource_address_includes_module_prefix() {
    let r = resource("module.vpc", "managed", "aws_subnet", "private");
    assert_eq!(resource_address(&r, None), "module.vpc.aws_subnet.private");
}

#[test]
fn resource_address_appends_string_index_key_for_each() {
    let r = resource("", "managed", "aws_subnet", "private");
    let key = Json::String("us-east-1a".to_string());
    assert_eq!(
        resource_address(&r, Some(&key)),
        "aws_subnet.private[\"us-east-1a\"]"
    );
}

#[test]
fn resource_address_appends_numeric_index_key_for_count() {
    let r = resource("", "managed", "aws_instance", "worker");
    let key = Json::Num(Num::PosInt(2));
    assert_eq!(resource_address(&r, Some(&key)), "aws_instance.worker[2]");
}

#[test]
fn resource_address_combines_module_and_data_prefix() {
    let r = resource("module.net", "data", "aws_ami", "ubuntu");
    assert_eq!(resource_address(&r, None), "module.net.data.aws_ami.ubuntu");
}

#[test]
fn other_index_keys_add_nothing() {
    let r = resource("", "managed", "t", "n");
    assert_eq!(resource_address(&r, Some(&Json::Null)), "t.n");
    assert_eq!(resource_address(&r, Some(&Json::Bool(true))), "t.n");
    assert_eq!(resource_address(&r, Some(&Json::Array(vec![]))), "t.n");
}

#[test]
fn index_keys_are_written_as_they_are() {
    let r = resource("", "managed", "t", "n");
    let quoted = Json::String("a\"b".to_string());
    assert_eq!(resource_address(&r, Some(&quoted)), "t.n[\"a\"b\"]");
    let negative = Json::Num(Num::NegInt(-1));
    assert_eq!(resource_address(&r, Some(&negative)), "t.n[-1]");
    let float = Json::Num(Num::Float(serde_json::Number::from_f64(0.5).unwrap()));
    assert_eq!(resource_address(&r, Some(&float)), "t.n[0.5]");
    let digits = Json::String("1".to_string());
    let one = Json::Num(Num::PosInt(1));
    assert_ne!(
        resource_address(&r, Some(&digits)),
        resource_address(&r, Some(&one))
    );
}

#[test]
fn a_mode_that_is_not_data_is_not_shown() {
    let r = resource("", "", "t", "n");
    assert_eq!(resource_address(&r, None), "t.n");
    let r = resource("", "Data", "t", "n");
    assert_eq!(resource_address(&r, None), "t.n");
    let r = resource("", "data2", "t", "n");
    assert_eq!(resource_address(&r, None), "t.n");
}

#[test]
fn resources_are_managed_by_default() {
    assert_eq!(default_mode(), "managed");
}

#[test]
fn texts_numbers_and_no_key_give_different_addresses() {
    let r = resource("", "managed", "t", "n");
    for x in [0.5, -0.5, 0.0, -0.0, 1e300, 5e-324] {
        let number = Json::Num(Num::Float(serde_json::Number::from_f64(x).unwrap()));
        let by_number = resource_address(&r, Some(&number));
        let first = by_number["t.n[".len()..].chars().next().unwrap();
        assert!(first == '-' || first.is_ascii_digit());
        let same_characters = by_number["t.n[".len()..by_number.len() - 1].to_string();
        let by_text = resource_address(&r, Some(&Json::String(same_characters)));
        assert_ne!(by_number, by_text);
        assert_ne!(by_number, resource_address(&r, None));
    }
}
