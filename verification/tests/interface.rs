use noten::interface::{
    contract_hash_key, get_entry_points, package_hash_key, wrapped_contract_hash_key,
    wrapped_package_hash_key, Access, EntryPoint, Parameter, ValueType,
};

fn parameter(name: &str, value_type: ValueType) -> Parameter {
    Parameter { name: name.to_string(), value_type }
}

fn public(name: &str, parameters: Vec<Parameter>, return_type: ValueType) -> EntryPoint {
    EntryPoint { name: name.to_string(), parameters, return_type, access: Access::Public }
}

#[test]
fn the_entry_points_are_declared() {
    let expected = vec![
        EntryPoint {
            name: "constructor".to_string(),
            parameters: vec![
                parameter("name", ValueType::Text),
                parameter("symbol", ValueType::Text),
                parameter("meta", ValueType::Metadata),
            ],
            return_type: ValueType::Unit,
            access: Access::Group("constructor".to_string()),
        },
        public("name", vec![], ValueType::Text),
        public("symbol", vec![], ValueType::Text),
        public("meta", vec![], ValueType::Metadata),
        public("token_meta", vec![parameter("token_id", ValueType::TokenId)], ValueType::Metadata),
        public(
            "grade",
            vec![
                parameter("student", ValueType::Identity),
                parameter("subject", ValueType::Text),
                parameter("year", ValueType::Number),
                parameter("type", ValueType::Text),
                parameter("grade", ValueType::Number),
            ],
            ValueType::Unit,
        ),
        public(
            "update_grade",
            vec![
                parameter("student", ValueType::Identity),
                parameter("grade", ValueType::Number),
                parameter("token_id", ValueType::TokenId),
            ],
            ValueType::Unit,
        ),
        public("add_teacher", vec![parameter("teacher", ValueType::Identity)], ValueType::Unit),
        public("remove_teacher", vec![parameter("teacher", ValueType::Identity)], ValueType::Unit),
    ];
    assert_eq!(get_entry_points(), expected);
}

#[test]
fn entry_point_names_differ() {
    let entry_points = get_entry_points();
    for (i, one) in entry_points.iter().enumerate() {
        for other in &entry_points[i + 1..] {
            assert_ne!(one.name, other.name);
        }
    }
}

#[test]
fn only_the_constructor_is_restricted() {
    for entry_point in get_entry_points() {
        if entry_point.name == "constructor" {
            assert_eq!(entry_point.access, Access::Group("constructor".to_string()));
        } else {
            assert_eq!(entry_point.access, Access::Public);
        }
    }
}

#[test]
fn keys_are_named_after_the_ledger() {
    assert_eq!(package_hash_key(), "contract_package_hash");
    assert_eq!(contract_hash_key("noten"), "noten_contract_hash");
    assert_eq!(wrapped_contract_hash_key("noten"), "noten_contract_hash_wrapped");
    assert_eq!(wrapped_package_hash_key("noten"), "noten_package_hash_wrapped");
    assert_eq!(contract_hash_key(""), "_contract_hash");
}
