use roslibrust_codegen::json::to_ros2_json;
use roslibrust_codegen::msg::{parse_ros_message_file, parse_ros_service_file};
use roslibrust_codegen::resolve::resolve_dependency_graph;
use roslibrust_codegen::ros2_builtin_interfaces::get_builtin_interfaces;
use roslibrust_codegen::ros2_hashing::{
    calculate_hash, calculate_ros2_hash, calculate_ros2_srv_hash, convert_to_type_description,
    get_field_type_id, get_field_type_string, Field, FieldType, TypeDescription,
    TypeDescriptionMsg,
};
use roslibrust_codegen::{ArrayType, ErrorKind, MessageFile, Package, RosVersion};

fn ft(type_id: u8, capacity: u32, nested: &str) -> FieldType {
    FieldType {
        type_id,
        capacity,
        string_capacity: 0,
        nested_name: nested.to_string(),
    }
}

fn field(name: &str, field_type: FieldType) -> Field {
    Field {
        name: name.to_string(),
        field_type,
        default_value: String::new(),
    }
}

fn td(name: &str, fields: Vec<Field>) -> TypeDescription {
    TypeDescription {
        name: name.to_string(),
        fields,
    }
}

fn msg(type_description: TypeDescription, refs: Vec<TypeDescription>) -> TypeDescriptionMsg {
    TypeDescriptionMsg {
        type_description,
        referenced_type_descriptions: refs,
    }
}

fn multi_array_dimension() -> TypeDescription {
    td(
        "std_msgs/msg/MultiArrayDimension",
        vec![
            field("label", ft(17, 0, "")),
            field("size", ft(7, 0, "")),
            field("stride", ft(7, 0, "")),
        ],
    )
}

fn add_two_ints(pkg: &str) -> TypeDescriptionMsg {
    let req = format!("{pkg}/srv/AddTwoInts_Request");
    let resp = format!("{pkg}/srv/AddTwoInts_Response");
    let ev = format!("{pkg}/srv/AddTwoInts_Event");
    let mut refs = vec![
        td(&req, vec![field("a", ft(8, 0, "")), field("b", ft(8, 0, ""))]),
        td(&resp, vec![field("sum", ft(8, 0, ""))]),
        td(
            &ev,
            vec![
                field("info", ft(1, 0, "service_msgs/msg/ServiceEventInfo")),
                field("request", ft(97, 1, &req)),
                field("response", ft(97, 1, &resp)),
            ],
        ),
        td(
            "builtin_interfaces/msg/Time",
            vec![field("sec", ft(6, 0, "")), field("nanosec", ft(7, 0, ""))],
        ),
        td(
            "service_msgs/msg/ServiceEventInfo",
            vec![
                field("event_type", ft(3, 0, "")),
                field("stamp", ft(1, 0, "builtin_interfaces/msg/Time")),
                field("client_gid", ft(51, 16, "")),
                field("sequence_number", ft(8, 0, "")),
            ],
        ),
    ];
    refs.sort_by(|a, b| a.name.cmp(&b.name));
    msg(
        td(
            &format!("{pkg}/srv/AddTwoInts"),
            vec![
                field("request_message", ft(1, 0, &req)),
                field("response_message", ft(1, 0, &resp)),
                field("event_message", ft(1, 0, &ev)),
            ],
        ),
        refs,
    )
}

#[test]
fn ros2_hashing_against_message_files() {
    let test_data = [
        (
            msg(td("std_msgs/msg/String", vec![field("data", ft(17, 0, ""))]), vec![]),
            "RIHS01_df668c740482bbd48fb39d76a70dfd4bd59db1288021743503259e948f6b1a18",
        ),
        (
            msg(
                td(
                    "std_msgs/msg/MultiArrayLayout",
                    vec![
                        field("dim", ft(145, 0, "std_msgs/msg/MultiArrayDimension")),
                        field("data_offset", ft(7, 0, "")),
                    ],
                ),
                vec![multi_array_dimension()],
            ),
            "RIHS01_4c66e6f78e740ac103a94cf63259f968e48c617e7699e829b63c21a5cb50dac6",
        ),
        (
            msg(multi_array_dimension(), vec![]),
            "RIHS01_5e773a60a4c7fc8a54985f307c7837aa2994252a126c301957a24e31282c9cbe",
        ),
        (
            msg(
                td(
                    "std_msgs/msg/ColorRGBA",
                    vec![
                        field("r", ft(10, 0, "")),
                        field("g", ft(10, 0, "")),
                        field("b", ft(10, 0, "")),
                        field("a", ft(10, 0, "")),
                    ],
                ),
                vec![],
            ),
            "RIHS01_77a7a5b9ae477306097665106e0413ba74440245b1f3d0c6d6405fe5c7813fe8",
        ),
    ];
    for (description, expected_hash) in test_data {
        let calculated_hash = calculate_hash(&description);
        assert_eq!(calculated_hash.to_hash_string(), expected_hash);
    }
}

#[test]
fn spot_check_field_type_id() {
    let mut field = roslibrust_codegen::FieldType {
        package_name: Some("std_msgs".to_string()),
        source_package: "std_msgs".to_string(),
        field_type: "string".to_string(),
        array_info: ArrayType::FixedLength(10),
        string_capacity: None,
    };
    assert_eq!(get_field_type_id(&field).unwrap(), 65);

    field.array_info = ArrayType::Unbounded;
    assert_eq!(get_field_type_id(&field).unwrap(), 161);

    field.field_type = "int32".to_string();
    field.array_info = ArrayType::FixedLength(10);
    assert_eq!(get_field_type_id(&field).unwrap(), 54);

    field.array_info = ArrayType::Unbounded;
    assert_eq!(get_field_type_id(&field).unwrap(), 150);

    field.array_info = ArrayType::NotArray;
    assert_eq!(get_field_type_id(&field).unwrap(), 6);

    field.array_info = ArrayType::Bounded(10);
    assert_eq!(get_field_type_id(&field).unwrap(), 102);

    field.field_type = "bool".to_string();
    field.array_info = ArrayType::NotArray;
    assert_eq!(get_field_type_id(&field).unwrap(), 15);
}

#[test]
fn field_type_ids_of_other_kinds() {
    let mut field = roslibrust_codegen::FieldType {
        package_name: None,
        source_package: "p".to_string(),
        field_type: "string".to_string(),
        array_info: ArrayType::NotArray,
        string_capacity: Some(10),
    };
    assert_eq!(get_field_type_id(&field).unwrap(), 21);
    assert_eq!(get_field_type_string(&field), "FIELD_TYPE_BOUNDED_STRING");
    field.array_info = ArrayType::Unbounded;
    assert_eq!(get_field_type_id(&field).unwrap(), 165);
    field.field_type = "char".to_string();
    field.string_capacity = None;
    field.array_info = ArrayType::FixedLength(16);
    assert_eq!(get_field_type_id(&field).unwrap(), 51);
    assert_eq!(get_field_type_string(&field), "FIELD_TYPE_UINT8_ARRAY");
    field.field_type = "byte".to_string();
    field.array_info = ArrayType::NotArray;
    assert_eq!(get_field_type_id(&field).unwrap(), 16);
    field.field_type = "Point".to_string();
    field.array_info = ArrayType::Bounded(2);
    assert_eq!(get_field_type_id(&field).unwrap(), 97);
    assert_eq!(get_field_type_string(&field), "FIELD_TYPE_NESTED_TYPE_BOUNDED_SEQUENCE");
}

#[test]
fn bounded_non_string_has_no_type_id() {
    let field = roslibrust_codegen::FieldType {
        package_name: None,
        source_package: "p".to_string(),
        field_type: "int32".to_string(),
        array_info: ArrayType::NotArray,
        string_capacity: Some(3),
    };
    let err = get_field_type_id(&field).unwrap_err();
    assert_eq!(err.kind(), ErrorKind::UnknownFieldType);
}

#[test]
fn full_hash_tests() {
    let package = Package {
        name: "std_msgs".to_string(),
        path: "../assets/ros2_common_interfaces/std_msgs".to_string(),
        version: Some(RosVersion::ROS2),
    };
    let text = "# This was provided as an example message.\n# It is deprecated as of Foxy\n# It is recommended to create your own semantically meaningful message.\n# However if you would like to continue using this please use the equivalent in example_msgs.\n\nstring data\n";
    let msg = parse_ros_message_file(
        text,
        "String",
        &package,
        "../assets/ros2_common_interfaces/std_msgs/msg/String.msg",
    )
    .expect("Failed to parse test file");

    let hash = calculate_ros2_hash(&msg, &Vec::new()).unwrap();

    assert_eq!(
        hash.to_hash_string(),
        "RIHS01_df668c740482bbd48fb39d76a70dfd4bd59db1288021743503259e948f6b1a18"
    );
}

#[test]
fn ros2_hashing_against_service_files() {
    let test_data = [(
        add_two_ints("example_interfaces"),
        "RIHS01_e118de6bf5eeb66a2491b5bda11202e7b68f198d6f67922cf30364858239c81a",
    )];
    for (description, expected_hash) in test_data {
        let calculated_hash = calculate_hash(&description);
        assert_eq!(calculated_hash.to_hash_string(), expected_hash);
    }
}

#[test]
fn ros2_srv_hash_tests() {
    let package = Package {
        name: "ros2_test_msgs".to_string(),
        path: "../assets/ros2_test_msgs".to_string(),
        version: Some(RosVersion::ROS2),
    };
    let srv = parse_ros_service_file(
        "int64 a\nint64 b\n---\nint64 sum\n",
        "AddTwoInts",
        &package,
        "../assets/ros2_test_msgs/srv/AddTwoInts.srv",
    )
    .expect("Failed to parse test file");

    let (resolved_msg, resolved_srv) = resolve_dependency_graph(vec![], vec![srv]).unwrap();
    let hash = calculate_ros2_srv_hash(&resolved_srv[0].parsed, &resolved_msg).unwrap();

    assert_eq!(
        hash.to_hash_string(),
        "RIHS01_cbdcb755e63eba37467c9846fe9f0b458c2989832e888dfd39ecbf8991800ef7"
    );
    assert_eq!(
        resolved_srv[0].ros2_hash.to_hash_string(),
        "RIHS01_cbdcb755e63eba37467c9846fe9f0b458c2989832e888dfd39ecbf8991800ef7"
    );
}

#[test]
fn service_aggregate_has_three_fields_and_three_parts() {
    let package = Package {
        name: "ros2_test_msgs".to_string(),
        path: "x".to_string(),
        version: Some(RosVersion::ROS2),
    };
    let srv = parse_ros_service_file(
        "int64 a\nint64 b\n---\nint64 sum\n",
        "AddTwoInts",
        &package,
        "x/srv/AddTwoInts.srv",
    )
    .unwrap();
    let graph = get_builtin_interfaces().unwrap();
    let expected = add_two_ints("ros2_test_msgs");
    assert_eq!(expected.type_description.fields.len(), 3);
    let names: Vec<&str> = expected
        .referenced_type_descriptions
        .iter()
        .map(|d| d.name.as_str())
        .filter(|n| n.starts_with("ros2_test_msgs/srv/"))
        .collect();
    assert_eq!(
        names,
        vec![
            "ros2_test_msgs/srv/AddTwoInts_Event",
            "ros2_test_msgs/srv/AddTwoInts_Request",
            "ros2_test_msgs/srv/AddTwoInts_Response"
        ]
    );
    let hash = calculate_ros2_srv_hash(&srv, &graph).unwrap();
    assert_eq!(hash, calculate_hash(&expected));
}

#[test]
fn json_text_is_canonical() {
    let m = msg(td("std_msgs/msg/String", vec![field("data", ft(17, 0, ""))]), vec![]);
    assert_eq!(
        to_ros2_json(&m),
        "{\"type_description\": {\"type_name\": \"std_msgs/msg/String\", \"fields\": [{\"name\": \"data\", \"type\": {\"type_id\": 17, \"capacity\": 0, \"string_capacity\": 0, \"nested_type_name\": \"\"}}]}, \"referenced_type_descriptions\": []}"
    );
}

#[test]
fn json_strings_are_escaped() {
    let m = msg(td("a\"b\\c\n\u{1}", vec![]), vec![]);
    assert_eq!(
        to_ros2_json(&m),
        "{\"type_description\": {\"type_name\": \"a\\\"b\\\\c\\n\\u0001\", \"fields\": []}, \"referenced_type_descriptions\": []}"
    );
}

#[test]
fn empty_message_gets_placeholder_field() {
    let package = Package {
        name: "std_msgs".to_string(),
        path: "p".to_string(),
        version: Some(RosVersion::ROS2),
    };
    let empty = parse_ros_message_file("# nothing\n", "Empty", &package, "p/msg/Empty.msg").unwrap();
    let d = convert_to_type_description(&empty, &Vec::new(), false).unwrap();
    assert_eq!(d.type_description.name, "std_msgs/msg/Empty");
    assert_eq!(d.type_description.fields.len(), 1);
    let f = &d.type_description.fields[0];
    assert_eq!(f.name, "structure_needs_at_least_one_member");
    assert_eq!(f.field_type.type_id, 3);
    assert_eq!(f.field_type.capacity, 0);
    assert_eq!(f.field_type.string_capacity, 0);
    assert_eq!(f.field_type.nested_name, "");
}

#[test]
fn missing_dependency_is_a_graph_error() {
    let package = Package {
        name: "my_pkg".to_string(),
        path: "p".to_string(),
        version: Some(RosVersion::ROS2),
    };
    let m = parse_ros_message_file("other_pkg/Thing thing\n", "Holder", &package, "p/msg/Holder.msg")
        .unwrap();
    let err = convert_to_type_description(&m, &Vec::new(), false).unwrap_err();
    assert_eq!(err.kind(), ErrorKind::MissingType);
    match err {
        roslibrust_codegen::Error::MissingType { missing, .. } => assert_eq!(missing, "other_pkg/Thing"),
        _ => panic!("wrong error"),
    }
    let err = MessageFile::resolve(m, &Vec::new()).unwrap_err();
    assert_eq!(err.kind(), ErrorKind::MissingType);
}

#[test]
fn cyclic_types_are_a_graph_error() {
    let package = Package {
        name: "p".to_string(),
        path: "p".to_string(),
        version: Some(RosVersion::ROS2),
    };
    let a = parse_ros_message_file("B b\n", "A", &package, "p/msg/A.msg").unwrap();
    let b = parse_ros_message_file("A a\n", "B", &package, "p/msg/B.msg").unwrap();
    let node = |parsed| MessageFile {
        parsed,
        ros2_hash: Default::default(),
        md5sum: String::new(),
        definition: String::new(),
        is_fixed_encoding_length: false,
    };
    let graph = vec![node(a.clone()), node(b)];
    let err = convert_to_type_description(&a, &graph, false).unwrap_err();
    assert_eq!(err.kind(), ErrorKind::CyclicType);
}

#[test]
fn hashing_twice_gives_the_same_strings() {
    let graph = get_builtin_interfaces().unwrap();
    let package = Package {
        name: "p".to_string(),
        path: "p".to_string(),
        version: Some(RosVersion::ROS2),
    };
    let m = parse_ros_message_file(
        "builtin_interfaces/Time t\nbuiltin_interfaces/Duration d\n",
        "Stamped",
        &package,
        "p/msg/Stamped.msg",
    )
    .unwrap();
    let first = MessageFile::resolve(m.clone(), &graph).unwrap();
    let second = MessageFile::resolve(m.clone(), &graph).unwrap();
    assert_eq!(first.md5sum, second.md5sum);
    assert_eq!(first.ros2_hash, second.ros2_hash);
    assert_eq!(first.md5sum.len(), 32);
    // the referenced types come out ordered by name whatever the graph order
    let reversed: Vec<MessageFile> = graph.iter().rev().cloned().collect();
    let third = MessageFile::resolve(m.clone(), &reversed).unwrap();
    assert_eq!(first.ros2_hash, third.ros2_hash);
    let d = convert_to_type_description(&m, &reversed, false).unwrap();
    let names: Vec<&str> = d.referenced_type_descriptions.iter().map(|t| t.name.as_str()).collect();
    assert_eq!(names, vec!["builtin_interfaces/msg/Duration", "builtin_interfaces/msg/Time"]);
}

#[test]
fn legacy_definition_inlines_nested_types_once() {
    let graph = get_builtin_interfaces().unwrap();
    let package = Package {
        name: "p".to_string(),
        path: "p".to_string(),
        version: Some(RosVersion::ROS2),
    };
    let m = parse_ros_message_file(
        "builtin_interfaces/Time a\nbuiltin_interfaces/Time b\nint32 c\n",
        "Twice",
        &package,
        "p/msg/Twice.msg",
    )
    .unwrap();
    let r = MessageFile::resolve(m, &graph).unwrap();
    assert_eq!(r.definition.matches("MSG: builtin_interfaces/Time").count(), 1);
    assert!(r.definition.starts_with("builtin_interfaces/Time a\n"));
    assert!(!r.is_fixed_encoding_length || r.definition.contains("int32 sec"));
    assert!(r.is_fixed_encoding_length);
    assert_eq!(r.md5sum.len(), 32);
    assert!(r.md5sum.chars().all(|c| c.is_ascii_hexdigit() && !c.is_ascii_uppercase()));
}

#[test]
fn string_fields_are_not_fixed_length() {
    let package = Package {
        name: "p".to_string(),
        path: "p".to_string(),
        version: Some(RosVersion::ROS2),
    };
    let m = parse_ros_message_file("string s\n", "S", &package, "p/msg/S.msg").unwrap();
    let r = MessageFile::resolve(m, &Vec::new()).unwrap();
    assert!(!r.is_fixed_encoding_length);
}

#[test]
fn builtins_are_loaded() {
    let graph = get_builtin_interfaces().unwrap();
    assert_eq!(graph.len(), 3);
    assert_eq!(graph[0].parsed.name, "Time");
    assert_eq!(graph[1].parsed.name, "Duration");
    assert_eq!(graph[2].parsed.name, "ServiceEventInfo");
    assert_eq!(graph[2].parsed.constants.len(), 4);
    assert_eq!(graph[2].parsed.fields.len(), 4);
    assert_eq!(
        graph[0].ros2_hash.to_hash_string().len(),
        "RIHS01_".len() + 64
    );
}

#[test]
fn graph_builder_orders_by_dependency() {
    let package = Package {
        name: "p".to_string(),
        path: "p".to_string(),
        version: Some(RosVersion::ROS2),
    };
    let outer = parse_ros_message_file("Inner i\n", "Outer", &package, "p/msg/Outer.msg").unwrap();
    let inner = parse_ros_message_file("int8 x\n", "Inner", &package, "p/msg/Inner.msg").unwrap();
    let (graph, _) = resolve_dependency_graph(vec![outer, inner], vec![]).unwrap();
    assert_eq!(graph.len(), 5);
    assert_eq!(graph[3].parsed.name, "Inner");
    assert_eq!(graph[4].parsed.name, "Outer");
    let lonely = parse_ros_message_file("Nowhere n\n", "Lonely", &package, "p/msg/L.msg").unwrap();
    let err = resolve_dependency_graph(vec![lonely], vec![]).unwrap_err();
    assert_eq!(err.kind(), ErrorKind::MissingType);
}

#[test]
fn graph_builder_reports_cycles() {
    let package = Package {
        name: "p".to_string(),
        path: "p".to_string(),
        version: Some(RosVersion::ROS2),
    };
    let a = parse_ros_message_file("B b\n", "A", &package, "p/msg/A.msg").unwrap();
    let b = parse_ros_message_file("A a\n", "B", &package, "p/msg/B.msg").unwrap();
    let err = resolve_dependency_graph(vec![a, b], vec![]).unwrap_err();
    assert_eq!(err.kind(), ErrorKind::CyclicType);
}

#[test]
fn legacy_digest_of_a_plain_message() {
    let package = Package {
        name: "p".to_string(),
        path: "p".to_string(),
        version: Some(RosVersion::ROS1),
    };
    let m = parse_ros_message_file("int32 x\n", "X", &package, "p/msg/X.msg").unwrap();
    let r = MessageFile::resolve(m, &Vec::new()).unwrap();
    assert_eq!(r.definition, "int32 x\n");
    assert_eq!(r.md5sum, "473ca26ef03ccc8aaa51315094bcec2e");
    assert!(r.is_fixed_encoding_length);
}

#[test]
fn service_hash_does_not_depend_on_the_path() {
    let package = Package {
        name: "ros2_test_msgs".to_string(),
        path: "x".to_string(),
        version: Some(RosVersion::ROS2),
    };
    let graph = get_builtin_interfaces().unwrap();
    let text = "int64 a\nint64 b\n---\nint64 sum\n";
    let a = parse_ros_service_file(text, "AddTwoInts", &package, "x/srv/AddTwoInts.srv").unwrap();
    let b = parse_ros_service_file(text, "AddTwoInts", &package, "somewhere/else.txt").unwrap();
    let ha = calculate_ros2_srv_hash(&a, &graph).unwrap();
    let hb = calculate_ros2_srv_hash(&b, &graph).unwrap();
    assert_eq!(ha, hb);
    assert_eq!(
        hb.to_hash_string(),
        "RIHS01_cbdcb755e63eba37467c9846fe9f0b458c2989832e888dfd39ecbf8991800ef7"
    );
}

#[test]
fn missing_type_error_names_both_types() {
    let package = Package {
        name: "my_pkg".to_string(),
        path: "p".to_string(),
        version: Some(RosVersion::ROS2),
    };
    let m = parse_ros_message_file("int8 x\nother_pkg/Thing thing\n", "Holder", &package, "p/msg/Holder.msg")
        .unwrap();
    let expected = roslibrust_codegen::Error::MissingType {
        referrer: "my_pkg/Holder".to_string(),
        missing: "other_pkg/Thing".to_string(),
    };
    assert_eq!(calculate_ros2_hash(&m, &Vec::new()).unwrap_err(), expected);
    assert_eq!(MessageFile::resolve(m, &Vec::new()).unwrap_err(), expected);
}

#[test]
fn oversized_capacity_is_rejected() {
    let package = Package {
        name: "p".to_string(),
        path: "p".to_string(),
        version: Some(RosVersion::ROS2),
    };
    let m = parse_ros_message_file("int32[4294967296] big\n", "Big", &package, "p/msg/Big.msg").unwrap();
    let err = convert_to_type_description(&m, &Vec::new(), false).unwrap_err();
    assert_eq!(
        err,
        roslibrust_codegen::Error::CapacityTooLarge { field: "big".to_string() }
    );
    let ok = parse_ros_message_file("int32[4294967295] big\n", "Big", &package, "p/msg/Big.msg").unwrap();
    let d = convert_to_type_description(&ok, &Vec::new(), false).unwrap();
    assert_eq!(d.type_description.fields[0].field_type.capacity, 4294967295);
}

#[test]
fn later_entry_of_a_name_wins() {
    let package = Package {
        name: "p".to_string(),
        path: "p".to_string(),
        version: Some(RosVersion::ROS2),
    };
    let outer = parse_ros_message_file("Inner i\n", "Outer", &package, "p/msg/Outer.msg").unwrap();
    let old = parse_ros_message_file("int8 x\n", "Inner", &package, "p/msg/Inner.msg").unwrap();
    let new = parse_ros_message_file("int16 y\n", "Inner", &package, "p/msg/Inner.msg").unwrap();
    let graph = vec![
        MessageFile::resolve(old, &Vec::new()).unwrap(),
        MessageFile::resolve(new, &Vec::new()).unwrap(),
    ];
    let d = convert_to_type_description(&outer, &graph, false).unwrap();
    assert_eq!(d.referenced_type_descriptions.len(), 1);
    assert_eq!(d.referenced_type_descriptions[0].fields[0].name, "y");
}
