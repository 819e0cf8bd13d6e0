use roslibrust_codegen::msg::{parse_ros_message_file, parse_ros_service_file};
use roslibrust_codegen::parse::{
    convert_ros_type_to_rust_type, is_intrinsic_type, parse_bounded_string, parse_constant_field,
    parse_field, parse_type, strip_comments,
};
use roslibrust_codegen::{ArrayType, ErrorKind, Package, RosVersion};

fn ros1_pkg() -> Package {
    Package {
        name: "test_pkg".to_string(),
        path: "./not_a_path".into(),
        version: Some(RosVersion::ROS1),
    }
}

fn ros2_pkg() -> Package {
    Package {
        name: "test_pkg".to_string(),
        path: "./not_a_path".into(),
        version: Some(RosVersion::ROS2),
    }
}

#[test]
fn parse_type_handles_fixed_size_correctly() {
    let line = "int32[9]";
    let pkg = ros1_pkg();
    let parsed = parse_type(line, &pkg).unwrap();
    assert_eq!(parsed.array_info, ArrayType::FixedLength(9));
}

#[test]
fn parse_type_handles_bounded_size_correctly() {
    let line = "int32[<=9]";
    let pkg = ros1_pkg();
    let parsed = parse_type(line, &pkg).unwrap();
    assert_eq!(parsed.array_info, ArrayType::Bounded(9));
}

#[test]
fn parse_type_handles_unbounded_size_correctly() {
    let line = "int32[]";
    let pkg = ros1_pkg();
    let parsed = parse_type(line, &pkg).unwrap();
    assert_eq!(parsed.array_info, ArrayType::Unbounded);
}

#[test]
fn array_forms_keep_base_type() {
    let pkg = ros1_pkg();
    let parsed = parse_type("float64[36]", &pkg).unwrap();
    assert_eq!(parsed.field_type, "float64");
    assert_eq!(parsed.package_name, None);
    assert_eq!(parsed.array_info, ArrayType::FixedLength(36));
    let parsed = parse_type("Point[<=3]", &pkg).unwrap();
    assert_eq!(parsed.field_type, "Point");
    assert_eq!(parsed.package_name, Some("test_pkg".to_string()));
    assert_eq!(parsed.array_info, ArrayType::Bounded(3));
    let parsed = parse_type("geometry_msgs/Point[]", &pkg).unwrap();
    assert_eq!(parsed.field_type, "Point");
    assert_eq!(parsed.package_name, Some("geometry_msgs".to_string()));
    assert_eq!(parsed.array_info, ArrayType::Unbounded);
}

#[test]
fn malformed_brackets_are_rejected() {
    let pkg = ros1_pkg();
    for token in ["int32[", "int32]", "int32]3[", "int32[3][4]", "int32[x]", "int32[<=]", "int32[-1]"] {
        let err = parse_type(token, &pkg).unwrap_err();
        assert_eq!(err.kind(), ErrorKind::Parse, "{token}");
    }
}

#[test]
fn size_too_large_is_rejected() {
    let pkg = ros1_pkg();
    let err = parse_type("int32[99999999999999999999999]", &pkg).unwrap_err();
    assert_eq!(err.kind(), ErrorKind::Parse);
}

#[test]
fn bounded_string_gets_capacity() {
    let (t, cap) = parse_bounded_string("string<=10").unwrap();
    assert_eq!(t, "string");
    assert_eq!(cap, Some(10));
    let (t, cap) = parse_bounded_string("string").unwrap();
    assert_eq!(t, "string");
    assert_eq!(cap, None);
    assert_eq!(parse_bounded_string("string<=ten").unwrap_err().kind(), ErrorKind::Parse);
}

#[test]
fn bounded_string_inside_array() {
    let pkg = ros2_pkg();
    let parsed = parse_type("string<=5[<=3]", &pkg).unwrap();
    assert_eq!(parsed.field_type, "string");
    assert_eq!(parsed.string_capacity, Some(5));
    assert_eq!(parsed.array_info, ArrayType::Bounded(3));
    assert_eq!(parsed.package_name, None);
}

#[test]
fn header_redirects_to_std_msgs() {
    let pkg = ros1_pkg();
    let parsed = parse_type("Header", &pkg).unwrap();
    assert_eq!(parsed.package_name, Some("std_msgs".to_string()));
    assert_eq!(parsed.field_type, "Header");
    assert_eq!(parsed.source_package, "test_pkg");
}

#[test]
fn bad_package_redirects_are_rejected() {
    let pkg = ros1_pkg();
    for token in ["a/b/c", "/Type", "pkg/"] {
        assert_eq!(parse_type(token, &pkg).unwrap_err().kind(), ErrorKind::Resolution, "{token}");
    }
}

#[test]
fn intrinsic_tables_depend_on_version() {
    assert!(is_intrinsic_type(RosVersion::ROS1, "time"));
    assert!(!is_intrinsic_type(RosVersion::ROS2, "time"));
    assert!(is_intrinsic_type(RosVersion::ROS2, "wstring"));
    assert!(!is_intrinsic_type(RosVersion::ROS1, "wstring"));
    assert!(is_intrinsic_type(RosVersion::ROS2, "uint8"));
    assert!(!is_intrinsic_type(RosVersion::ROS2, "Point"));
    assert_eq!(convert_ros_type_to_rust_type(RosVersion::ROS1, "int16"), Some("i16"));
    assert_eq!(convert_ros_type_to_rust_type(RosVersion::ROS1, "char"), Some("u8"));
    assert_eq!(
        convert_ros_type_to_rust_type(RosVersion::ROS2, "builtin_interfaces/Time"),
        Some("::roslibrust::codegen::integral_types::Time")
    );
    assert_eq!(convert_ros_type_to_rust_type(RosVersion::ROS2, "time"), None);
    assert_eq!(convert_ros_type_to_rust_type(RosVersion::ROS1, "Point"), None);
}

#[test]
fn field_lines_and_defaults() {
    let pkg = ros2_pkg();
    let f = parse_field("int32 count 7", &pkg, "Msg").unwrap();
    assert_eq!(f.field_name, "count");
    assert_eq!(f.field_type.field_type, "int32");
    assert_eq!(f.default, Some("7".to_string()));
    let f = parse_field("string name   \"a b\"  ", &pkg, "Msg").unwrap();
    assert_eq!(f.default, Some("\"a b\"".to_string()));
    let f = parse_field("int32 count 7", &ros1_pkg(), "Msg").unwrap();
    assert_eq!(f.default, None);
    assert_eq!(parse_field("int32", &pkg, "Msg").unwrap_err().kind(), ErrorKind::Parse);
    assert_eq!(parse_field("   ", &pkg, "Msg").unwrap_err().kind(), ErrorKind::Parse);
}

#[test]
fn constant_lines() {
    let pkg = ros1_pkg();
    let c = parse_constant_field("uint8 REQUEST_SENT = 0", &pkg).unwrap();
    assert_eq!(c.constant_type, "uint8");
    assert_eq!(c.constant_name, "REQUEST_SENT");
    assert_eq!(c.constant_value, "0");
    let c = parse_constant_field("string GREETING=hello world", &pkg).unwrap();
    assert_eq!(c.constant_name, "GREETING");
    assert_eq!(c.constant_value, "hello world");
    assert_eq!(parse_constant_field("uint8", &pkg).unwrap_err().kind(), ErrorKind::Parse);
    assert_eq!(parse_constant_field("uint8 X 3", &pkg).unwrap_err().kind(), ErrorKind::Parse);
}

#[test]
fn comments_are_stripped() {
    assert_eq!(strip_comments("int32 x # the x"), "int32 x ");
    assert_eq!(strip_comments("# whole line"), "");
    assert_eq!(strip_comments("int32 x"), "int32 x");
}

#[test]
fn message_file_fields_and_constants_in_order() {
    let pkg = ros2_pkg();
    let text = "# comment\nuint8 A = 1\nint32 x 5\n\nstring<=4 name\nfloat64[3] v # trailing\n";
    let m = parse_ros_message_file(text, "Msg", &pkg, "./msg/Msg.msg").unwrap();
    assert_eq!(m.name, "Msg");
    assert_eq!(m.package, "test_pkg");
    assert_eq!(m.source, text);
    assert_eq!(m.constants.len(), 1);
    assert_eq!(m.constants[0].constant_name, "A");
    let names: Vec<&str> = m.fields.iter().map(|f| f.field_name.as_str()).collect();
    assert_eq!(names, vec!["x", "name", "v"]);
    assert_eq!(m.fields[0].default, Some("5".to_string()));
    assert_eq!(m.fields[1].field_type.string_capacity, Some(4));
    assert_eq!(m.fields[2].field_type.array_info, ArrayType::FixedLength(3));
}

#[test]
fn message_file_reports_bad_line() {
    let pkg = ros2_pkg();
    let err = parse_ros_message_file("int32 x\nint32[ y\n", "Msg", &pkg, "m.msg").unwrap_err();
    assert_eq!(err.kind(), ErrorKind::Parse);
}

#[test]
fn service_file_splits_at_separator() {
    let pkg = ros2_pkg();
    let text = "int64 a\nint64 b\n---\nint64 sum\n";
    let s = parse_ros_service_file(text, "AddTwoInts", &pkg, "./srv/AddTwoInts.srv").unwrap();
    assert_eq!(s.request_type.name, "AddTwoIntsRequest");
    assert_eq!(s.response_type.name, "AddTwoIntsResponse");
    assert_eq!(s.request_type.fields.len(), 2);
    assert_eq!(s.response_type.fields.len(), 1);
    assert_eq!(s.response_type.fields[0].field_name, "sum");
}

#[test]
fn service_file_without_separator_is_rejected() {
    let pkg = ros2_pkg();
    let err = parse_ros_service_file("int64 a\n", "S", &pkg, "s.srv").unwrap_err();
    assert_eq!(err.kind(), ErrorKind::Parse);
}

#[test]
fn escaped_hash_is_not_a_comment() {
    assert_eq!(strip_comments("a\\#b"), "a\\#b");
    assert_eq!(strip_comments("string s \\# kept # dropped"), "string s \\# kept ");
    assert_eq!(strip_comments("#first"), "");
}

#[test]
fn missing_token_error_names_line_and_message() {
    let err = parse_field("int32", &ros2_pkg(), "Msg").unwrap_err();
    assert_eq!(
        err,
        roslibrust_codegen::Error::Parse {
            line: "int32".to_string(),
            context: "test_pkg/Msg".to_string(),
        }
    );
}

#[test]
fn unicode_white_space_separates_tokens() {
    let f = parse_field("int32\u{00A0}count\u{3000}", &ros1_pkg(), "Msg").unwrap();
    assert_eq!(f.field_type.field_type, "int32");
    assert_eq!(f.field_name, "count");
}
